use minigrep_sopesto::buscar_distinguido;
use minigrep_sopesto::busqueda;
use minigrep_sopesto::filtrar;

#[test]
fn un_resultado() {
    let consulta = "duct";
    let contenido = "\
Rust:
safe, fast, productive.
Pick three.";

    assert_eq!(vec!["safe, fast, productive.".to_string()], busqueda(consulta, contenido));
}

#[test]
fn distinguido() {
    let consulta = "duct";
    let contenido = "\
Rust:
safe, fast, productive.
Pick three.
Duct tape.";

    assert_eq!(vec!["safe, fast, productive.".to_string()], busqueda(consulta, contenido));
}

#[test]
fn no_distinguido() {
    let consulta = "rUsT";
    let contenido = "\
Rust:
safe, fast, productive.
Pick three.
Trust me.";

    assert_eq!(
        vec!["Rust:".to_string(), "Trust me.".to_string()],
        buscar_distinguido(consulta, contenido)
    );
}

#[test]
fn consulta_vacia_coincide_con_todo() {
    let contenido = "uno\ndos\ntres";
    let todas = vec!["uno".to_string(), "dos".to_string(), "tres".to_string()];
    assert_eq!(todas, busqueda("", contenido));
    assert_eq!(todas, buscar_distinguido("", contenido));
}

#[test]
fn sin_coincidencias_lista_vacia() {
    let contenido = "uno\ndos\ntres";
    assert_eq!(Vec::<String>::new(), busqueda("cuatro", contenido));
    assert_eq!(Vec::<String>::new(), buscar_distinguido("cuatro", contenido));
}

#[test]
fn salto_final_no_crea_linea() {
    assert_eq!(vec!["a".to_string(), "b".to_string()], busqueda("", "a\nb\n"));
}

#[test]
fn salto_doble_crea_linea_vacia() {
    assert_eq!(
        vec!["a".to_string(), "".to_string(), "b".to_string()],
        busqueda("", "a\n\nb")
    );
}

#[test]
fn contenido_vacio_sin_lineas() {
    assert_eq!(Vec::<String>::new(), busqueda("", ""));
    assert_eq!(Vec::<String>::new(), buscar_distinguido("x", ""));
}

#[test]
fn duplicados_conservados_en_orden() {
    let contenido = "si\nno\nsi\nsi";
    assert_eq!(
        vec!["si".to_string(), "si".to_string(), "si".to_string()],
        busqueda("si", contenido)
    );
}

#[test]
fn insensible_superconjunto_del_sensible() {
    let contenido = "Rust:\nsafe, fast, productive.\nPick three.\nTrust me.";
    let sensibles = busqueda("Rust", contenido);
    let insensibles = buscar_distinguido("Rust", contenido);
    assert_eq!(vec!["Rust:".to_string()], sensibles);
    for linea in &sensibles {
        assert!(insensibles.contains(linea));
    }
    assert_eq!(vec!["Rust:".to_string(), "Trust me.".to_string()], insensibles);
}

#[test]
fn filtrado_idempotente_en_ambos_modos() {
    let contenido = "Rust:\nsafe, fast, productive.\nPick three.\nTrust me.";
    for distinguir in [true, false] {
        let una_vez = filtrar("rust", contenido, distinguir);
        let reunido = una_vez.join("\n");
        let dos_veces = filtrar("rust", &reunido, distinguir);
        assert_eq!(una_vez, dos_veces);
    }
}

#[test]
fn filtrar_despacha_por_modo() {
    let contenido = "Rust:\nTrust me.\nrustico";
    assert_eq!(
        vec!["Trust me.".to_string(), "rustico".to_string()],
        filtrar("rust", contenido, true)
    );
    assert_eq!(
        vec!["Rust:".to_string(), "Trust me.".to_string(), "rustico".to_string()],
        filtrar("rust", contenido, false)
    );
}

#[test]
fn insensible_no_altera_lo_emitido() {
    let contenido = "MAYUSCULAS\nminusculas";
    assert_eq!(
        vec!["MAYUSCULAS".to_string()],
        buscar_distinguido("mayus", contenido)
    );
}
