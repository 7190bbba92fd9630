use minigrep_sopesto::Config;
use minigrep_sopesto::ConfigError;

fn argumentos(palabras: &[&str]) -> Vec<String> {
    palabras.iter().map(|p| p.to_string()).collect()
}

#[test]
fn solo_el_programa_falta_la_consulta() {
    let args = argumentos(&["programa"]);
    assert!(matches!(Config::build(&args, false), Err(ConfigError::MissingQuery)));
}

#[test]
fn sin_argumentos_falta_la_consulta() {
    let args = Vec::<String>::new();
    assert!(matches!(Config::build(&args, false), Err(ConfigError::MissingQuery)));
}

#[test]
fn un_argumento_falta_la_ruta() {
    let args = argumentos(&["programa", "consulta"]);
    assert!(matches!(Config::build(&args, false), Err(ConfigError::MissingPath)));
}

#[test]
fn consulta_vacia_falta_la_consulta() {
    let args = argumentos(&["programa", "", "ruta.txt"]);
    assert!(matches!(Config::build(&args, false), Err(ConfigError::MissingQuery)));
}

#[test]
fn ruta_vacia_falta_la_ruta() {
    let args = argumentos(&["programa", "consulta", ""]);
    assert!(matches!(Config::build(&args, false), Err(ConfigError::MissingPath)));
}

#[test]
fn completa_y_sensible_sin_bandera() {
    let args = argumentos(&["programa", "consulta", "ruta.txt"]);
    let config = Config::build(&args, false).unwrap();
    assert_eq!("consulta", config.consulta);
    assert_eq!("ruta.txt", config.ruta);
    assert!(config.distinguir);
}

#[test]
fn bandera_presente_no_distingue() {
    let args = argumentos(&["programa", "consulta", "ruta.txt"]);
    let config = Config::build(&args, true).unwrap();
    assert!(!config.distinguir);
}

#[test]
fn argumentos_sobrantes_ignorados() {
    let args = argumentos(&["programa", "consulta", "ruta.txt", "extra"]);
    let config = Config::build(&args, false).unwrap();
    assert_eq!("consulta", config.consulta);
    assert_eq!("ruta.txt", config.ruta);
}
