//! The line filter: given a query and the full text, the ordered subsequence
//! of lines that contain the query, with a case-sensitive and a
//! case-insensitive variant.

use vstd::prelude::*;
use crate::texto::coincide_en;
use crate::texto::contiene;
use crate::texto::contiene_sub;
use crate::texto::a_minusculas;
use crate::texto::lineas;
use crate::texto::minusculas_de;
use crate::texto::partir_lineas;
use crate::texto::vistas;

verus! {

/// The case-sensitive match predicate for a fixed query: the line contains
/// the query exactly as written.
pub open spec fn filtro_sensible(consulta: Seq<char>) -> spec_fn(Seq<char>) -> bool {
    |l: Seq<char>| contiene_sub(l, consulta)
}

/// The case-insensitive match predicate for a fixed query: the lowercased
/// line contains the lowercased query.
pub open spec fn filtro_insensible(consulta: Seq<char>) -> spec_fn(Seq<char>) -> bool {
    |l: Seq<char>| contiene_sub(minusculas_de(l), minusculas_de(consulta))
}

/// The lines of `contenido` that contain `consulta` exactly, in their
/// original order.
pub open spec fn coincidencias(consulta: Seq<char>, contenido: Seq<char>) -> Seq<Seq<char>> {
    lineas(contenido).filter(filtro_sensible(consulta))
}

/// The lines of `contenido` that contain `consulta` up to case, in their
/// original order.
pub open spec fn coincidencias_insensibles(consulta: Seq<char>, contenido: Seq<char>) -> Seq<
    Seq<char>,
> {
    lineas(contenido).filter(filtro_insensible(consulta))
}

/// The case-sensitive search: returns exactly the lines of `contenido` that
/// contain `consulta` as a contiguous substring, in their original order.
/// The empty query matches every line.
pub fn busqueda(consulta: &str, contenido: &str) -> (r: Vec<String>)
    ensures
        vistas(r@) == coincidencias(consulta@, contenido@),
        consulta@.len() == 0 ==> vistas(r@) == lineas(contenido@),
{
    let ghost p = filtro_sensible(consulta@);
    let ls = partir_lineas(contenido);
    let mut res: Vec<String> = Vec::new();
    let mut i: usize = 0;
    proof {
        assert(vistas(ls@).take(0) =~= Seq::<Seq<char>>::empty());
        assert(vistas(res@) =~= Seq::<Seq<char>>::empty());
        reveal(Seq::filter);
    }
    while i < ls.len()
        invariant
            i <= ls@.len(),
            p == filtro_sensible(consulta@),
            vistas(res@) == vistas(ls@).take(i as int).filter(p),
        decreases ls@.len() - i,
    {
        let ghost antes = vistas(ls@).take(i as int);
        proof {
            reveal(Seq::filter);
            assert(vistas(ls@).take(i + 1).drop_last() =~= antes);
            assert(vistas(ls@).take(i + 1).last() == ls@[i as int]@);
        }
        if contiene(ls[i].as_str(), consulta) {
            let linea = ls[i].clone();
            proof {
                assert(vistas(res@.push(linea)) =~= vistas(res@).push(linea@));
            }
            res.push(linea);
        }
        i = i + 1;
    }
    proof {
        assert(vistas(ls@).take(ls@.len() as int) =~= vistas(ls@));
        if consulta@.len() == 0 {
            lema_consulta_vacia_sensible(consulta@, contenido@);
        }
    }
    res
}

/// The case-insensitive search: returns exactly the lines of `contenido`
/// whose lowercase form contains the lowercase form of `consulta`, in their
/// original order, each line emitted in its original spelling. The empty
/// query matches every line.
pub fn buscar_distinguido(consulta: &str, contenido: &str) -> (r: Vec<String>)
    ensures
        vistas(r@) == coincidencias_insensibles(consulta@, contenido@),
        consulta@.len() == 0 ==> vistas(r@) == lineas(contenido@),
{
    let ghost p = filtro_insensible(consulta@);
    let consulta_min = a_minusculas(consulta);
    let ls = partir_lineas(contenido);
    let mut res: Vec<String> = Vec::new();
    let mut i: usize = 0;
    proof {
        assert(vistas(ls@).take(0) =~= Seq::<Seq<char>>::empty());
        assert(vistas(res@) =~= Seq::<Seq<char>>::empty());
        reveal(Seq::filter);
    }
    while i < ls.len()
        invariant
            i <= ls@.len(),
            p == filtro_insensible(consulta@),
            consulta_min@ == minusculas_de(consulta@),
            vistas(res@) == vistas(ls@).take(i as int).filter(p),
        decreases ls@.len() - i,
    {
        let ghost antes = vistas(ls@).take(i as int);
        proof {
            reveal(Seq::filter);
            assert(vistas(ls@).take(i + 1).drop_last() =~= antes);
            assert(vistas(ls@).take(i + 1).last() == ls@[i as int]@);
        }
        let linea_min = a_minusculas(ls[i].as_str());
        if contiene(linea_min.as_str(), consulta_min.as_str()) {
            let linea = ls[i].clone();
            proof {
                assert(vistas(res@.push(linea)) =~= vistas(res@).push(linea@));
            }
            res.push(linea);
        }
        i = i + 1;
    }
    proof {
        assert(vistas(ls@).take(ls@.len() as int) =~= vistas(ls@));
        if consulta@.len() == 0 {
            assert(minusculas_de(consulta@) =~= Seq::<char>::empty());
            assert forall|k: int| 0 <= k < lineas(contenido@).len() implies p(
                #[trigger] lineas(contenido@)[k],
            ) by {
                assert(coincide_en(
                    minusculas_de(lineas(contenido@)[k]),
                    minusculas_de(consulta@),
                    0,
                ));
            }
            lema_todo_coincide(lineas(contenido@), p);
        }
    }
    res
}

/// The match predicate of the mode `distinguir` selects.
pub open spec fn filtro_del_modo(consulta: Seq<char>, distinguir: bool) -> spec_fn(
    Seq<char>,
) -> bool {
    if distinguir {
        filtro_sensible(consulta)
    } else {
        filtro_insensible(consulta)
    }
}

/// The search that the configuration selects: case-sensitive when
/// `distinguir` is true, case-insensitive otherwise.
pub open spec fn resultado_filtrado(
    consulta: Seq<char>,
    contenido: Seq<char>,
    distinguir: bool,
) -> Seq<Seq<char>> {
    if distinguir {
        coincidencias(consulta, contenido)
    } else {
        coincidencias_insensibles(consulta, contenido)
    }
}

/// Runs the search in the mode `distinguir` selects.
pub fn filtrar(consulta: &str, contenido: &str, distinguir: bool) -> (r: Vec<String>)
    ensures
        vistas(r@) == resultado_filtrado(consulta@, contenido@, distinguir),
{
    if distinguir {
        busqueda(consulta, contenido)
    } else {
        buscar_distinguido(consulta, contenido)
    }
}

/// Every element kept by a filter comes from the sequence and satisfies the
/// predicate.
proof fn lema_filtrado_contenido(ls: Seq<Seq<char>>, p: spec_fn(Seq<char>) -> bool)
    ensures
        forall|x: Seq<char>| #[trigger] ls.filter(p).contains(x) ==> ls.contains(x) && p(x),
    decreases ls.len(),
{
    reveal(Seq::filter);
    if ls.len() > 0 {
        lema_filtrado_contenido(ls.drop_last(), p);
        assert forall|x: Seq<char>| #[trigger] ls.filter(p).contains(x) implies ls.contains(x)
            && p(x) by {
            if ls.drop_last().filter(p).contains(x) {
                assert(ls.drop_last().contains(x));
                let i = choose|i: int|
                    0 <= i < ls.drop_last().len() && ls.drop_last()[i] == x;
                assert(ls[i] == x);
            } else {
                assert(x == ls.last());
                assert(ls[ls.len() - 1] == x);
            }
        }
    }
}

/// A filter whose predicate holds of every element keeps the sequence as it
/// is.
proof fn lema_todo_coincide(ls: Seq<Seq<char>>, p: spec_fn(Seq<char>) -> bool)
    requires
        forall|i: int| 0 <= i < ls.len() ==> p(#[trigger] ls[i]),
    ensures
        ls.filter(p) == ls,
    decreases ls.len(),
{
    reveal(Seq::filter);
    if ls.len() == 0 {
        assert(ls.filter(p) =~= ls);
    } else {
        lema_todo_coincide(ls.drop_last(), p);
        assert(p(ls.last()));
        assert(ls.filter(p) =~= ls);
    }
}

/// The case-sensitive search is exact: a line is returned when and only when
/// it is a line of the text that contains the query as written. (That the
/// returned lines keep their original order is part of the definition of
/// `Seq::filter`, which `coincidencias` applies to the lines.)
pub proof fn lema_coincidencias_exactas(consulta: Seq<char>, contenido: Seq<char>)
    ensures
        forall|x: Seq<char>| #[trigger] coincidencias(consulta, contenido).contains(x)
            ==> lineas(contenido).contains(x) && contiene_sub(x, consulta),
        forall|i: int|
            0 <= i < lineas(contenido).len() && contiene_sub(
                #[trigger] lineas(contenido)[i],
                consulta,
            ) ==> coincidencias(consulta, contenido).contains(lineas(contenido)[i]),
{
    let ls = lineas(contenido);
    lema_filtrado_contenido(ls, filtro_sensible(consulta));
    assert forall|i: int|
        0 <= i < ls.len() && contiene_sub(#[trigger] ls[i], consulta) implies coincidencias(
        consulta,
        contenido,
    ).contains(ls[i]) by {
        assert(filtro_sensible(consulta)(ls[i]));
        ls.lemma_filter_contains(filtro_sensible(consulta), i);
    }
}

/// The empty query matches every line: a case-sensitive search for it
/// returns the whole text, line by line.
pub proof fn lema_consulta_vacia_sensible(consulta: Seq<char>, contenido: Seq<char>)
    requires
        consulta.len() == 0,
    ensures
        coincidencias(consulta, contenido) == lineas(contenido),
{
    assert forall|i: int| 0 <= i < lineas(contenido).len() implies filtro_sensible(consulta)(
        #[trigger] lineas(contenido)[i],
    ) by {
        assert(coincide_en(lineas(contenido)[i], consulta, 0));
    }
    lema_todo_coincide(lineas(contenido), filtro_sensible(consulta));
}

/// Filtering is idempotent: running either search's filter again over its own
/// result, with the same query and mode, changes nothing.
pub proof fn lema_filtrado_idempotente(
    consulta: Seq<char>,
    contenido: Seq<char>,
    distinguir: bool,
)
    ensures
        resultado_filtrado(consulta, contenido, distinguir).filter(
            filtro_del_modo(consulta, distinguir),
        ) == resultado_filtrado(consulta, contenido, distinguir),
{
    let p = filtro_del_modo(consulta, distinguir);
    let ls = lineas(contenido);
    let r = resultado_filtrado(consulta, contenido, distinguir);
    assert(r == ls.filter(p));
    assert forall|i: int| 0 <= i < r.len() implies p(#[trigger] r[i]) by {
        ls.lemma_filter_pred(p, i);
    }
    lema_todo_coincide(r, p);
}

/// The case-insensitive search subsumes the case-sensitive one line by line,
/// whenever lowercasing each matching line preserves the occurrence of the
/// lowercased query in it. (Context-sensitive lowercase mappings can break
/// that premise, so it is stated as a hypothesis.)
pub proof fn lema_insensible_superconjunto(consulta: Seq<char>, contenido: Seq<char>)
    requires
        forall|l: Seq<char>|
            lineas(contenido).contains(l) && contiene_sub(l, consulta) ==> contiene_sub(
                minusculas_de(l),
                minusculas_de(consulta),
            ),
    ensures
        forall|l: Seq<char>|
            coincidencias(consulta, contenido).contains(l)
                ==> #[trigger] coincidencias_insensibles(consulta, contenido).contains(l),
{
    let ls = lineas(contenido);
    lema_filtrado_contenido(ls, filtro_sensible(consulta));
    assert forall|l: Seq<char>| coincidencias(consulta, contenido).contains(l)
        implies #[trigger] coincidencias_insensibles(consulta, contenido).contains(l) by {
        assert(ls.contains(l) && filtro_sensible(consulta)(l));
        assert(contiene_sub(minusculas_de(l), minusculas_de(consulta)));
        let i = choose|i: int| 0 <= i < ls.len() && ls[i] == l;
        assert(filtro_insensible(consulta)(ls[i]));
        ls.lemma_filter_contains(filtro_insensible(consulta), i);
    }
}

} // verus!
