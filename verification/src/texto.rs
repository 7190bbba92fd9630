//! Text primitives of the search: splitting a text into lines on the `'\n'`
//! separator, substring containment, and lowercasing.

use vstd::prelude::*;

verus! {

/// The raw split of `s` on `'\n'`: one segment more than there are
/// separators, so a trailing separator leaves a final empty segment.
pub open spec fn crudas(s: Seq<char>) -> Seq<Seq<char>>
    decreases s.len(),
{
    if s.len() == 0 {
        seq![Seq::<char>::empty()]
    } else if s.last() == '\n' {
        crudas(s.drop_last()).push(Seq::<char>::empty())
    } else {
        let r = crudas(s.drop_last());
        r.update(r.len() - 1, r.last().push(s.last()))
    }
}

/// The lines of `s`: the raw split, except that the empty segment produced by
/// a terminal separator is not a line. The empty text has no lines.
pub open spec fn lineas(s: Seq<char>) -> Seq<Seq<char>> {
    let r = crudas(s);
    if r.last().len() == 0 {
        r.drop_last()
    } else {
        r
    }
}

/// `aguja` occurs in `pajar` as a contiguous run starting at position `i`.
pub open spec fn coincide_en(pajar: Seq<char>, aguja: Seq<char>, i: int) -> bool {
    &&& 0 <= i
    &&& i + aguja.len() <= pajar.len()
    &&& forall|j: int| 0 <= j < aguja.len() ==> pajar[i + j] == aguja[j]
}

/// `aguja` occurs somewhere in `pajar` as a contiguous substring. The empty
/// needle occurs in every haystack.
pub open spec fn contiene_sub(pajar: Seq<char>, aguja: Seq<char>) -> bool {
    exists|i: int| coincide_en(pajar, aguja, i)
}

/// The character views of a sequence of owned strings.
pub open spec fn vistas(ls: Seq<String>) -> Seq<Seq<char>> {
    ls.map_values(|l: String| l@)
}

/// Splits `contenido` into its lines, in order.
pub fn partir_lineas(contenido: &str) -> (r: Vec<String>)
    ensures
        vistas(r@) == lineas(contenido@),
{
    let n = contenido.unicode_len();
    let mut res: Vec<String> = Vec::new();
    let mut inicio: usize = 0;
    let mut i: usize = 0;
    proof {
        assert(contenido@.take(0) =~= Seq::<char>::empty());
        assert(contenido@.subrange(0, 0) =~= Seq::<char>::empty());
        assert(vistas(res@) =~= Seq::<Seq<char>>::empty());
    }
    while i < n
        invariant
            inicio <= i <= n,
            n == contenido@.len(),
            crudas(contenido@.take(i as int)) == vistas(res@).push(
                contenido@.subrange(inicio as int, i as int),
            ),
        decreases n - i,
    {
        let ghost antes = contenido@.take(i as int);
        let ghost actual = contenido@.subrange(inicio as int, i as int);
        let c = contenido.get_char(i);
        proof {
            assert(contenido@.take(i + 1).drop_last() =~= antes);
            assert(contenido@.take(i + 1).last() == c);
        }
        if c == '\n' {
            let linea = contenido.substring_char(inicio, i).to_owned();
            proof {
                assert(vistas(res@.push(linea)) =~= vistas(res@).push(actual));
                assert(crudas(contenido@.take(i + 1)) == crudas(antes).push(
                    Seq::<char>::empty(),
                ));
                assert(contenido@.subrange(i + 1, i + 1) =~= Seq::<char>::empty());
            }
            res.push(linea);
            inicio = i + 1;
        } else {
            proof {
                let r = crudas(antes);
                assert(r.len() == vistas(res@).len() + 1);
                assert(crudas(contenido@.take(i + 1)) == r.update(
                    r.len() - 1,
                    r.last().push(c),
                ));
                assert(actual.push(c) =~= contenido@.subrange(inicio as int, i + 1));
                assert(r.update(r.len() - 1, r.last().push(c)) =~= vistas(res@).push(
                    contenido@.subrange(inicio as int, i + 1),
                ));
            }
        }
        i = i + 1;
    }
    proof {
        assert(contenido@.take(n as int) =~= contenido@);
    }
    if inicio < n {
        let linea = contenido.substring_char(inicio, n).to_owned();
        proof {
            let r = crudas(contenido@);
            assert(r.last() == contenido@.subrange(inicio as int, n as int));
            assert(r.last().len() > 0);
            assert(vistas(res@.push(linea)) =~= vistas(res@).push(linea@));
            assert(lineas(contenido@) == vistas(res@).push(linea@));
        }
        res.push(linea);
    } else {
        proof {
            let r = crudas(contenido@);
            assert(contenido@.subrange(inicio as int, n as int) =~= Seq::<char>::empty());
            assert(r.last().len() == 0);
            assert(r.drop_last() =~= vistas(res@));
        }
    }
    res
}

/// Decides whether `aguja` occurs in `pajar` starting exactly at `i`.
fn coincide_en_pos(pajar: &str, aguja: &str, i: usize) -> (b: bool)
    requires
        i + aguja@.len() <= pajar@.len(),
    ensures
        b == coincide_en(pajar@, aguja@, i as int),
{
    let hl = pajar.unicode_len();
    let nl = aguja.unicode_len();
    let mut j: usize = 0;
    while j < nl
        invariant
            j <= nl,
            nl == aguja@.len(),
            hl == pajar@.len(),
            i + nl <= hl,
            forall|t: int| 0 <= t < j ==> pajar@[i + t] == aguja@[t],
        decreases nl - j,
    {
        if pajar.get_char(i + j) != aguja.get_char(j) {
            proof {
                assert(pajar@[i + j as int] != aguja@[j as int]);
            }
            return false;
        }
        j = j + 1;
    }
    true
}

/// Decides whether `aguja` occurs in `pajar` as a contiguous substring.
pub fn contiene(pajar: &str, aguja: &str) -> (b: bool)
    ensures
        b == contiene_sub(pajar@, aguja@),
{
    let hl = pajar.unicode_len();
    let nl = aguja.unicode_len();
    if nl > hl {
        proof {
            assert(forall|i: int| !coincide_en(pajar@, aguja@, i));
        }
        return false;
    }
    let mut i: usize = 0;
    while i <= hl - nl
        invariant
            i <= hl - nl + 1,
            nl <= hl,
            nl == aguja@.len(),
            hl == pajar@.len(),
            forall|k: int| 0 <= k < i ==> !coincide_en(pajar@, aguja@, k),
        decreases hl + 1 - nl - i,
    {
        if coincide_en_pos(pajar, aguja, i) {
            return true;
        }
        i = i + 1;
    }
    proof {
        assert(forall|k: int| k > hl - nl ==> !coincide_en(pajar@, aguja@, k));
    }
    false
}

/// What `str::to_lowercase` returns for a text: a function of its characters
/// alone.
pub uninterp spec fn minusculas_de(s: Seq<char>) -> Seq<char>;

/// Relies on `str::to_lowercase`: the result depends on the characters of `s`
/// alone, and the empty text stays empty.
#[verifier::external_body]
pub(crate) fn a_minusculas(s: &str) -> (r: String)
    ensures
        r@ == minusculas_de(s@),
        s@.len() == 0 ==> r@.len() == 0,
{
    s.to_lowercase()
}

} // verus!
