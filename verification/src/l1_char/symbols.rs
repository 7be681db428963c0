//! Unifies hyphens, tildes and prolonged sound marks.
use vstd::prelude::*;
use crate::text::{chars_of, string_of};

verus! {

/// Hyphens, dashes and minus signs that become `-`.
pub open spec fn is_hyphen_like(c: char) -> bool {
    c == '\u{2010}' || c == '\u{2011}' || c == '\u{2012}' || c == '\u{2013}' || c == '\u{2014}'
        || c == '\u{2015}' || c == '\u{2212}' || c == '\u{FF0D}' || c == '\u{FE63}' || c
        == '\u{FE58}' || c == '\u{00AD}' || c == '\u{058A}'
}

/// Tildes and wave dashes (ASCII `~` among them) that become `〜`.
pub open spec fn is_tilde_like(c: char) -> bool {
    c == '\u{007E}' || c == '\u{FF5E}' || c == '\u{301C}' || c == '\u{223C}' || c == '\u{223D}'
        || c == '\u{223E}' || c == '\u{2053}' || c == '\u{02DC}'
}

/// Box-drawing lines and the half-width mark that become `ー`.
pub open spec fn is_prolonged_like(c: char) -> bool {
    c == '\u{2500}' || c == '\u{2501}' || c == '\u{FF70}'
}

/// What `c` becomes under the enabled unifications.
pub open spec fn symbol_char(c: char, hyphens: bool, tildes: bool, prolonged: bool) -> char {
    if hyphens && is_hyphen_like(c) {
        '-'
    } else if tildes && is_tilde_like(c) {
        '〜'
    } else if prolonged && is_prolonged_like(c) {
        'ー'
    } else {
        c
    }
}

fn map_symbol(c: char, hyphens: bool, tildes: bool, prolonged: bool) -> (r: char)
    ensures
        r == symbol_char(c, hyphens, tildes, prolonged),
{
    if hyphens && (c == '\u{2010}' || c == '\u{2011}' || c == '\u{2012}' || c == '\u{2013}' || c
        == '\u{2014}' || c == '\u{2015}' || c == '\u{2212}' || c == '\u{FF0D}' || c
        == '\u{FE63}' || c == '\u{FE58}' || c == '\u{00AD}' || c == '\u{058A}') {
        '-'
    } else if tildes && (c == '\u{007E}' || c == '\u{FF5E}' || c == '\u{301C}' || c
        == '\u{223C}' || c == '\u{223D}' || c == '\u{223E}' || c == '\u{2053}' || c
        == '\u{02DC}') {
        '〜'
    } else if prolonged && (c == '\u{2500}' || c == '\u{2501}' || c == '\u{FF70}') {
        'ー'
    } else {
        c
    }
}

/// Unifies symbol variants, character by character:
/// with `hyphens` hyphens / dashes / minus become `-`, with `tildes` tildes and
/// wave dashes become `〜`, with `prolonged` prolonged-mark variants become `ー`.
pub fn unify(input: &str, hyphens: bool, tildes: bool, prolonged: bool) -> (out: String)
    ensures
        out@ == input@.map_values(|c: char| symbol_char(c, hyphens, tildes, prolonged)),
{
    let chars = chars_of(input);
    let ghost s = chars@;
    let mut out: Vec<char> = Vec::new();
    let mut i: usize = 0;
    while i < chars.len()
        invariant
            i <= chars.len(),
            s == chars@,
            out@ == s.take(i as int).map_values(
                |c: char| symbol_char(c, hyphens, tildes, prolonged),
            ),
        decreases chars.len() - i,
    {
        out.push(map_symbol(chars[i], hyphens, tildes, prolonged));
        i = i + 1;
        proof {
            assert(out@ =~= s.take(i as int).map_values(
                |c: char| symbol_char(c, hyphens, tildes, prolonged),
            ));
        }
    }
    proof {
        assert(s.take(i as int) =~= s);
    }
    string_of(&out)
}

} // verus!
