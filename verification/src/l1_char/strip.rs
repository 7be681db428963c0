//! Removes whole categories of characters.
//!
//! Only when a flag asks for it are symbols or CJK compatibility characters
//! removed; the use is search indexes and comparison keys.
use vstd::prelude::*;
use crate::text::{chars_of, string_of, is_ascii_alnum, ascii_alnum};

verus! {

/// ASCII white space as `char::is_ascii_whitespace` has it: space, TAB, LF, FF, CR.
pub open spec fn is_ascii_whitespace(c: char) -> bool {
    c == ' ' || c == '\t' || c == '\n' || c == '\u{0C}' || c == '\r'
}

/// A symbol: an ASCII character that is neither a letter, a digit nor ASCII
/// white space; or, `〇` (U+3007) excepted, a character of U+2000–U+206F,
/// U+3001–U+303F, U+FF01–U+FF0F, U+FF1A–U+FF20, U+FF3B–U+FF40 or U+FF5B–U+FF65.
pub open spec fn is_symbol(c: char) -> bool {
    let u = c as u32;
    if u < 0x80 && !is_ascii_alnum(c) && !is_ascii_whitespace(c) {
        true
    } else if u == 0x3007 {
        false
    } else {
        (0x2000 <= u && u <= 0x206F) || (0x3001 <= u && u <= 0x303F) || (0xFF01 <= u && u
            <= 0xFF0F) || (0xFF1A <= u && u <= 0xFF20) || (0xFF3B <= u && u <= 0xFF40) || (0xFF5B
            <= u && u <= 0xFF65)
    }
}

/// Tests [`is_symbol`].
pub fn symbol(c: char) -> (b: bool)
    ensures
        b == is_symbol(c),
{
    let u = c as u32;
    if u < 0x80 && !ascii_alnum(c) && !(c == ' ' || c == '\t' || c == '\n' || c == '\u{0C}' || c
        == '\r') {
        true
    } else if u == 0x3007 {
        false
    } else {
        (0x2000 <= u && u <= 0x206F) || (0x3001 <= u && u <= 0x303F) || (0xFF01 <= u && u
            <= 0xFF0F) || (0xFF1A <= u && u <= 0xFF20) || (0xFF3B <= u && u <= 0xFF40) || (0xFF5B
            <= u && u <= 0xFF65)
    }
}

/// Removes symbols (punctuation and the like, see [`is_symbol`]).
pub fn remove_symbols(input: &str) -> (out: String)
    ensures
        out@ == input@.filter(|c: char| !is_symbol(c)),
{
    let chars = chars_of(input);
    let ghost s = chars@;
    let ghost keep = |c: char| !is_symbol(c);
    let mut out: Vec<char> = Vec::new();
    let mut i: usize = 0;
    while i < chars.len()
        invariant
            i <= chars.len(),
            s == chars@,
            keep == (|c: char| !is_symbol(c)),
            out@ == s.take(i as int).filter(keep),
        decreases chars.len() - i,
    {
        let c = chars[i];
        proof {
            assert(s.take(i + 1) =~= s.take(i as int).push(c));
            s.take(i as int).lemma_filter_push(c, keep);
        }
        if !symbol(c) {
            out.push(c);
        }
        i = i + 1;
    }
    proof {
        assert(s.take(i as int) =~= s);
    }
    string_of(&out)
}

/// Enclosed alphanumerics (U+2460–U+24FF), enclosed CJK letters (U+3200–U+32FF),
/// CJK compatibility (U+3300–U+33FF) and CJK compatibility ideographs (U+F900–U+FAFF).
pub open spec fn is_cjk_compat(c: char) -> bool {
    let u = c as u32;
    (0x2460 <= u && u <= 0x24FF) || (0x3200 <= u && u <= 0x32FF) || (0x3300 <= u && u <= 0x33FF)
        || (0xF900 <= u && u <= 0xFAFF)
}

/// Removes CJK compatibility characters (see [`is_cjk_compat`]) instead of expanding them.
pub fn remove_cjk_compat(input: &str) -> (out: String)
    ensures
        out@ == input@.filter(|c: char| !is_cjk_compat(c)),
{
    let chars = chars_of(input);
    let ghost s = chars@;
    let ghost keep = |c: char| !is_cjk_compat(c);
    let mut out: Vec<char> = Vec::new();
    let mut i: usize = 0;
    while i < chars.len()
        invariant
            i <= chars.len(),
            s == chars@,
            keep == (|c: char| !is_cjk_compat(c)),
            out@ == s.take(i as int).filter(keep),
        decreases chars.len() - i,
    {
        let c = chars[i];
        let u = c as u32;
        proof {
            assert(s.take(i + 1) =~= s.take(i as int).push(c));
            s.take(i as int).lemma_filter_push(c, keep);
        }
        if !((0x2460 <= u && u <= 0x24FF) || (0x3200 <= u && u <= 0x32FF) || (0x3300 <= u && u
            <= 0x33FF) || (0xF900 <= u && u <= 0xFAFF)) {
            out.push(c);
        }
        i = i + 1;
    }
    proof {
        assert(s.take(i as int) =~= s);
    }
    string_of(&out)
}

} // verus!
