//! Unifies quotation marks.
//!
//! Curly quotes become straight ASCII quotes; Japanese brackets (`「」『』`) are kept.
use vstd::prelude::*;
use crate::text::{chars_of, string_of};

verus! {

/// The straight quote that `c` becomes (`c` itself when it is no curly quote).
pub open spec fn quote_char(c: char) -> char {
    if c == '\u{201C}' || c == '\u{201D}' || c == '\u{201E}' || c == '\u{201F}' || c
        == '\u{FF02}' {
        '"'
    } else if c == '\u{2018}' || c == '\u{2019}' || c == '\u{201A}' || c == '\u{201B}' || c
        == '\u{FF07}' {
        '\''
    } else {
        c
    }
}

fn map_quote(c: char) -> (r: char)
    ensures
        r == quote_char(c),
{
    if c == '\u{201C}' || c == '\u{201D}' || c == '\u{201E}' || c == '\u{201F}' || c
        == '\u{FF02}' {
        '"'
    } else if c == '\u{2018}' || c == '\u{2019}' || c == '\u{201A}' || c == '\u{201B}' || c
        == '\u{FF07}' {
        '\''
    } else {
        c
    }
}

/// Replaces curly / full-width quotes by ASCII `"` and `'`, character by character.
pub fn unify(input: &str) -> (out: String)
    ensures
        out@ == input@.map_values(|c: char| quote_char(c)),
{
    let chars = chars_of(input);
    let ghost s = chars@;
    let mut out: Vec<char> = Vec::new();
    let mut i: usize = 0;
    while i < chars.len()
        invariant
            i <= chars.len(),
            s == chars@,
            out@ == s.take(i as int).map_values(|c: char| quote_char(c)),
        decreases chars.len() - i,
    {
        out.push(map_quote(chars[i]));
        i = i + 1;
        proof {
            assert(out@ =~= s.take(i as int).map_values(|c: char| quote_char(c)));
        }
    }
    proof {
        assert(s.take(i as int) =~= s);
    }
    string_of(&out)
}

} // verus!
