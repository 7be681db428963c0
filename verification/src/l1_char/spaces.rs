//! Folds runs of white space.
//!
//! Spaces the writer put in on purpose are kept: each run of half-width
//! spaces, tabs and ideographic spaces (`　`) becomes one half-width space,
//! whatever the neighbouring characters. Line breaks are not white space here.
//! Leading and trailing space is left to the caller's `trim` flag.
use vstd::prelude::*;
use crate::text::{chars_of, string_of};

verus! {

/// `' '`, `'\t'` or `'\u{3000}'`.
pub open spec fn is_space(c: char) -> bool {
    c == ' ' || c == '\t' || c == '\u{3000}'
}

/// Folding read from the front; `prev_space` tells whether the last
/// character read was a space.
pub open spec fn collapse_from(prev_space: bool, s: Seq<char>) -> Seq<char>
    decreases s.len(),
{
    if s.len() == 0 {
        seq![]
    } else if is_space(s[0]) {
        if prev_space {
            collapse_from(true, s.skip(1))
        } else {
            seq![' '] + collapse_from(true, s.skip(1))
        }
    } else {
        seq![s[0]] + collapse_from(false, s.skip(1))
    }
}

/// The folding of the whole of `s`.
pub open spec fn collapse_spec(s: Seq<char>) -> Seq<char> {
    collapse_from(false, s)
}

/// Replaces each run of spaces (see [`is_space`]) by one `' '`.
pub fn collapse(input: &str) -> (out: String)
    ensures
        out@ == collapse_spec(input@),
{
    let chars = chars_of(input);
    let ghost s = chars@;
    let mut out: Vec<char> = Vec::new();
    let mut prev_space = false;
    let mut i: usize = 0;
    proof {
        assert(s.skip(0) =~= s);
    }
    while i < chars.len()
        invariant
            i <= chars.len(),
            s == chars@,
            out@ + collapse_from(prev_space, s.skip(i as int)) == collapse_spec(s),
        decreases chars.len() - i,
    {
        let c = chars[i];
        proof {
            assert(s.skip(i as int).skip(1) =~= s.skip(i + 1));
        }
        if c == ' ' || c == '\t' || c == '\u{3000}' {
            if !prev_space {
                out.push(' ');
                prev_space = true;
            }
        } else {
            out.push(c);
            prev_space = false;
        }
        i = i + 1;
    }
    proof {
        assert(s.skip(i as int) =~= Seq::<char>::empty());
        assert(out@ + Seq::<char>::empty() =~= out@);
    }
    string_of(&out)
}

/// Not a space (see [`is_space`]).
pub open spec fn is_not_space(c: char) -> bool {
    !is_space(c)
}

/// Folding keeps every character that is not a space, in order: line
/// breaks and all other text come through unchanged.
pub proof fn lemma_collapse_keeps_non_spaces(prev_space: bool, s: Seq<char>)
    ensures
        collapse_from(prev_space, s).filter(|c: char| is_not_space(c)) == s.filter(
            |c: char| is_not_space(c),
        ),
    decreases s.len(),
{
    let p = |c: char| is_not_space(c);
    if s.len() > 0 {
        let rest = s.skip(1);
        assert(s =~= seq![s[0]] + rest);
        rest.lemma_filter_prepend(s[0], p);
        if is_space(s[0]) {
            lemma_collapse_keeps_non_spaces(true, rest);
            if !prev_space {
                collapse_from(true, rest).lemma_filter_prepend(' ', p);
            }
        } else {
            lemma_collapse_keeps_non_spaces(false, rest);
            collapse_from(false, rest).lemma_filter_prepend(s[0], p);
        }
    }
}

} // verus!
