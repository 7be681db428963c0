//! Folds runs of the prolonged sound mark `ー` into one.
//!
//! Part of the neologdn-like behaviour, separate from the general repeat
//! shortening (`repeat::shorten`). Targets `ー` (U+30FC) and, for
//! compatibility, `〜` (U+301C).
use vstd::prelude::*;
use crate::text::{chars_of, string_of};

verus! {

/// `ー` or `〜`.
pub open spec fn is_prolonged_mark(c: char) -> bool {
    c == 'ー' || c == '〜'
}

/// Folding read from the front, `prev` being the last character kept so far:
/// a mark equal to `prev` is dropped, every other character is kept.
pub open spec fn collapse_from(prev: Option<char>, s: Seq<char>) -> Seq<char>
    decreases s.len(),
{
    if s.len() == 0 {
        seq![]
    } else if is_prolonged_mark(s[0]) && prev == Some(s[0]) {
        collapse_from(prev, s.skip(1))
    } else {
        seq![s[0]] + collapse_from(Some(s[0]), s.skip(1))
    }
}

/// The folding of the whole of `s`.
pub open spec fn collapse_spec(s: Seq<char>) -> Seq<char> {
    collapse_from(None, s)
}

/// Folds each run of `ー` (or of `〜`) into a single character.
pub fn collapse(input: &str) -> (out: String)
    ensures
        out@ == collapse_spec(input@),
{
    let chars = chars_of(input);
    let ghost s = chars@;
    let mut out: Vec<char> = Vec::new();
    let mut prev: Option<char> = None;
    let mut i: usize = 0;
    proof {
        assert(s.skip(0) =~= s);
    }
    while i < chars.len()
        invariant
            i <= chars.len(),
            s == chars@,
            out@ + collapse_from(prev, s.skip(i as int)) == collapse_spec(s),
        decreases chars.len() - i,
    {
        let c = chars[i];
        proof {
            assert(s.skip(i as int).skip(1) =~= s.skip(i + 1));
        }
        let is_target = c == 'ー' || c == '〜';
        if is_target && prev == Some(c) {
        } else {
            out.push(c);
            prev = Some(c);
        }
        i = i + 1;
    }
    proof {
        assert(s.skip(i as int) =~= Seq::<char>::empty());
        assert(out@ + Seq::<char>::empty() =~= out@);
    }
    string_of(&out)
}

/// Not `ー` nor `〜`.
pub open spec fn is_not_prolonged_mark(c: char) -> bool {
    !is_prolonged_mark(c)
}

/// Folding touches only `ー` and `〜`: every other character comes through,
/// in order (`wwwww`, `あああ` stay as they are).
pub proof fn lemma_collapse_keeps_others(prev: Option<char>, s: Seq<char>)
    ensures
        collapse_from(prev, s).filter(|c: char| is_not_prolonged_mark(c)) == s.filter(
            |c: char| is_not_prolonged_mark(c),
        ),
    decreases s.len(),
{
    let p = |c: char| is_not_prolonged_mark(c);
    if s.len() > 0 {
        let rest = s.skip(1);
        assert(s =~= seq![s[0]] + rest);
        rest.lemma_filter_prepend(s[0], p);
        if is_prolonged_mark(s[0]) && prev == Some(s[0]) {
            lemma_collapse_keeps_others(prev, rest);
        } else {
            lemma_collapse_keeps_others(Some(s[0]), rest);
            collapse_from(Some(s[0]), rest).lemma_filter_prepend(s[0], p);
        }
    }
}

} // verus!
