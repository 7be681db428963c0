//! Shortens excessive runs of one character.
use vstd::prelude::*;
use crate::text::{chars_of, string_of, ascii_alnum, is_ascii_alnum};

verus! {

/// Shortening read from the front. `last` is the character of the current run
/// and `run` how many of it have been read so far; ASCII letters and digits
/// pass unchanged and end the run.
pub open spec fn shorten_from(s: Seq<char>, limit: nat, last: Option<char>, run: nat) -> Seq<
    char,
>
    decreases s.len(),
{
    if s.len() == 0 {
        seq![]
    } else if is_ascii_alnum(s[0]) {
        seq![s[0]] + shorten_from(s.skip(1), limit, None, 0)
    } else if last == Some(s[0]) {
        if run + 1 <= limit {
            seq![s[0]] + shorten_from(s.skip(1), limit, last, run + 1)
        } else {
            shorten_from(s.skip(1), limit, last, run + 1)
        }
    } else {
        seq![s[0]] + shorten_from(s.skip(1), limit, Some(s[0]), 1)
    }
}

/// `limit` with 0 read as 1.
pub open spec fn effective_limit(limit: nat) -> nat {
    if limit == 0 { 1 } else { limit }
}

/// The shortening of the whole of `s` to at most `limit` repeats.
pub open spec fn shorten_spec(s: Seq<char>, limit: nat) -> Seq<char> {
    shorten_from(s, effective_limit(limit), None, 0)
}

/// Where one character repeats more than `limit` times in a row, keeps `limit`
/// of them (`limit == 0` counts as 1). ASCII letters and digits are never
/// shortened (`hello`, `1200` stay as they are).
pub fn shorten(input: &str, limit: usize) -> (out: String)
    ensures
        out@ == shorten_spec(input@, limit as nat),
{
    let ghost lim0 = limit;
    let limit = if limit == 0 { 1 } else { limit };
    let chars = chars_of(input);
    let ghost s = chars@;
    let mut out: Vec<char> = Vec::new();
    let mut last: Option<char> = None;
    let mut run: usize = 0;
    let mut i: usize = 0;
    proof {
        assert(s.skip(0) =~= s);
    }
    while i < chars.len()
        invariant
            i <= chars.len(),
            s == chars@,
            run <= i,
            limit >= 1,
            limit as nat == effective_limit(lim0 as nat),
            out@ + shorten_from(s.skip(i as int), limit as nat, last, run as nat)
                == shorten_from(s, limit as nat, None, 0),
        decreases chars.len() - i,
    {
        let c = chars[i];
        proof {
            assert(s.skip(i as int).skip(1) =~= s.skip(i + 1));
        }
        if ascii_alnum(c) {
            last = None;
            run = 0;
            out.push(c);
        } else if last == Some(c) {
            run = run + 1;
            if run <= limit {
                out.push(c);
            }
        } else {
            last = Some(c);
            run = 1;
            out.push(c);
        }
        i = i + 1;
    }
    proof {
        assert(s.skip(i as int) =~= Seq::<char>::empty());
        assert(out@ + Seq::<char>::empty() =~= out@);
    }
    string_of(&out)
}

/// Shortening never drops an ASCII letter or digit: they come through, in
/// order (`hello`, `1200`, `wwwww` stay as they are).
pub proof fn lemma_shorten_keeps_ascii_alnum(s: Seq<char>, limit: nat, last: Option<char>, run: nat)
    ensures
        shorten_from(s, limit, last, run).filter(|c: char| is_ascii_alnum(c)) == s.filter(
            |c: char| is_ascii_alnum(c),
        ),
    decreases s.len(),
{
    let p = |c: char| is_ascii_alnum(c);
    if s.len() > 0 {
        let rest = s.skip(1);
        assert(s =~= seq![s[0]] + rest);
        rest.lemma_filter_prepend(s[0], p);
        if is_ascii_alnum(s[0]) {
            lemma_shorten_keeps_ascii_alnum(rest, limit, None, 0);
            shorten_from(rest, limit, None, 0).lemma_filter_prepend(s[0], p);
        } else if last == Some(s[0]) {
            lemma_shorten_keeps_ascii_alnum(rest, limit, last, run + 1);
            if run + 1 <= limit {
                shorten_from(rest, limit, last, run + 1).lemma_filter_prepend(s[0], p);
            }
        } else {
            lemma_shorten_keeps_ascii_alnum(rest, limit, Some(s[0]), 1);
            shorten_from(rest, limit, Some(s[0]), 1).lemma_filter_prepend(s[0], p);
        }
    }
}

} // verus!
