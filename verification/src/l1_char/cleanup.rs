//! Cleanup of invisible characters, control characters and line breaks.
//!
//! Each function is enabled by its own flag and can be used alone or combined.
use vstd::prelude::*;
use crate::text::{chars_of, string_of};

verus! {

/// NEL (U+0085), LS (U+2028) and PS (U+2029): line breaks other than CR / LF.
pub open spec fn is_unicode_line_break(c: char) -> bool {
    c == '\u{0085}' || c == '\u{2028}' || c == '\u{2029}'
}

/// Line-break normalization of `s`, read from the front: CRLF and a lone CR
/// become LF, as do NEL / LS / PS; everything else is kept.
pub open spec fn newlines_spec(s: Seq<char>) -> Seq<char>
    decreases s.len(),
{
    if s.len() == 0 {
        seq![]
    } else if s[0] == '\r' {
        if s.len() > 1 && s[1] == '\n' {
            seq!['\n'] + newlines_spec(s.skip(2))
        } else {
            seq!['\n'] + newlines_spec(s.skip(1))
        }
    } else if is_unicode_line_break(s[0]) {
        seq!['\n'] + newlines_spec(s.skip(1))
    } else {
        seq![s[0]] + newlines_spec(s.skip(1))
    }
}

/// Converts line breaks to LF (`\n`): CRLF, a remaining CR, and U+0085 / U+2028 / U+2029.
pub fn normalize_newlines(input: &str) -> (out: String)
    ensures
        out@ == newlines_spec(input@),
{
    let chars = chars_of(input);
    let ghost s = chars@;
    let mut out: Vec<char> = Vec::new();
    let mut i: usize = 0;
    proof {
        assert(s.skip(0) =~= s);
    }
    while i < chars.len()
        invariant
            i <= chars.len(),
            s == chars@,
            out@ + newlines_spec(s.skip(i as int)) == newlines_spec(s),
        decreases chars.len() - i,
    {
        let c = chars[i];
        let ghost rest = s.skip(i as int);
        if c == '\r' {
            out.push('\n');
            if i + 1 < chars.len() && chars[i + 1] == '\n' {
                proof {
                    assert(rest.skip(2) =~= s.skip(i + 2));
                }
                i = i + 2;
            } else {
                proof {
                    assert(rest.skip(1) =~= s.skip(i + 1));
                }
                i = i + 1;
            }
        } else if c == '\u{0085}' || c == '\u{2028}' || c == '\u{2029}' {
            out.push('\n');
            proof {
                assert(rest.skip(1) =~= s.skip(i + 1));
            }
            i = i + 1;
        } else {
            out.push(c);
            proof {
                assert(rest.skip(1) =~= s.skip(i + 1));
            }
            i = i + 1;
        }
    }
    proof {
        assert(s.skip(i as int) =~= Seq::<char>::empty());
        assert(out@ + Seq::<char>::empty() =~= out@);
    }
    string_of(&out)
}

/// Zero-width characters and BOM: U+200B, U+200C, U+2060, U+FEFF.
/// U+200D (ZWJ) is not among them: emoji sequences use it.
pub open spec fn is_zero_width(c: char) -> bool {
    c == '\u{200B}' || c == '\u{200C}' || c == '\u{2060}' || c == '\u{FEFF}'
}

/// Removes zero-width characters and the BOM (see [`is_zero_width`]).
pub fn remove_zero_width(input: &str) -> (out: String)
    ensures
        out@ == input@.filter(|c: char| !is_zero_width(c)),
{
    let chars = chars_of(input);
    let ghost s = chars@;
    let ghost keep = |c: char| !is_zero_width(c);
    let mut out: Vec<char> = Vec::new();
    let mut i: usize = 0;
    while i < chars.len()
        invariant
            i <= chars.len(),
            s == chars@,
            keep == (|c: char| !is_zero_width(c)),
            out@ == s.take(i as int).filter(keep),
        decreases chars.len() - i,
    {
        let c = chars[i];
        proof {
            assert(s.take(i + 1) =~= s.take(i as int).push(c));
            s.take(i as int).lemma_filter_push(c, keep);
        }
        if !(c == '\u{200B}' || c == '\u{200C}' || c == '\u{2060}' || c == '\u{FEFF}') {
            out.push(c);
        }
        i = i + 1;
    }
    proof {
        assert(s.take(i as int) =~= s);
    }
    string_of(&out)
}

/// C0 / C1 control characters and DEL, except TAB and LF.
pub open spec fn is_removed_control(c: char) -> bool {
    let u = c as u32;
    c != '\t' && c != '\n' && (u <= 0x1F || u == 0x7F || (0x80 <= u && u <= 0x9F))
}

/// Removes control characters: U+0000–U+001F but TAB and LF, U+007F, U+0080–U+009F.
pub fn remove_control(input: &str) -> (out: String)
    ensures
        out@ == input@.filter(|c: char| !is_removed_control(c)),
{
    let chars = chars_of(input);
    let ghost s = chars@;
    let ghost keep = |c: char| !is_removed_control(c);
    let mut out: Vec<char> = Vec::new();
    let mut i: usize = 0;
    while i < chars.len()
        invariant
            i <= chars.len(),
            s == chars@,
            keep == (|c: char| !is_removed_control(c)),
            out@ == s.take(i as int).filter(keep),
        decreases chars.len() - i,
    {
        let c = chars[i];
        let u = c as u32;
        proof {
            assert(s.take(i + 1) =~= s.take(i as int).push(c));
            s.take(i as int).lemma_filter_push(c, keep);
        }
        if c == '\t' || c == '\n' || !(u <= 0x1F || u == 0x7F || (0x80 <= u && u <= 0x9F)) {
            out.push(c);
        }
        i = i + 1;
    }
    proof {
        assert(s.take(i as int) =~= s);
    }
    string_of(&out)
}

/// Bidi control characters: U+200E, U+200F, U+202A–U+202E, U+2066–U+2069.
pub open spec fn is_bidi_control(c: char) -> bool {
    let u = c as u32;
    u == 0x200E || u == 0x200F || (0x202A <= u && u <= 0x202E) || (0x2066 <= u && u <= 0x2069)
}

/// Removes bidi control characters (a defence against "Trojan Source" text).
pub fn remove_bidi_control(input: &str) -> (out: String)
    ensures
        out@ == input@.filter(|c: char| !is_bidi_control(c)),
{
    let chars = chars_of(input);
    let ghost s = chars@;
    let ghost keep = |c: char| !is_bidi_control(c);
    let mut out: Vec<char> = Vec::new();
    let mut i: usize = 0;
    while i < chars.len()
        invariant
            i <= chars.len(),
            s == chars@,
            keep == (|c: char| !is_bidi_control(c)),
            out@ == s.take(i as int).filter(keep),
        decreases chars.len() - i,
    {
        let c = chars[i];
        let u = c as u32;
        proof {
            assert(s.take(i + 1) =~= s.take(i as int).push(c));
            s.take(i as int).lemma_filter_push(c, keep);
        }
        if !(u == 0x200E || u == 0x200F || (0x202A <= u && u <= 0x202E) || (0x2066 <= u && u
            <= 0x2069)) {
            out.push(c);
        }
        i = i + 1;
    }
    proof {
        assert(s.take(i as int) =~= s);
    }
    string_of(&out)
}

} // verus!
