//! Space between Japanese (CJK) text and ASCII letters or digits.
//!
//! `collapse_spaces` only folds such spaces; whether they should go or be
//! added depends on the use, so it can be chosen here.
//!
//! - [`CjkSpacing::Remove`]: a space next to a CJK character goes (comparison, deduplication)
//! - [`CjkSpacing::Insert`]: one space goes between CJK and ASCII letters / digits (display)
use vstd::prelude::*;
use crate::text::{chars_of, string_of, is_ascii_alnum, ascii_alnum};

verus! {

/// How spaces around CJK characters are treated.
#[derive(Debug, Clone, Copy, PartialEq, Eq, Structural)]
pub enum CjkSpacing {
    /// Nothing is changed.
    Keep,
    /// Spaces next to a CJK character are removed.
    Remove,
    /// A half-width space is inserted between CJK and ASCII letters / digits.
    Insert,
}

impl Default for CjkSpacing {
    fn default() -> (r: Self)
        ensures
            r == CjkSpacing::Keep,
    {
        CjkSpacing::Keep
    }
}

/// CJK characters: CJK symbols and punctuation, kana, CJK ideographs,
/// compatibility ideographs, full-width forms and half-width kana.
pub open spec fn is_cjk_spec(c: char) -> bool {
    let u = c as u32;
    (0x3000 <= u && u <= 0x303F) || (0x3040 <= u && u <= 0x30FF) || (0x31F0 <= u && u <= 0x31FF)
        || (0x3400 <= u && u <= 0x4DBF) || (0x4E00 <= u && u <= 0x9FFF) || (0xF900 <= u && u
        <= 0xFAFF) || (0xFF01 <= u && u <= 0xFF60) || (0xFF66 <= u && u <= 0xFF9F) || (0x20000
        <= u && u <= 0x2FFFF)
}

/// Whether `c` is a CJK character (ideograph, kana, CJK symbol or full-width form).
pub fn is_cjk(c: char) -> (b: bool)
    ensures
        b == is_cjk_spec(c),
{
    let u = c as u32;
    (0x3000 <= u && u <= 0x303F) || (0x3040 <= u && u <= 0x30FF) || (0x31F0 <= u && u <= 0x31FF)
        || (0x3400 <= u && u <= 0x4DBF) || (0x4E00 <= u && u <= 0x9FFF) || (0xF900 <= u && u
        <= 0xFAFF) || (0xFF01 <= u && u <= 0xFF60) || (0xFF66 <= u && u <= 0xFF9F) || (0x20000
        <= u && u <= 0x2FFFF)
}

/// CJK punctuation and full-width symbols, next to which no space is inserted.
pub open spec fn is_cjk_punct_spec(c: char) -> bool {
    let u = c as u32;
    (0x3000 <= u && u <= 0x303F) || (0xFF01 <= u && u <= 0xFF0F) || (0xFF1A <= u && u <= 0xFF20)
        || (0xFF3B <= u && u <= 0xFF40) || (0xFF5B <= u && u <= 0xFF65)
}

fn is_cjk_punct(c: char) -> (b: bool)
    ensures
        b == is_cjk_punct_spec(c),
{
    let u = c as u32;
    (0x3000 <= u && u <= 0x303F) || (0xFF01 <= u && u <= 0xFF0F) || (0xFF1A <= u && u <= 0xFF20)
        || (0xFF3B <= u && u <= 0xFF40) || (0xFF5B <= u && u <= 0xFF65)
}

/// The last character before index `i` that is not `' '`.
pub open spec fn prev_non_space(s: Seq<char>, i: int) -> Option<char>
    decreases i,
{
    if i <= 0 {
        None
    } else if s[i - 1] != ' ' {
        Some(s[i - 1])
    } else {
        prev_non_space(s, i - 1)
    }
}

/// The first character at index `j` or later that is not `' '`.
pub open spec fn next_non_space(s: Seq<char>, j: int) -> Option<char>
    decreases s.len() - j,
{
    if j >= s.len() || j < 0 {
        None
    } else if s[j] != ' ' {
        Some(s[j])
    } else {
        next_non_space(s, j + 1)
    }
}

/// Whether the space at index `i` of `s` is removed: both sides have a
/// non-space character and one of the nearest ones is CJK.
pub open spec fn space_removed(s: Seq<char>, i: int) -> bool {
    let prev = prev_non_space(s, i);
    let next = next_non_space(s, i + 1);
    &&& s[i] == ' '
    &&& prev is Some && next is Some
    &&& is_cjk_spec(prev->0) || is_cjk_spec(next->0)
}

/// The first `n` characters of `s` after removal of the spaces that [`space_removed`] names.
pub open spec fn remove_upto(s: Seq<char>, n: int) -> Seq<char>
    decreases n,
{
    if n <= 0 {
        seq![]
    } else if space_removed(s, n - 1) {
        remove_upto(s, n - 1)
    } else {
        remove_upto(s, n - 1).push(s[n - 1])
    }
}

/// Spaces next to CJK characters removed.
pub open spec fn remove_spec(s: Seq<char>) -> Seq<char> {
    remove_upto(s, s.len() as int)
}

/// Insertion read from the front, `prev` being the previous character.
pub open spec fn insert_from(prev: Option<char>, s: Seq<char>) -> Seq<char>
    decreases s.len(),
{
    if s.len() == 0 {
        seq![]
    } else {
        let c = s[0];
        let gap = match prev {
            Some(p) => ((is_cjk_spec(p) && is_ascii_alnum(c)) || (is_ascii_alnum(p)
                && is_cjk_spec(c))) && !is_cjk_punct_spec(p) && !is_cjk_punct_spec(c),
            None => false,
        };
        if gap {
            seq![' ', c] + insert_from(Some(c), s.skip(1))
        } else {
            seq![c] + insert_from(Some(c), s.skip(1))
        }
    }
}

/// Spaces inserted at CJK / ASCII-alphanumeric boundaries.
pub open spec fn insert_spec(s: Seq<char>) -> Seq<char> {
    insert_from(None, s)
}

/// The result of [`process`] in each mode.
pub open spec fn process_spec(s: Seq<char>, mode: CjkSpacing) -> Seq<char> {
    match mode {
        CjkSpacing::Keep => s,
        CjkSpacing::Remove => remove_spec(s),
        CjkSpacing::Insert => insert_spec(s),
    }
}

/// Treats the spaces around CJK characters as `mode` says.
pub fn process(input: &str, mode: CjkSpacing) -> (out: String)
    ensures
        out@ == process_spec(input@, mode),
{
    let chars = chars_of(input);
    let v = match mode {
        CjkSpacing::Keep => chars,
        CjkSpacing::Remove => remove(&chars),
        CjkSpacing::Insert => insert(&chars),
    };
    string_of(&v)
}

fn find_prev(chars: &Vec<char>, i: usize) -> (r: Option<char>)
    requires
        i <= chars.len(),
    ensures
        r == prev_non_space(chars@, i as int),
{
    let mut j: usize = i;
    while j > 0
        invariant
            j <= i <= chars.len(),
            prev_non_space(chars@, j as int) == prev_non_space(chars@, i as int),
        decreases j,
    {
        if chars[j - 1] != ' ' {
            return Some(chars[j - 1]);
        }
        j = j - 1;
    }
    None
}

fn find_next(chars: &Vec<char>, j0: usize) -> (r: Option<char>)
    requires
        j0 <= chars.len(),
    ensures
        r == next_non_space(chars@, j0 as int),
{
    let mut j: usize = j0;
    while j < chars.len()
        invariant
            j0 <= j <= chars.len(),
            next_non_space(chars@, j as int) == next_non_space(chars@, j0 as int),
        decreases chars.len() - j,
    {
        if chars[j] != ' ' {
            return Some(chars[j]);
        }
        j = j + 1;
    }
    None
}

fn remove(chars: &Vec<char>) -> (out: Vec<char>)
    ensures
        out@ == remove_spec(chars@),
{
    let mut out: Vec<char> = Vec::new();
    let mut i: usize = 0;
    while i < chars.len()
        invariant
            i <= chars.len(),
            out@ == remove_upto(chars@, i as int),
        decreases chars.len() - i,
    {
        let c = chars[i];
        let mut skip = false;
        if c == ' ' {
            let prev = find_prev(chars, i);
            let next = find_next(chars, i + 1);
            let touches = match (prev, next) {
                (Some(p), Some(n)) => is_cjk(p) || is_cjk(n),
                _ => false,
            };
            skip = touches;
        }
        if !skip {
            out.push(c);
        }
        i = i + 1;
    }
    out
}

fn insert(chars: &Vec<char>) -> (out: Vec<char>)
    ensures
        out@ == insert_spec(chars@),
{
    let ghost s = chars@;
    let mut out: Vec<char> = Vec::new();
    let mut prev: Option<char> = None;
    let mut i: usize = 0;
    proof {
        assert(s.skip(0) =~= s);
    }
    while i < chars.len()
        invariant
            i <= chars.len(),
            s == chars@,
            out@ + insert_from(prev, s.skip(i as int)) == insert_spec(s),
        decreases chars.len() - i,
    {
        let c = chars[i];
        proof {
            assert(s.skip(i as int).skip(1) =~= s.skip(i + 1));
        }
        match prev {
            Some(p) => {
                let boundary = (is_cjk(p) && ascii_alnum(c)) || (ascii_alnum(p) && is_cjk(c));
                if boundary && !is_cjk_punct(p) && !is_cjk_punct(c) {
                    out.push(' ');
                }
            },
            None => {},
        }
        out.push(c);
        prev = Some(c);
        i = i + 1;
    }
    proof {
        assert(s.skip(i as int) =~= Seq::<char>::empty());
        assert(out@ + Seq::<char>::empty() =~= out@);
    }
    out
}

} // verus!
