//! A small JSON reader for dictionary files.
//!
//! It reads strings, arrays and objects with the standard escapes (`\uXXXX`
//! with surrogate pairs included); numbers, `true`, `false` and `null` are
//! skipped as scalars. A value is kept only as deep as the dictionary
//! loaders look: the members of the top-level object, and for an array
//! member which of its items are strings.
use vstd::prelude::*;
use crate::text::{chars_of, string_of, char_from_u32, is_scalar};

verus! {

/// An item of an array as the loaders see it: its text if it is a string.
pub type ItemView = Option<Seq<char>>;

/// A member value of the top-level object, as the loaders see it.
pub enum MemberView {
    /// A string.
    Str(Seq<char>),
    /// An array, with the text of its string items.
    Arr(Seq<ItemView>),
    /// Anything else (an object, a number, `true`, `false`, `null`).
    Other,
}

/// A value, as far as the loaders look into it.
pub enum ValueView {
    /// A string.
    Str(Seq<char>),
    /// An array, with the text of its string items.
    Arr(Seq<ItemView>),
    /// An object, with its members.
    Obj(Seq<(Seq<char>, MemberView)>),
    /// A number, `true`, `false` or `null` (read as a run of other characters).
    Other,
}

/// A reading error: the character offset and what was expected.
pub type JsonError = (int, Seq<char>);

/// JSON white space.
pub open spec fn is_json_ws(c: char) -> bool {
    c == ' ' || c == '\t' || c == '\n' || c == '\r'
}

/// Where the white space starting at `i` ends.
pub open spec fn ws_end(s: Seq<char>, i: int) -> int
    decreases s.len() - i,
{
    if 0 <= i < s.len() && is_json_ws(s[i]) {
        ws_end(s, i + 1)
    } else {
        i
    }
}

pub proof fn lemma_ws_end(s: Seq<char>, i: int)
    requires
        0 <= i <= s.len(),
    ensures
        i <= ws_end(s, i) <= s.len(),
        ws_end(s, i) < s.len() ==> !is_json_ws(s[ws_end(s, i)]),
    decreases s.len() - i,
{
    if 0 <= i < s.len() && is_json_ws(s[i]) {
        lemma_ws_end(s, i + 1);
    }
}

/// Whether `c` ends a scalar (number, `true`, `false`, `null`).
pub open spec fn ends_scalar(c: char) -> bool {
    c == ',' || c == ']' || c == '}' || is_json_ws(c)
}

/// Where the scalar starting at `i` ends.
pub open spec fn scalar_end(s: Seq<char>, i: int) -> int
    decreases s.len() - i,
{
    if 0 <= i < s.len() && !ends_scalar(s[i]) {
        scalar_end(s, i + 1)
    } else {
        i
    }
}

pub proof fn lemma_scalar_end(s: Seq<char>, i: int)
    requires
        0 <= i <= s.len(),
    ensures
        i <= scalar_end(s, i) <= s.len(),
    decreases s.len() - i,
{
    if 0 <= i < s.len() && !ends_scalar(s[i]) {
        lemma_scalar_end(s, i + 1);
    }
}

/// The value of a hexadecimal digit (as `char::to_digit(16)`).
pub open spec fn hex_value(c: char) -> Option<u32> {
    if '0' <= c && c <= '9' {
        Some((c as u32 - '0' as u32) as u32)
    } else if 'a' <= c && c <= 'f' {
        Some((c as u32 - 'a' as u32 + 10) as u32)
    } else if 'A' <= c && c <= 'F' {
        Some((c as u32 - 'A' as u32 + 10) as u32)
    } else {
        None
    }
}

/// Reading the hexadecimal digits `s[i + k..i + 4]` after the value `v` of
/// the first `k`.
pub open spec fn hex4_from(s: Seq<char>, i: int, k: int, v: int) -> Result<int, JsonError>
    decreases 4 - k,
{
    if k >= 4 || k < 0 {
        Ok(v)
    } else if 0 <= i + k < s.len() && hex_value(s[i + k]) is Some {
        hex4_from(s, i, k + 1, v * 16 + hex_value(s[i + k])->0)
    } else {
        Err((i + k, "expected 4 hex digits after \\u"@))
    }
}

/// The four hexadecimal digits at `i`.
pub open spec fn hex4(s: Seq<char>, i: int) -> Result<int, JsonError> {
    hex4_from(s, i, 0, 0)
}

/// The character of a `\u` escape whose digits start at `j`, and where the
/// escape ends: a high surrogate must be followed by `\u` and a low
/// surrogate, and the pair makes one character.
pub open spec fn unicode_escape(s: Seq<char>, j: int) -> Result<(char, int), JsonError> {
    match hex4(s, j) {
        Err(e) => Err(e),
        Ok(hi) => {
            let k = j + 4;
            if 0xD800 <= hi <= 0xDBFF {
                if 0 <= k && k + 1 < s.len() && s[k] == '\\' && s[k + 1] == 'u' {
                    match hex4(s, k + 2) {
                        Err(e) => Err(e),
                        Ok(lo) => if 0xDC00 <= lo <= 0xDFFF {
                            let cp = 0x10000 + (hi - 0xD800) * 1024 + (lo - 0xDC00);
                            if is_scalar(cp as u32) {
                                Ok(((cp as u32) as char, k + 6))
                            } else {
                                Err((k + 6, "invalid code point"@))
                            }
                        } else {
                            Err((k + 6, "lone high surrogate in \\u escape"@))
                        },
                    }
                } else {
                    Err((k, "lone high surrogate in \\u escape"@))
                }
            } else if is_scalar(hi as u32) {
                Ok(((hi as u32) as char, k))
            } else {
                Err((k, "invalid \\u escape (lone surrogate)"@))
            }
        },
    }
}

/// The character of a one-letter escape (`\"`, `\\`, `\/`, `\b`, `\f`,
/// `\n`, `\r`, `\t`).
pub open spec fn simple_escape(e: char) -> Option<char> {
    if e == '"' {
        Some('"')
    } else if e == '\\' {
        Some('\\')
    } else if e == '/' {
        Some('/')
    } else if e == 'b' {
        Some('\u{8}')
    } else if e == 'f' {
        Some('\u{c}')
    } else if e == 'n' {
        Some('\n')
    } else if e == 'r' {
        Some('\r')
    } else if e == 't' {
        Some('\t')
    } else {
        None
    }
}

/// Reading the rest of a string from `i`, its text so far being `acc`: the
/// text and where the string ends (after the closing quote).
pub open spec fn str_body(s: Seq<char>, i: int, acc: Seq<char>) -> Result<
    (Seq<char>, int),
    JsonError,
>
    decreases s.len() - i,
{
    if i < 0 || i >= s.len() {
        Err((i, "unterminated string"@))
    } else if s[i] == '"' {
        Ok((acc, i + 1))
    } else if s[i] == '\\' {
        if i + 1 >= s.len() {
            Err((i + 1, "unterminated escape"@))
        } else if s[i + 1] == 'u' {
            match unicode_escape(s, i + 2) {
                Err(e) => Err(e),
                Ok((c, k)) => if i < k <= s.len() {
                    str_body(s, k, acc.push(c))
                } else {
                    Err((k, "unterminated string"@))
                },
            }
        } else {
            match simple_escape(s[i + 1]) {
                Some(c) => str_body(s, i + 2, acc.push(c)),
                None => Err((i + 2, "invalid escape sequence"@)),
            }
        }
    } else {
        str_body(s, i + 1, acc.push(s[i]))
    }
}

/// The string at `i`: its text and where it ends.
pub open spec fn string_at(s: Seq<char>, i: int) -> Result<(Seq<char>, int), JsonError> {
    if 0 <= i < s.len() && s[i] == '"' {
        str_body(s, i + 1, seq![])
    } else {
        Err((i, "expected string"@))
    }
}

/// A value as an array item: its text if it is a string.
pub open spec fn item_of(v: ValueView) -> ItemView {
    match v {
        ValueView::Str(t) => Some(t),
        _ => None,
    }
}

/// A value as a member of the top-level object.
pub open spec fn member_of(v: ValueView) -> MemberView {
    match v {
        ValueView::Str(t) => MemberView::Str(t),
        ValueView::Arr(items) => MemberView::Arr(items),
        _ => MemberView::Other,
    }
}

/// The value at `i` and where it ends. Reading never goes back; the checks
/// of that in [`array_items`] and [`object_members`] serve the termination
/// argument only.
pub open spec fn value_at(s: Seq<char>, i: int) -> Result<(ValueView, int), JsonError>
    decreases s.len() - i, 1int,
{
    if i < 0 || i >= s.len() {
        Err((i, "unexpected end of input"@))
    } else if s[i] == '"' {
        match string_at(s, i) {
            Ok((t, k)) => Ok((ValueView::Str(t), k)),
            Err(e) => Err(e),
        }
    } else if s[i] == '[' {
        array_items(s, i + 1, seq![])
    } else if s[i] == '{' {
        object_members(s, i + 1, seq![])
    } else {
        Ok((ValueView::Other, scalar_end(s, i)))
    }
}

/// Reading the rest of an array from `j` (after `[` or a `,`), its items so
/// far being `acc`.
pub open spec fn array_items(s: Seq<char>, j: int, acc: Seq<ItemView>) -> Result<
    (ValueView, int),
    JsonError,
>
    decreases s.len() - j, 2int,
{
    if j < 0 || j > s.len() {
        Err((j, "unexpected end of input"@))
    } else {
        proof {
            lemma_ws_end(s, j);
        }
        let k = ws_end(s, j);
        if k < s.len() && s[k] == ']' {
            Ok((ValueView::Arr(acc), k + 1))
        } else {
            match value_at(s, k) {
                Err(e) => Err(e),
                Ok((v, m)) => if m < k || m > s.len() {
                    Err((m, "unexpected end of input"@))
                } else {
                    proof {
                        lemma_ws_end(s, m);
                    }
                    let n = ws_end(s, m);
                    if n < s.len() && s[n] == ',' {
                        array_items(s, n + 1, acc.push(item_of(v)))
                    } else if n < s.len() && s[n] == ']' {
                        Ok((ValueView::Arr(acc.push(item_of(v))), n + 1))
                    } else {
                        Err((n, "expected ',' or ']'"@))
                    }
                },
            }
        }
    }
}

/// Reading the rest of an object from `j` (after `{` or a `,`), its
/// members so far being `acc`.
pub open spec fn object_members(
    s: Seq<char>,
    j: int,
    acc: Seq<(Seq<char>, MemberView)>,
) -> Result<(ValueView, int), JsonError>
    decreases s.len() - j, 2int,
{
    if j < 0 || j > s.len() {
        Err((j, "unexpected end of input"@))
    } else {
        proof {
            lemma_ws_end(s, j);
        }
        let k = ws_end(s, j);
        if k < s.len() && s[k] == '}' {
            Ok((ValueView::Obj(acc), k + 1))
        } else {
            match string_at(s, k) {
                Err(e) => Err(e),
                Ok((key, m)) => if m < k || m > s.len() {
                    Err((m, "unexpected end of input"@))
                } else {
                    proof {
                        lemma_ws_end(s, m);
                    }
                    let n = ws_end(s, m);
                    if !(n < s.len() && s[n] == ':') {
                        Err((n, "expected ':' after object key"@))
                    } else {
                        proof {
                            lemma_ws_end(s, n + 1);
                        }
                        let p = ws_end(s, n + 1);
                        match value_at(s, p) {
                            Err(e) => Err(e),
                            Ok((v, q)) => if q < p || q > s.len() {
                                Err((q, "unexpected end of input"@))
                            } else {
                                proof {
                                    lemma_ws_end(s, q);
                                }
                                let r = ws_end(s, q);
                                let acc2 = acc.push((key, member_of(v)));
                                if r < s.len() && s[r] == ',' {
                                    object_members(s, r + 1, acc2)
                                } else if r < s.len() && s[r] == '}' {
                                    Ok((ValueView::Obj(acc2), r + 1))
                                } else {
                                    Err((r, "expected ',' or '}'"@))
                                }
                            },
                        }
                    }
                },
            }
        }
    }
}

/// The members of the top-level object of `s`, or the reading error. White
/// space may surround the value; anything else after it is an error, and so
/// is a top-level value that is not an object (reported at offset 0).
pub open spec fn parse_object_spec(s: Seq<char>) -> Result<Seq<(Seq<char>, MemberView)>, JsonError> {
    match value_at(s, ws_end(s, 0)) {
        Err(e) => Err(e),
        Ok((v, m)) => {
            let n = ws_end(s, m);
            if n != s.len() {
                Err((n, "trailing characters after top-level value"@))
            } else {
                match v {
                    ValueView::Obj(members) => Ok(members),
                    _ => Err((0, "expected top-level object"@)),
                }
            }
        },
    }
}

// ---- reading ----

/// A member value of the top-level object (see [`MemberView`]).
pub enum Member {
    /// A string.
    Str(String),
    /// An array, with its string items.
    Arr(Vec<Option<String>>),
    /// Anything else.
    Other,
}

/// A value (see [`ValueView`]).
pub enum Value {
    /// A string.
    Str(String),
    /// An array, with its string items.
    Arr(Vec<Option<String>>),
    /// An object, with its members.
    Obj(Vec<(String, Member)>),
    /// A number, `true`, `false` or `null`.
    Other,
}

/// The items of an array, as the loaders see them.
pub open spec fn items_view(v: Seq<Option<String>>) -> Seq<ItemView> {
    v.map_values(
        |x: Option<String>|
            match x {
                Some(t) => Some(t@),
                None => None,
            },
    )
}

/// A member as the loaders see it.
pub open spec fn member_view(m: Member) -> MemberView {
    match m {
        Member::Str(t) => MemberView::Str(t@),
        Member::Arr(items) => MemberView::Arr(items_view(items@)),
        Member::Other => MemberView::Other,
    }
}

/// The members of an object, as the loaders see them.
pub open spec fn members_view(v: Seq<(String, Member)>) -> Seq<(Seq<char>, MemberView)> {
    v.map_values(|e: (String, Member)| (e.0@, member_view(e.1)))
}

/// A value as the loaders see it.
pub open spec fn value_view(v: Value) -> ValueView {
    match v {
        Value::Str(t) => ValueView::Str(t@),
        Value::Arr(items) => ValueView::Arr(items_view(items@)),
        Value::Obj(members) => ValueView::Obj(members_view(members@)),
        Value::Other => ValueView::Other,
    }
}

/// An error as a pair of offset and message.
pub open spec fn error_view(e: (usize, &'static str)) -> JsonError {
    (e.0 as int, e.1@)
}

fn skip_ws(s: &Vec<char>, i: usize) -> (r: usize)
    requires
        i <= s@.len(),
    ensures
        r == ws_end(s@, i as int),
        i <= r <= s@.len(),
{
    let mut p = i;
    while p < s.len() && (s[p] == ' ' || s[p] == '\t' || s[p] == '\n' || s[p] == '\r')
        invariant
            i <= p <= s@.len(),
            ws_end(s@, p as int) == ws_end(s@, i as int),
        decreases s@.len() - p,
    {
        p = p + 1;
    }
    p
}

fn skip_scalar(s: &Vec<char>, i: usize) -> (r: usize)
    requires
        i <= s@.len(),
    ensures
        r == scalar_end(s@, i as int),
        i <= r <= s@.len(),
{
    let mut p = i;
    while p < s.len() && !(s[p] == ',' || s[p] == ']' || s[p] == '}' || s[p] == ' ' || s[p]
        == '\t' || s[p] == '\n' || s[p] == '\r')
        invariant
            i <= p <= s@.len(),
            scalar_end(s@, p as int) == scalar_end(s@, i as int),
        decreases s@.len() - p,
    {
        p = p + 1;
    }
    p
}

fn hex_digit(c: char) -> (r: Option<u32>)
    ensures
        r == hex_value(c),
{
    if '0' <= c && c <= '9' {
        Some((c as u32) - ('0' as u32))
    } else if 'a' <= c && c <= 'f' {
        Some((c as u32) - ('a' as u32) + 10)
    } else if 'A' <= c && c <= 'F' {
        Some((c as u32) - ('A' as u32) + 10)
    } else {
        None
    }
}

fn read_hex4(s: &Vec<char>, i: usize) -> (r: Result<u32, (usize, &'static str)>)
    requires
        i <= s@.len(),
    ensures
        match r {
            Ok(v) => hex4(s@, i as int) == Ok::<int, JsonError>(v as int) && i + 4 <= s@.len(),
            Err(e) => hex4(s@, i as int) == Err::<int, JsonError>(error_view(e)) && e.0 <= s@.len(),
        },
{
    let mut v: u32 = 0;
    let mut k: usize = 0;
    while k < 4
        invariant
            k <= 4,
            i + k <= s@.len(),
            hex4_from(s@, i as int, k as int, v as int) == hex4(s@, i as int),
            (k == 0 && v == 0) || (k == 1 && v < 16) || (k == 2 && v < 256) || (k == 3 && v
                < 4096) || (k == 4 && v < 65536),
        decreases 4 - k,
    {
        if k >= s.len() - i {
            return Err((i + k, "expected 4 hex digits after \\u"));
        }
        match hex_digit(s[i + k]) {
            Some(d) => {
                v = v * 16 + d;
                k = k + 1;
            },
            None => {
                return Err((i + k, "expected 4 hex digits after \\u"));
            },
        }
    }
    Ok(v)
}

fn read_unicode_escape(s: &Vec<char>, j: usize) -> (r: Result<(char, usize), (usize, &'static str)>)
    requires
        j <= s@.len(),
    ensures
        match r {
            Ok((c, k)) => unicode_escape(s@, j as int) == Ok::<(char, int), JsonError>(
                (c, k as int),
            ) && j < k <= s@.len(),
            Err(e) => unicode_escape(s@, j as int) == Err::<(char, int), JsonError>(
                error_view(e),
            ),
        },
{
    let len = s.len();
    let h4 = read_hex4(s, j);
    let hi = match h4 {
        Err(e) => {
            return Err(e);
        },
        Ok(h) => h,
    };
    assert(j + 4 <= len);
    let k = j + 4;
    if 0xD800 <= hi && hi <= 0xDBFF {
        if k < s.len() && k + 1 < s.len() && s[k] == '\\' && s[k + 1] == 'u' {
            let lo = match read_hex4(s, k + 2) {
                Err(e) => {
                    return Err(e);
                },
                Ok(l) => l,
            };
            if 0xDC00 <= lo && lo <= 0xDFFF {
                let cp: u32 = 0x10000 + (hi - 0xD800) * 1024 + (lo - 0xDC00);
                return match char_from_u32(cp) {
                    Some(c) => Ok((c, k + 6)),
                    None => Err((k + 6, "invalid code point")),
                };
            }
            return Err((k + 6, "lone high surrogate in \\u escape"));
        }
        return Err((k, "lone high surrogate in \\u escape"));
    }
    match char_from_u32(hi) {
        Some(c) => Ok((c, k)),
        None => Err((k, "invalid \\u escape (lone surrogate)")),
    }
}

fn escape_char(e: char) -> (r: Option<char>)
    ensures
        r == simple_escape(e),
{
    if e == '"' {
        Some('"')
    } else if e == '\\' {
        Some('\\')
    } else if e == '/' {
        Some('/')
    } else if e == 'b' {
        Some('\u{8}')
    } else if e == 'f' {
        Some('\u{c}')
    } else if e == 'n' {
        Some('\n')
    } else if e == 'r' {
        Some('\r')
    } else if e == 't' {
        Some('\t')
    } else {
        None
    }
}

fn read_string(s: &Vec<char>, i: usize) -> (r: Result<(String, usize), (usize, &'static str)>)
    requires
        i <= s@.len(),
    ensures
        match r {
            Ok((t, m)) => string_at(s@, i as int) == Ok::<(Seq<char>, int), JsonError>(
                (t@, m as int),
            ) && i < m <= s@.len(),
            Err(e) => string_at(s@, i as int) == Err::<(Seq<char>, int), JsonError>(
                error_view(e),
            ),
        },
{
    if !(i < s.len() && s[i] == '"') {
        return Err((i, "expected string"));
    }
    let mut out: Vec<char> = Vec::new();
    let mut p = i + 1;
    loop
        invariant
            i < p <= s@.len(),
            str_body(s@, p as int, out@) == string_at(s@, i as int),
        decreases s@.len() - p,
    {
        if p >= s.len() {
            return Err((p, "unterminated string"));
        }
        let c = s[p];
        if c == '"' {
            return Ok((string_of(&out), p + 1));
        }
        if c == '\\' {
            if p + 1 >= s.len() {
                return Err((p + 1, "unterminated escape"));
            }
            let e = s[p + 1];
            if e == 'u' {
                match read_unicode_escape(s, p + 2) {
                    Err(x) => {
                        return Err(x);
                    },
                    Ok((ch, k)) => {
                        out.push(ch);
                        p = k;
                    },
                }
            } else {
                match escape_char(e) {
                    Some(ch) => {
                        out.push(ch);
                        p = p + 2;
                    },
                    None => {
                        return Err((p + 2, "invalid escape sequence"));
                    },
                }
            }
        } else {
            out.push(c);
            p = p + 1;
        }
    }
}

/// The view of an array item taken from a value.
fn item_from(v: Value) -> (r: Option<String>)
    ensures
        match r {
            Some(t) => item_of(value_view(v)) == Some(t@),
            None => item_of(value_view(v)) is None,
        },
{
    match v {
        Value::Str(t) => Some(t),
        _ => None,
    }
}

/// A member taken from a value.
fn member_from(v: Value) -> (r: Member)
    ensures
        member_view(r) == member_of(value_view(v)),
{
    match v {
        Value::Str(t) => Member::Str(t),
        Value::Arr(items) => Member::Arr(items),
        _ => Member::Other,
    }
}

fn read_value(s: &Vec<char>, i: usize) -> (r: Result<(Value, usize), (usize, &'static str)>)
    requires
        i <= s@.len(),
    ensures
        match r {
            Ok((v, m)) => value_at(s@, i as int) == Ok::<(ValueView, int), JsonError>(
                (value_view(v), m as int),
            ) && i <= m <= s@.len(),
            Err(e) => value_at(s@, i as int) == Err::<(ValueView, int), JsonError>(error_view(e)),
        },
    decreases s@.len() - i, 1int,
{
    if i >= s.len() {
        return Err((i, "unexpected end of input"));
    }
    let c = s[i];
    if c == '"' {
        match read_string(s, i) {
            Ok((t, k)) => Ok((Value::Str(t), k)),
            Err(e) => Err(e),
        }
    } else if c == '[' {
        read_array(s, i + 1)
    } else if c == '{' {
        read_object(s, i + 1)
    } else {
        Ok((Value::Other, skip_scalar(s, i)))
    }
}

fn read_array(s: &Vec<char>, j0: usize) -> (r: Result<(Value, usize), (usize, &'static str)>)
    requires
        j0 <= s@.len(),
    ensures
        match r {
            Ok((v, m)) => array_items(s@, j0 as int, seq![]) == Ok::<(ValueView, int), JsonError>(
                (value_view(v), m as int),
            ) && j0 <= m <= s@.len(),
            Err(e) => array_items(s@, j0 as int, seq![]) == Err::<(ValueView, int), JsonError>(
                error_view(e),
            ),
        },
    decreases s@.len() - j0, 2int,
{
    let mut items: Vec<Option<String>> = Vec::new();
    let mut j = j0;
    proof {
        assert(items_view(items@) =~= seq![]);
    }
    loop
        invariant
            j0 <= j <= s@.len(),
            array_items(s@, j as int, items_view(items@)) == array_items(s@, j0 as int, seq![]),
        decreases s@.len() - j,
    {
        let k = skip_ws(s, j);
        if k < s.len() && s[k] == ']' {
            return Ok((Value::Arr(items), k + 1));
        }
        match read_value(s, k) {
            Err(e) => {
                return Err(e);
            },
            Ok((v, m)) => {
                let n = skip_ws(s, m);
                let ghost before = items_view(items@);
                let it = item_from(v);
                items.push(it);
                proof {
                    assert(items_view(items@) =~= before.push(item_of(value_view(v))));
                }
                if n < s.len() && s[n] == ',' {
                    j = n + 1;
                } else if n < s.len() && s[n] == ']' {
                    return Ok((Value::Arr(items), n + 1));
                } else {
                    return Err((n, "expected ',' or ']'"));
                }
            },
        }
    }
}

fn read_object(s: &Vec<char>, j0: usize) -> (r: Result<(Value, usize), (usize, &'static str)>)
    requires
        j0 <= s@.len(),
    ensures
        match r {
            Ok((v, m)) => object_members(s@, j0 as int, seq![]) == Ok::<
                (ValueView, int),
                JsonError,
            >((value_view(v), m as int)) && j0 <= m <= s@.len(),
            Err(e) => object_members(s@, j0 as int, seq![]) == Err::<(ValueView, int), JsonError>(
                error_view(e),
            ),
        },
    decreases s@.len() - j0, 2int,
{
    let mut members: Vec<(String, Member)> = Vec::new();
    let mut j = j0;
    proof {
        assert(members_view(members@) =~= seq![]);
    }
    loop
        invariant
            j0 <= j <= s@.len(),
            object_members(s@, j as int, members_view(members@)) == object_members(
                s@,
                j0 as int,
                seq![],
            ),
        decreases s@.len() - j,
    {
        let k = skip_ws(s, j);
        if k < s.len() && s[k] == '}' {
            return Ok((Value::Obj(members), k + 1));
        }
        let (key, m) = match read_string(s, k) {
            Err(e) => {
                return Err(e);
            },
            Ok(x) => x,
        };
        let n = skip_ws(s, m);
        if !(n < s.len() && s[n] == ':') {
            return Err((n, "expected ':' after object key"));
        }
        let p = skip_ws(s, n + 1);
        match read_value(s, p) {
            Err(e) => {
                return Err(e);
            },
            Ok((v, q)) => {
                let r = skip_ws(s, q);
                let ghost before = members_view(members@);
                let ghost kv = key@;
                let mv = member_from(v);
                members.push((key, mv));
                proof {
                    assert(members_view(members@) =~= before.push((kv, member_of(value_view(v)))));
                }
                if r < s.len() && s[r] == ',' {
                    j = r + 1;
                } else if r < s.len() && s[r] == '}' {
                    return Ok((Value::Obj(members), r + 1));
                } else {
                    return Err((r, "expected ',' or '}'"));
                }
            },
        }
    }
}

/// Reads the top-level object of `text` (see [`parse_object_spec`]).
pub fn parse_object(text: &str) -> (r: Result<Vec<(String, Member)>, (usize, &'static str)>)
    ensures
        match r {
            Ok(ms) => parse_object_spec(text@) == Ok::<
                Seq<(Seq<char>, MemberView)>,
                JsonError,
            >(members_view(ms@)),
            Err(e) => parse_object_spec(text@) == Err::<Seq<(Seq<char>, MemberView)>, JsonError>(
                error_view(e),
            ),
        },
{
    let chars = chars_of(text);
    let start = skip_ws(&chars, 0);
    let (v, m) = match read_value(&chars, start) {
        Err(e) => {
            return Err(e);
        },
        Ok(x) => x,
    };
    let n = skip_ws(&chars, m);
    if n != chars.len() {
        return Err((n, "trailing characters after top-level value"));
    }
    match v {
        Value::Obj(members) => Ok(members),
        _ => Err((0, "expected top-level object")),
    }
}

} // verus!
