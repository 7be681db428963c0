//! Conversion between kanji numerals and Arabic digits.
//!
//! Place values (十 / 百 / 千 / 万 / 億 / 兆 / 京) are read as well as plain
//! digit-by-digit numerals: `一千二百三十四` → `1234`, `三億五千万` → `350000000`.
//! Each run of numerals in a text is replaced by its value.
use vstd::prelude::*;
use crate::text::{chars_of, string_of, push_all, is_ascii_digit, ascii_digit};

verus! {

/// The largest `u128`, the bound of every intermediate value.
pub open spec fn max_value() -> int {
    u128::MAX as int
}

/// A kanji numeral: a digit (〇 零 一 … 九) or a place unit (十 百 千 万 億 兆 京).
pub open spec fn is_kansuji_spec(c: char) -> bool {
    c == '〇' || c == '零' || c == '一' || c == '二' || c == '三' || c == '四' || c == '五' || c
        == '六' || c == '七' || c == '八' || c == '九' || c == '十' || c == '百' || c == '千' || c
        == '万' || c == '億' || c == '兆' || c == '京'
}

fn is_kansuji(c: char) -> (b: bool)
    ensures
        b == is_kansuji_spec(c),
{
    c == '〇' || c == '零' || c == '一' || c == '二' || c == '三' || c == '四' || c == '五' || c
        == '六' || c == '七' || c == '八' || c == '九' || c == '十' || c == '百' || c == '千' || c
        == '万' || c == '億' || c == '兆' || c == '京'
}

/// The value of a kanji digit.
pub open spec fn digit_value_spec(c: char) -> Option<int> {
    if c == '〇' || c == '零' {
        Some(0)
    } else if c == '一' {
        Some(1)
    } else if c == '二' {
        Some(2)
    } else if c == '三' {
        Some(3)
    } else if c == '四' {
        Some(4)
    } else if c == '五' {
        Some(5)
    } else if c == '六' {
        Some(6)
    } else if c == '七' {
        Some(7)
    } else if c == '八' {
        Some(8)
    } else if c == '九' {
        Some(9)
    } else {
        None
    }
}

fn digit_value(c: char) -> (r: Option<u128>)
    ensures
        r matches Some(d) ==> digit_value_spec(c) == Some(d as int),
        r is None ==> digit_value_spec(c) is None,
{
    if c == '〇' || c == '零' {
        Some(0)
    } else if c == '一' {
        Some(1)
    } else if c == '二' {
        Some(2)
    } else if c == '三' {
        Some(3)
    } else if c == '四' {
        Some(4)
    } else if c == '五' {
        Some(5)
    } else if c == '六' {
        Some(6)
    } else if c == '七' {
        Some(7)
    } else if c == '八' {
        Some(8)
    } else if c == '九' {
        Some(9)
    } else {
        None
    }
}

/// The value of an ASCII digit.
pub open spec fn ascii_digit_value(c: char) -> int {
    (c as u32) - ('0' as u32)
}

/// 十, 百 or 千.
pub open spec fn is_small_unit(c: char) -> bool {
    c == '十' || c == '百' || c == '千'
}

/// The value of 十 / 百 / 千.
pub open spec fn small_unit_value(c: char) -> int {
    if c == '千' {
        1000
    } else if c == '百' {
        100
    } else {
        10
    }
}

/// 万, 億, 兆 or 京.
pub open spec fn is_large_unit(c: char) -> bool {
    c == '万' || c == '億' || c == '兆' || c == '京'
}

/// The value of 万 / 億 / 兆 / 京.
pub open spec fn large_unit_value(c: char) -> int {
    if c == '京' {
        10000000000000000
    } else if c == '兆' {
        1000000000000
    } else if c == '億' {
        100000000
    } else {
        10000
    }
}

fn large_unit(c: char) -> (r: Option<u128>)
    ensures
        r matches Some(m) ==> is_large_unit(c) && m == large_unit_value(c),
        r is None ==> !is_large_unit(c),
{
    if c == '京' {
        Some(10000000000000000)
    } else if c == '兆' {
        Some(1000000000000)
    } else if c == '億' {
        Some(100000000)
    } else if c == '万' {
        Some(10000)
    } else {
        None
    }
}

// ---- blocks below 万: 千 / 百 / 十 and digits ----

/// Reading of a block of kanji digits and 千 / 百 / 十 from index `i`, with
/// the running `total` and the pending digits `cur`. A unit adds `cur` times
/// its value (its value alone when `cur` is 0) and resets `cur`; a digit
/// appends to `cur`. `None` when a character is neither, or a value exceeds
/// `u128`.
pub open spec fn small_from(s: Seq<char>, i: int, total: int, cur: int) -> Option<int>
    decreases s.len() - i,
{
    if i >= s.len() || i < 0 {
        if total + cur > max_value() {
            None
        } else {
            Some(total + cur)
        }
    } else if is_small_unit(s[i]) {
        let add = if cur == 0 {
            small_unit_value(s[i])
        } else {
            cur * small_unit_value(s[i])
        };
        if total + add > max_value() {
            None
        } else {
            small_from(s, i + 1, total + add, 0)
        }
    } else {
        match digit_value_spec(s[i]) {
            None => None,
            Some(d) => if cur * 10 + d > max_value() {
                None
            } else {
                small_from(s, i + 1, total, cur * 10 + d)
            },
        }
    }
}

/// The value of a block below 万 (see [`small_from`]).
pub open spec fn small_spec(s: Seq<char>) -> Option<int> {
    small_from(s, 0, 0, 0)
}

fn parse_small(chars: &Vec<char>, lo: usize, hi: usize) -> (r: Option<u128>)
    requires
        lo <= hi <= chars.len(),
    ensures
        r matches Some(v) ==> small_spec(chars@.subrange(lo as int, hi as int)) == Some(v as int),
        r is None ==> small_spec(chars@.subrange(lo as int, hi as int)) is None,
{
    let ghost s = chars@.subrange(lo as int, hi as int);
    let mut total: u128 = 0;
    let mut cur: u128 = 0;
    let mut k: usize = lo;
    while k < hi
        invariant
            lo <= k <= hi <= chars.len(),
            s == chars@.subrange(lo as int, hi as int),
            small_from(s, k - lo, total as int, cur as int) == small_spec(s),
        decreases hi - k,
    {
        let c = chars[k];
        assert(s[k - lo] == c);
        if c == '千' || c == '百' || c == '十' {
            let unit: u128 = if c == '千' {
                1000
            } else if c == '百' {
                100
            } else {
                10
            };
            let add = if cur == 0 {
                unit
            } else {
                match cur.checked_mul(unit) {
                    Some(v) => v,
                    None => {
                        return None;
                    },
                }
            };
            match total.checked_add(add) {
                Some(t) => {
                    total = t;
                },
                None => {
                    return None;
                },
            }
            cur = 0;
        } else {
            match digit_value(c) {
                None => {
                    return None;
                },
                Some(d) => {
                    match cur.checked_mul(10) {
                        None => {
                            return None;
                        },
                        Some(c10) => match c10.checked_add(d) {
                            None => {
                                return None;
                            },
                            Some(n) => {
                                cur = n;
                            },
                        },
                    }
                },
            }
        }
        k = k + 1;
    }
    total.checked_add(cur)
}

// ---- numerals with 万 / 億 / 兆 / 京 ----

/// Reading of a kanji numeral with large units from index `i`: `total` so far,
/// the pending block being `s[start..i]`. At a large unit the block (1 when
/// empty) times the unit is added; at the end the block is added.
pub open spec fn large_from(s: Seq<char>, i: int, total: int, start: int) -> Option<int>
    decreases s.len() - i,
{
    if i >= s.len() || i < 0 {
        if start < s.len() {
            match small_spec(s.subrange(start, s.len() as int)) {
                None => None,
                Some(v) => if total + v > max_value() {
                    None
                } else {
                    Some(total + v)
                },
            }
        } else {
            Some(total)
        }
    } else if is_large_unit(s[i]) {
        let value = if start == i {
            Some(1int)
        } else {
            small_spec(s.subrange(start, i))
        };
        match value {
            None => None,
            Some(v) => if total + v * large_unit_value(s[i]) > max_value() {
                None
            } else {
                large_from(s, i + 1, total + v * large_unit_value(s[i]), i + 1)
            },
        }
    } else {
        large_from(s, i + 1, total, start)
    }
}

/// The value of a kanji numeral with place units (see [`large_from`]).
pub open spec fn large_spec(s: Seq<char>) -> Option<int> {
    large_from(s, 0, 0, 0)
}

fn parse_with_large_units(chars: &Vec<char>, lo: usize, hi: usize) -> (r: Option<u128>)
    requires
        lo <= hi <= chars.len(),
    ensures
        r matches Some(v) ==> large_spec(chars@.subrange(lo as int, hi as int)) == Some(v as int),
        r is None ==> large_spec(chars@.subrange(lo as int, hi as int)) is None,
{
    let ghost s = chars@.subrange(lo as int, hi as int);
    let mut total: u128 = 0;
    let mut start: usize = lo;
    let mut k: usize = lo;
    while k < hi
        invariant
            lo <= start <= k <= hi <= chars.len(),
            s == chars@.subrange(lo as int, hi as int),
            large_from(s, k - lo, total as int, start - lo) == large_spec(s),
        decreases hi - k,
    {
        let c = chars[k];
        assert(s[k - lo] == c);
        match large_unit(c) {
            Some(mult) => {
                let value: u128 = if start == k {
                    1
                } else {
                    proof {
                        assert(s.subrange(start - lo, k - lo) =~= chars@.subrange(
                            start as int,
                            k as int,
                        ));
                    }
                    match parse_small(chars, start, k) {
                        Some(v) => v,
                        None => {
                            return None;
                        },
                    }
                };
                match value.checked_mul(mult) {
                    None => {
                        return None;
                    },
                    Some(p) => match total.checked_add(p) {
                        None => {
                            return None;
                        },
                        Some(t) => {
                            total = t;
                        },
                    },
                }
                start = k + 1;
            },
            None => {},
        }
        k = k + 1;
    }
    if start < hi {
        proof {
            assert(s.subrange(start - lo, s.len() as int) =~= chars@.subrange(
                start as int,
                hi as int,
            ));
        }
        match parse_small(chars, start, hi) {
            None => None,
            Some(v) => total.checked_add(v),
        }
    } else {
        Some(total)
    }
}

// ---- pure kanji numerals ----

/// A counter that makes a lone kanji digit before it a number (第一章, 一人).
pub open spec fn is_counter_like(c: char) -> bool {
    c == '章' || c == '回' || c == '位' || c == '番' || c == '月' || c == '日' || c == '年' || c
        == '人' || c == '個' || c == '枚' || c == 'つ' || c == '度'
}

/// Digit-by-digit reading (`一二三` → 123) from index `i` with value `n` so far.
pub open spec fn digits_from(s: Seq<char>, i: int, n: int) -> Option<int>
    decreases s.len() - i,
{
    if i >= s.len() || i < 0 {
        Some(n)
    } else {
        match digit_value_spec(s[i]) {
            None => None,
            Some(d) => if n * 10 + d > max_value() {
                None
            } else {
                digits_from(s, i + 1, n * 10 + d)
            },
        }
    }
}

/// Whether some character of `s` is a kanji digit.
pub open spec fn has_kanji_digit(s: Seq<char>) -> bool {
    exists|i: int| 0 <= i < s.len() && (#[trigger] digit_value_spec(s[i])) is Some
}

/// Whether some character of `s` is 十 / 百 / 千.
pub open spec fn has_small_unit(s: Seq<char>) -> bool {
    exists|i: int| 0 <= i < s.len() && #[trigger] is_small_unit(s[i])
}

/// Whether some character of `s` is 万 / 億 / 兆 / 京.
pub open spec fn has_large_unit(s: Seq<char>) -> bool {
    exists|i: int| 0 <= i < s.len() && #[trigger] is_large_unit(s[i])
}

/// Whether a lone kanji digit counts as a number between `prev` and `next`:
/// after 第, before a counter, or next to an ASCII digit.
pub open spec fn lone_digit_context(prev: Option<char>, next: Option<char>) -> bool {
    ||| prev == Some('第')
    ||| (next matches Some(n) && is_counter_like(n))
    ||| (prev matches Some(p) && is_ascii_digit(p))
    ||| (next matches Some(n) && is_ascii_digit(n))
}

/// The value of a run `s` of kanji numerals between the characters `prev` and
/// `next`. Words such as 京都 / 東京 / 兆し (no digit and no 十百千), a lone
/// large unit, and a lone digit outside a numeric context are no numbers.
pub open spec fn kansuji_value(s: Seq<char>, prev: Option<char>, next: Option<char>) -> Option<
    int,
> {
    if !has_kanji_digit(s) && !has_small_unit(s) {
        None
    } else if s.len() == 1 && has_large_unit(s) {
        None
    } else if s.len() == 1 && !has_large_unit(s) && !has_small_unit(s) && !lone_digit_context(
        prev,
        next,
    ) {
        None
    } else if !has_large_unit(s) && !has_small_unit(s) {
        digits_from(s, 0, 0)
    } else {
        large_spec(s)
    }
}

fn is_counter(c: char) -> (b: bool)
    ensures
        b == is_counter_like(c),
{
    c == '章' || c == '回' || c == '位' || c == '番' || c == '月' || c == '日' || c == '年' || c
        == '人' || c == '個' || c == '枚' || c == 'つ' || c == '度'
}

fn parse_kansuji_range(
    chars: &Vec<char>,
    lo: usize,
    hi: usize,
    prev: Option<char>,
    next: Option<char>,
) -> (r: Option<u128>)
    requires
        lo <= hi <= chars.len(),
    ensures
        r matches Some(v) ==> kansuji_value(chars@.subrange(lo as int, hi as int), prev, next)
            == Some(v as int),
        r is None ==> kansuji_value(chars@.subrange(lo as int, hi as int), prev, next) is None,
{
    let ghost s = chars@.subrange(lo as int, hi as int);
    let mut has_digit = false;
    let mut has_small = false;
    let mut has_large = false;
    let mut k: usize = lo;
    while k < hi
        invariant
            lo <= k <= hi <= chars.len(),
            s == chars@.subrange(lo as int, hi as int),
            has_digit <==> exists|i: int| 0 <= i < k - lo && (#[trigger] digit_value_spec(s[i])) is Some,
            has_small <==> exists|i: int| 0 <= i < k - lo && #[trigger] is_small_unit(s[i]),
            has_large <==> exists|i: int| 0 <= i < k - lo && #[trigger] is_large_unit(s[i]),
        decreases hi - k,
    {
        let c = chars[k];
        assert(s[k - lo] == c);
        assert(is_small_unit(s[k - lo]) == (c == '十' || c == '百' || c == '千'));
        assert(is_large_unit(s[k - lo]) == is_large_unit(c));
        assert(digit_value_spec(s[k - lo]) == digit_value_spec(c));
        if digit_value(c).is_some() {
            has_digit = true;
        }
        if c == '十' || c == '百' || c == '千' {
            has_small = true;
        }
        if large_unit(c).is_some() {
            has_large = true;
        }
        k = k + 1;
    }
    assert(has_digit == has_kanji_digit(s));
    assert(has_small == has_small_unit(s));
    assert(has_large == has_large_unit(s));
    if !has_digit && !has_small {
        return None;
    }
    let len: usize = hi - lo;
    if len == 1 && has_large {
        return None;
    }
    if len == 1 && !has_large && !has_small {
        let context_ok = match prev {
            Some(p) => p == '第' || ascii_digit(p),
            None => false,
        } || match next {
            Some(n) => is_counter(n) || ascii_digit(n),
            None => false,
        };
        if !context_ok {
            return None;
        }
    }
    if !has_large && !has_small {
        let mut n: u128 = 0;
        let mut k: usize = lo;
        while k < hi
            invariant
                lo <= k <= hi <= chars.len(),
                s == chars@.subrange(lo as int, hi as int),
                digits_from(s, k - lo, n as int) == digits_from(s, 0, 0),
                kansuji_value(s, prev, next) == digits_from(s, 0, 0),
            decreases hi - k,
        {
            let c = chars[k];
            assert(s[k - lo] == c);
            match digit_value(c) {
                None => {
                    return None;
                },
                Some(d) => match n.checked_mul(10) {
                    None => {
                        return None;
                    },
                    Some(n10) => match n10.checked_add(d) {
                        None => {
                            return None;
                        },
                        Some(m) => {
                            n = m;
                        },
                    },
                },
            }
            k = k + 1;
        }
        return Some(n);
    }
    parse_with_large_units(chars, lo, hi)
}

/// Reads the kanji numeral `s`, found between the characters `prev` and
/// `next`, as a number. Both place-value numerals and digit-by-digit ones
/// (`一二三` → 123) are accepted.
pub fn parse_kansuji(s: &str, prev: Option<char>, next: Option<char>) -> (r: Option<u128>)
    ensures
        r matches Some(v) ==> kansuji_value(s@, prev, next) == Some(v as int),
        r is None ==> kansuji_value(s@, prev, next) is None,
{
    let chars = chars_of(s);
    proof {
        assert(chars@.subrange(0, chars@.len() as int) =~= s@);
    }
    parse_kansuji_range(&chars, 0, chars.len(), prev, next)
}

// ---- Arabic digits mixed with place units (1万2千, 1.5億) ----

/// Digit-by-digit reading of ASCII digits from index `i` with value `n` so
/// far; `None` at a non-digit or when the value exceeds `u128`.
pub open spec fn ascii_digits_from(s: Seq<char>, i: int, n: int) -> Option<int>
    decreases s.len() - i,
{
    if i >= s.len() || i < 0 {
        Some(n)
    } else if !is_ascii_digit(s[i]) {
        None
    } else if n * 10 + ascii_digit_value(s[i]) > max_value() {
        None
    } else {
        ascii_digits_from(s, i + 1, n * 10 + ascii_digit_value(s[i]))
    }
}

/// The index of the first `c` in `s` at `i` or later (`s.len()` if none).
pub open spec fn first_index_from(s: Seq<char>, c: char, i: int) -> int
    decreases s.len() - i,
{
    if i >= s.len() || i < 0 {
        s.len() as int
    } else if s[i] == c {
        i
    } else {
        first_index_from(s, c, i + 1)
    }
}

/// Whether every character of `s` is an ASCII digit.
pub open spec fn all_ascii_digits(s: Seq<char>) -> bool {
    forall|i: int| 0 <= i < s.len() ==> #[trigger] is_ascii_digit(s[i])
}

/// 10 to the power `e`.
pub open spec fn pow10(e: nat) -> int
    decreases e,
{
    if e == 0 {
        1
    } else {
        10 * pow10((e - 1) as nat)
    }
}

/// Reading of a block of digits (ASCII or kanji) and 千 / 百 / 十 from index
/// `i`, `cur_set` telling whether digits are pending in `cur`; the block's
/// value is multiplied by `mult` at the end.
pub open spec fn mixed_small_from(
    t: Seq<char>,
    i: int,
    total: int,
    cur: int,
    cur_set: bool,
    mult: int,
) -> Option<int>
    decreases t.len() - i,
{
    if i >= t.len() || i < 0 {
        if total + cur > max_value() || (total + cur) * mult > max_value() {
            None
        } else {
            Some((total + cur) * mult)
        }
    } else if is_small_unit(t[i]) {
        let add = if cur_set {
            cur * small_unit_value(t[i])
        } else {
            small_unit_value(t[i])
        };
        if total + add > max_value() {
            None
        } else {
            mixed_small_from(t, i + 1, total + add, 0, false, mult)
        }
    } else {
        let d = if is_ascii_digit(t[i]) {
            Some(ascii_digit_value(t[i]))
        } else {
            digit_value_spec(t[i])
        };
        match d {
            None => None,
            Some(d) => if cur * 10 + d > max_value() {
                None
            } else {
                mixed_small_from(t, i + 1, total, cur * 10 + d, true, mult)
            },
        }
    }
}

/// The value of a block below 万 of a mixed numeral, times `mult`. Commas are
/// dropped; a block with a `.` must be `digits.digits`, and its value times
/// `mult` must be a whole number.
pub open spec fn mixed_block_spec(block: Seq<char>, mult: int) -> Option<int> {
    let t = block.filter(|c: char| c != ',');
    let k = first_index_from(t, '.', 0);
    if k < t.len() {
        let ip = t.take(k);
        let fp = t.skip(k + 1);
        if !all_ascii_digits(ip) || !all_ascii_digits(fp) || ip.len() == 0 || fp.len() == 0 {
            None
        } else {
            let e = (fp.len() as int % 0x1_0000_0000) as nat;
            if pow10(e) > max_value() {
                None
            } else {
                match ascii_digits_from(ip + fp, 0, 0) {
                    None => None,
                    Some(digits) => if digits * mult > max_value() {
                        None
                    } else if (digits * mult) % pow10(e) != 0 {
                        None
                    } else {
                        Some((digits * mult) / pow10(e))
                    },
                }
            }
        }
    } else {
        mixed_small_from(t, 0, 0, 0, false, mult)
    }
}

proof fn lemma_pow10_grows(a: nat, b: nat)
    requires
        a <= b,
    ensures
        pow10(a) <= pow10(b),
        pow10(a) >= 1,
    decreases b,
{
    if b > a {
        lemma_pow10_grows(a, (b - 1) as nat);
    } else if a > 0 {
        lemma_pow10_grows((a - 1) as nat, (a - 1) as nat);
    }
}

fn checked_pow10(e: u32) -> (r: Option<u128>)
    ensures
        r matches Some(p) ==> p == pow10(e as nat) && p >= 1,
        r is None ==> pow10(e as nat) > max_value(),
{
    let mut p: u128 = 1;
    let mut j: u32 = 0;
    while j < e
        invariant
            j <= e,
            p == pow10(j as nat),
            p >= 1,
        decreases e - j,
    {
        match p.checked_mul(10) {
            None => {
                proof {
                    lemma_pow10_grows((j + 1) as nat, e as nat);
                }
                return None;
            },
            Some(q) => {
                p = q;
            },
        }
        j = j + 1;
    }
    Some(p)
}

#[verifier::loop_isolation(false)]
fn parse_mixed_block(chars: &Vec<char>, lo: usize, hi: usize, mult: u128) -> (r: Option<u128>)
    requires
        lo <= hi <= chars.len(),
    ensures
        r matches Some(v) ==> mixed_block_spec(chars@.subrange(lo as int, hi as int), mult as int)
            == Some(v as int),
        r is None ==> mixed_block_spec(chars@.subrange(lo as int, hi as int), mult as int) is None,
{
    let ghost block = chars@.subrange(lo as int, hi as int);
    let ghost no_comma = |c: char| c != ',';
    let mut t: Vec<char> = Vec::new();
    let mut k: usize = lo;
    while k < hi
        invariant
            lo <= k <= hi <= chars.len(),
            block == chars@.subrange(lo as int, hi as int),
            no_comma == (|c: char| c != ','),
            t@ == block.take(k - lo).filter(no_comma),
        decreases hi - k,
    {
        let c = chars[k];
        proof {
            assert(block.take(k - lo + 1) =~= block.take(k - lo).push(c));
            block.take(k - lo).lemma_filter_push(c, no_comma);
        }
        if c != ',' {
            t.push(c);
        }
        k = k + 1;
    }
    proof {
        assert(block.take(hi - lo) =~= block);
    }
    let ghost ts = t@;
    assert(ts == block.filter(|c: char| c != ','));
    // the first '.'
    let mut dot: usize = 0;
    while dot < t.len() && t[dot] != '.'
        invariant
            dot <= t.len(),
            ts == t@,
            first_index_from(ts, '.', dot as int) == first_index_from(ts, '.', 0),
        decreases t.len() - dot,
    {
        dot = dot + 1;
    }
    if dot < t.len() {
        let ghost ip = ts.take(dot as int);
        let ghost fp = ts.skip(dot + 1);
        let frac_len: usize = t.len() - dot - 1;
        if dot == 0 || frac_len == 0 {
            return None;
        }
        let mut j: usize = 0;
        while j < t.len()
            invariant
                j <= t.len(),
                ts == t@,
                dot < t.len(),
                forall|m: int| 0 <= m < j && m != dot ==> #[trigger] is_ascii_digit(ts[m]),
            decreases t.len() - j,
        {
            if j != dot && !ascii_digit(t[j]) {
                proof {
                    if j < dot {
                        assert(ip[j as int] == ts[j as int]);
                        assert(!all_ascii_digits(ip));
                    } else {
                        assert(fp[j - dot - 1] == ts[j as int]);
                        assert(!all_ascii_digits(fp));
                    }
                }
                return None;
            }
            j = j + 1;
        }
        proof {
            assert forall|m: int| 0 <= m < ip.len() implies #[trigger] is_ascii_digit(ip[m]) by {
                assert(ip[m] == ts[m]);
            }
            assert forall|m: int| 0 <= m < fp.len() implies #[trigger] is_ascii_digit(fp[m]) by {
                assert(fp[m] == ts[m + dot + 1]);
            }
        }
        let e: u32 = ((frac_len as u64) % 4294967296u64) as u32;
        let scale = match checked_pow10(e) {
            None => {
                return None;
            },
            Some(p) => p,
        };
        // the digits of int_part followed by frac_part
        let ghost joined = ip + fp;
        let mut digits: u128 = 0;
        let mut j: usize = 0;
        let mut q: usize = 0;
        while j < t.len()
            invariant
                j <= t.len(),
                ts == t@,
                dot < t.len(),
                joined == ip + fp,
                ip == ts.take(dot as int),
                fp == ts.skip(dot + 1),
                q == (if j <= dot { j as int } else { j - 1 }),
                all_ascii_digits(ip),
                all_ascii_digits(fp),
                ascii_digits_from(joined, q as int, digits as int) == ascii_digits_from(
                    joined,
                    0,
                    0,
                ),
            decreases t.len() - j,
        {
            if j != dot {
                let c = t[j];
                proof {
                    if j < dot {
                        assert(joined[q as int] == c);
                    } else {
                        assert(joined[q as int] == fp[j - dot - 1]);
                    }
                }
                let d = ((c as u32) - ('0' as u32)) as u128;
                match digits.checked_mul(10) {
                    None => {
                        return None;
                    },
                    Some(d10) => match d10.checked_add(d) {
                        None => {
                            return None;
                        },
                        Some(n) => {
                            digits = n;
                        },
                    },
                }
                q = q + 1;
            }
            j = j + 1;
        }
        let scaled = match digits.checked_mul(mult) {
            None => {
                return None;
            },
            Some(v) => v,
        };
        if scaled % scale != 0 {
            return None;
        }
        return Some(scaled / scale);
    }
    // 十 / 百 / 千 with digits
    let mut total: u128 = 0;
    let mut cur: u128 = 0;
    let mut cur_set = false;
    let mut j: usize = 0;
    while j < t.len()
        invariant
            j <= t.len(),
            ts == t@,
            mixed_small_from(ts, j as int, total as int, cur as int, cur_set, mult as int)
                == mixed_block_spec(block, mult as int),
        decreases t.len() - j,
    {
        let c = t[j];
        if c == '千' || c == '百' || c == '十' {
            let unit: u128 = if c == '千' {
                1000
            } else if c == '百' {
                100
            } else {
                10
            };
            let add = if cur_set {
                match cur.checked_mul(unit) {
                    Some(v) => v,
                    None => {
                        return None;
                    },
                }
            } else {
                unit
            };
            match total.checked_add(add) {
                Some(v) => {
                    total = v;
                },
                None => {
                    return None;
                },
            }
            cur = 0;
            cur_set = false;
        } else {
            let d: u128 = if ascii_digit(c) {
                ((c as u32) - ('0' as u32)) as u128
            } else {
                match digit_value(c) {
                    Some(d) => d,
                    None => {
                        return None;
                    },
                }
            };
            match cur.checked_mul(10) {
                None => {
                    return None;
                },
                Some(c10) => match c10.checked_add(d) {
                    None => {
                        return None;
                    },
                    Some(n) => {
                        cur = n;
                    },
                },
            }
            cur_set = true;
        }
        j = j + 1;
    }
    match total.checked_add(cur) {
        None => None,
        Some(v) => v.checked_mul(mult),
    }
}

/// Reading of a mixed numeral from index `i`: `total` so far, the pending
/// block `s[start..i]`, `saw_unit` telling whether a place unit was seen.
/// At 万 / 億 / 兆 / 京 the block times the unit is added (1 when the block
/// is empty); at the end the last block is added. Without any place unit
/// (`1一`, say) there is no number.
pub open spec fn mixed_from(s: Seq<char>, i: int, total: int, start: int, saw_unit: bool) -> Option<
    int,
>
    decreases s.len() - i,
{
    if i >= s.len() || i < 0 {
        if start < s.len() {
            let b = s.subrange(start, s.len() as int);
            match mixed_block_spec(b, 1) {
                None => None,
                Some(v) => if total + v > max_value() {
                    None
                } else if !(saw_unit || has_small_unit(b)) {
                    None
                } else {
                    Some(total + v)
                },
            }
        } else if !saw_unit {
            None
        } else {
            Some(total)
        }
    } else if is_large_unit(s[i]) {
        let value = if start == i {
            Some(1int)
        } else {
            mixed_block_spec(s.subrange(start, i), large_unit_value(s[i]))
        };
        match value {
            None => None,
            Some(v) => if total + v > max_value() {
                None
            } else {
                mixed_from(s, i + 1, total + v, i + 1, true)
            },
        }
    } else {
        mixed_from(s, i + 1, total, start, saw_unit)
    }
}

/// The value of a run mixing Arabic digits and place units (see [`mixed_from`]).
pub open spec fn mixed_value(s: Seq<char>) -> Option<int> {
    mixed_from(s, 0, 0, 0, false)
}

fn parse_mixed(chars: &Vec<char>, lo: usize, hi: usize) -> (r: Option<u128>)
    requires
        lo <= hi <= chars.len(),
    ensures
        r matches Some(v) ==> mixed_value(chars@.subrange(lo as int, hi as int)) == Some(v as int),
        r is None ==> mixed_value(chars@.subrange(lo as int, hi as int)) is None,
{
    let ghost s = chars@.subrange(lo as int, hi as int);
    let mut total: u128 = 0;
    let mut start: usize = lo;
    let mut saw_unit = false;
    let mut k: usize = lo;
    while k < hi
        invariant
            lo <= start <= k <= hi <= chars.len(),
            s == chars@.subrange(lo as int, hi as int),
            mixed_from(s, k - lo, total as int, start - lo, saw_unit) == mixed_value(s),
        decreases hi - k,
    {
        let c = chars[k];
        assert(s[k - lo] == c);
        match large_unit(c) {
            Some(mult) => {
                saw_unit = true;
                let value: u128 = if start == k {
                    1
                } else {
                    proof {
                        assert(s.subrange(start - lo, k - lo) =~= chars@.subrange(
                            start as int,
                            k as int,
                        ));
                    }
                    match parse_mixed_block(chars, start, k, mult) {
                        Some(v) => v,
                        None => {
                            return None;
                        },
                    }
                };
                match total.checked_add(value) {
                    None => {
                        return None;
                    },
                    Some(t) => {
                        total = t;
                    },
                }
                start = k + 1;
            },
            None => {},
        }
        k = k + 1;
    }
    if start < hi {
        let ghost b = s.subrange(start - lo, s.len() as int);
        proof {
            assert(b =~= chars@.subrange(start as int, hi as int));
        }
        let mut small = false;
        let mut m: usize = start;
        while m < hi
            invariant
                start <= m <= hi <= chars.len(),
                b == chars@.subrange(start as int, hi as int),
                small <==> exists|x: int| 0 <= x < m - start && #[trigger] is_small_unit(b[x]),
            decreases hi - m,
        {
            let c = chars[m];
            assert(b[m - start] == c);
            assert(is_small_unit(b[m - start]) == (c == '十' || c == '百' || c == '千'));
            if c == '十' || c == '百' || c == '千' {
                small = true;
            }
            m = m + 1;
        }
        assert(small == has_small_unit(b));
        let v = match parse_mixed_block(chars, start, hi, 1) {
            None => {
                return None;
            },
            Some(v) => v,
        };
        match total.checked_add(v) {
            None => None,
            Some(t) => if !(saw_unit || small) {
                None
            } else {
                Some(t)
            },
        }
    } else if !saw_unit {
        None
    } else {
        Some(total)
    }
}

// ---- scanning runs in text ----

/// Whether the character at `i` belongs to a numeric run: a kanji numeral or
/// an ASCII digit; a `.` between ASCII digits; or a `,` after an ASCII digit
/// followed by exactly three ASCII digits.
pub open spec fn run_continues(s: Seq<char>, i: int) -> bool {
    let c = s[i];
    let prev_digit = i > 0 && is_ascii_digit(s[i - 1]);
    ||| is_kansuji_spec(c) || is_ascii_digit(c)
    ||| c == '.' && prev_digit && i + 1 < s.len() && is_ascii_digit(s[i + 1])
    ||| c == ',' && prev_digit && i + 3 < s.len() && is_ascii_digit(s[i + 1]) && is_ascii_digit(
        s[i + 2],
    ) && is_ascii_digit(s[i + 3]) && !(i + 4 < s.len() && is_ascii_digit(s[i + 4]))
}

/// Where the numeric run continuing at `j` ends.
pub open spec fn run_end(s: Seq<char>, j: int) -> int
    decreases s.len() - j,
{
    if 0 <= j < s.len() && run_continues(s, j) {
        run_end(s, j + 1)
    } else {
        j
    }
}

pub proof fn lemma_run_end_bounds(s: Seq<char>, j: int)
    requires
        0 <= j <= s.len(),
    ensures
        j <= run_end(s, j) <= s.len(),
    decreases s.len() - j,
{
    if 0 <= j < s.len() && run_continues(s, j) {
        lemma_run_end_bounds(s, j + 1);
    }
}

fn scan_numeric_run(chars: &Vec<char>, start: usize) -> (end: usize)
    requires
        start <= chars.len(),
    ensures
        end == run_end(chars@, start as int),
        start <= end <= chars.len(),
{
    proof {
        lemma_run_end_bounds(chars@, start as int);
    }
    let ghost s = chars@;
    let mut i: usize = start;
    while i < chars.len()
        invariant
            start <= i <= chars.len(),
            s == chars@,
            run_end(s, i as int) == run_end(s, start as int),
        ensures
            start <= i <= chars.len(),
            run_end(s, i as int) == run_end(s, start as int),
            run_end(s, i as int) == i,
        decreases chars.len() - i,
    {
        let c = chars[i];
        if is_kansuji(c) || ascii_digit(c) {
            i = i + 1;
            continue;
        }
        let prev_digit = i > 0 && ascii_digit(chars[i - 1]);
        if c == '.' && prev_digit && i + 1 < chars.len() && ascii_digit(chars[i + 1]) {
            i = i + 1;
            continue;
        }
        if c == ',' && prev_digit && chars.len() - i > 3 && ascii_digit(chars[i + 1])
            && ascii_digit(chars[i + 2]) && ascii_digit(chars[i + 3]) && !(chars.len() - i > 4
            && ascii_digit(chars[i + 4])) {
            i = i + 1;
            continue;
        }
        assert(!run_continues(s, i as int));
        break;
    }
    i
}

/// The ASCII digit for `d` (0..9).
pub open spec fn digit_char(d: int) -> char {
    if d == 0 {
        '0'
    } else if d == 1 {
        '1'
    } else if d == 2 {
        '2'
    } else if d == 3 {
        '3'
    } else if d == 4 {
        '4'
    } else if d == 5 {
        '5'
    } else if d == 6 {
        '6'
    } else if d == 7 {
        '7'
    } else if d == 8 {
        '8'
    } else {
        '9'
    }
}

fn digit_char_exec(d: u128) -> (c: char)
    requires
        d < 10,
    ensures
        c == digit_char(d as int),
{
    if d == 0 {
        '0'
    } else if d == 1 {
        '1'
    } else if d == 2 {
        '2'
    } else if d == 3 {
        '3'
    } else if d == 4 {
        '4'
    } else if d == 5 {
        '5'
    } else if d == 6 {
        '6'
    } else if d == 7 {
        '7'
    } else if d == 8 {
        '8'
    } else {
        '9'
    }
}

/// The decimal digits of `n`, without leading zeros.
pub open spec fn decimal(n: nat) -> Seq<char>
    decreases n,
{
    if n < 10 {
        seq![digit_char(n as int)]
    } else {
        decimal(n / 10).push(digit_char((n % 10) as int))
    }
}

/// Appends the decimal digits of `n`.
pub fn push_decimal(out: &mut Vec<char>, n: u128)
    ensures
        final(out)@ == old(out)@ + decimal(n as nat),
    decreases n,
{
    if n >= 10 {
        push_decimal(out, n / 10);
    }
    out.push(digit_char_exec(n % 10));
    proof {
        if n >= 10 {
            assert(decimal(n as nat) == decimal((n / 10) as nat).push(digit_char((n % 10) as int)));
        }
    }
}

/// Whether some character of `s` is a kanji numeral.
pub open spec fn has_kansuji(s: Seq<char>) -> bool {
    exists|i: int| 0 <= i < s.len() && #[trigger] is_kansuji_spec(s[i])
}

/// Whether some character of `s` is an ASCII digit.
pub open spec fn has_ascii_digit(s: Seq<char>) -> bool {
    exists|i: int| 0 <= i < s.len() && #[trigger] is_ascii_digit(s[i])
}

/// The number that the run `s[start..end]` stands for, if any: none without
/// a kanji numeral; a pure kanji run is read with its neighbours as context;
/// a mixed run as digits with place units.
pub open spec fn run_value(s: Seq<char>, start: int, end: int) -> Option<int> {
    let run = s.subrange(start, end);
    if !has_kansuji(run) {
        None
    } else if !has_ascii_digit(run) {
        kansuji_value(
            run,
            if start == 0 { None } else { Some(s[start - 1]) },
            if end < s.len() { Some(s[end]) } else { None },
        )
    } else {
        mixed_value(run)
    }
}

/// Kanji-to-Arabic conversion of `s` from index `i`: characters outside
/// numeric runs are kept; each run becomes the decimal digits of its value,
/// or stays as it is when it has none.
pub open spec fn k2a_from(s: Seq<char>, i: int) -> Seq<char>
    decreases s.len() - i,
{
    if i >= s.len() || i < 0 {
        seq![]
    } else if !(is_kansuji_spec(s[i]) || is_ascii_digit(s[i])) {
        seq![s[i]] + k2a_from(s, i + 1)
    } else {
        let end = run_end(s, i + 1);
        proof {
            lemma_run_end_bounds(s, i + 1);
        }
        let piece = match run_value(s, i, end) {
            Some(v) => decimal(v as nat),
            None => s.subrange(i, end),
        };
        piece + k2a_from(s, end)
    }
}

/// Kanji-to-Arabic conversion of the whole of `s`.
pub open spec fn kansuji_to_arabic_spec(s: Seq<char>) -> Seq<char> {
    k2a_from(s, 0)
}

/// Replaces each run of kanji numerals in `input` by Arabic digits.
///
/// Besides pure kanji numerals (`一千二百三十四`), runs that mix Arabic digits
/// with place units (`1万2千`, `1.5億`, `12万3456`, `1,200万`, `3千円`) are read
/// as one number. Pure Arabic numbers are left alone.
pub fn kansuji_to_arabic(input: &str) -> (out: String)
    ensures
        out@ == kansuji_to_arabic_spec(input@),
{
    let chars = chars_of(input);
    let ghost s = chars@;
    let mut out: Vec<char> = Vec::new();
    let mut i: usize = 0;
    while i < chars.len()
        invariant
            i <= chars.len(),
            s == chars@,
            out@ + k2a_from(s, i as int) == kansuji_to_arabic_spec(s),
        decreases chars.len() - i,
    {
        let c = chars[i];
        if !(is_kansuji(c) || ascii_digit(c)) {
            out.push(c);
            i = i + 1;
            continue;
        }
        let start = i;
        let end = scan_numeric_run(&chars, start + 1);
        let ghost run = s.subrange(start as int, end as int);
        let mut has_k = false;
        let mut has_a = false;
        let mut m: usize = start;
        while m < end
            invariant
                start <= m <= end <= chars.len(),
                run == chars@.subrange(start as int, end as int),
                has_k <==> exists|x: int| 0 <= x < m - start && #[trigger] is_kansuji_spec(run[x]),
                has_a <==> exists|x: int| 0 <= x < m - start && #[trigger] is_ascii_digit(run[x]),
            decreases end - m,
        {
            let d = chars[m];
            assert(run[m - start] == d);
            if is_kansuji(d) {
                has_k = true;
            }
            if ascii_digit(d) {
                has_a = true;
            }
            m = m + 1;
        }
        assert(has_k == has_kansuji(run));
        assert(has_a == has_ascii_digit(run));
        let replaced = if !has_k {
            None
        } else if !has_a {
            let prev = if start == 0 {
                None
            } else {
                Some(chars[start - 1])
            };
            let next = if end < chars.len() {
                Some(chars[end])
            } else {
                None
            };
            parse_kansuji_range(&chars, start, end, prev, next)
        } else {
            parse_mixed(&chars, start, end)
        };
        match replaced {
            Some(v) => {
                push_decimal(&mut out, v);
            },
            None => {
                push_all(&mut out, &chars.as_slice()[start..end]);
            },
        }
        proof {
            assert(chars@.subrange(start as int, end as int) == run);
        }
        i = end;
    }
    proof {
        assert(out@ + Seq::<char>::empty() =~= out@);
    }
    string_of(&out)
}

// ---- Arabic digits to kanji numerals ----

/// The kanji digit for `d` (0..9).
pub open spec fn kanji_digit(d: int) -> char {
    if d == 0 {
        '〇'
    } else if d == 1 {
        '一'
    } else if d == 2 {
        '二'
    } else if d == 3 {
        '三'
    } else if d == 4 {
        '四'
    } else if d == 5 {
        '五'
    } else if d == 6 {
        '六'
    } else if d == 7 {
        '七'
    } else if d == 8 {
        '八'
    } else {
        '九'
    }
}

fn kanji_digit_exec(d: u128) -> (c: char)
    requires
        d < 10,
    ensures
        c == kanji_digit(d as int),
{
    if d == 0 {
        '〇'
    } else if d == 1 {
        '一'
    } else if d == 2 {
        '二'
    } else if d == 3 {
        '三'
    } else if d == 4 {
        '四'
    } else if d == 5 {
        '五'
    } else if d == 6 {
        '六'
    } else if d == 7 {
        '七'
    } else if d == 8 {
        '八'
    } else {
        '九'
    }
}

/// One place of a number below 万 with `d` of `unit`: nothing for 0, the
/// unit alone for 1 (千, not 一千), the digit and the unit otherwise.
pub open spec fn place_spec(d: int, unit: char) -> Seq<char> {
    if d == 0 {
        seq![]
    } else if d == 1 {
        seq![unit]
    } else {
        seq![kanji_digit(d), unit]
    }
}

/// The kanji numeral of `n` below 万 (empty for 0): 千, 百 and 十 places,
/// then the ones digit.
pub open spec fn format_small_spec(n: int) -> Seq<char> {
    place_spec(n / 1000, '千') + place_spec((n % 1000) / 100, '百') + place_spec(
        (n % 100) / 10,
        '十',
    ) + if n % 10 > 0 {
        seq![kanji_digit(n % 10)]
    } else {
        seq![]
    }
}

fn push_place(out: &mut Vec<char>, d: u128, unit: char)
    requires
        d < 10,
    ensures
        final(out)@ == old(out)@ + place_spec(d as int, unit),
{
    if d > 0 {
        if d > 1 {
            out.push(kanji_digit_exec(d));
        }
        out.push(unit);
    }
}

fn push_small(out: &mut Vec<char>, n: u128)
    requires
        n < 10000,
    ensures
        final(out)@ == old(out)@ + format_small_spec(n as int),
{
    let ghost o = out@;
    push_place(out, n / 1000, '千');
    push_place(out, (n % 1000) / 100, '百');
    push_place(out, (n % 100) / 10, '十');
    if n % 10 > 0 {
        out.push(kanji_digit_exec(n % 10));
    }
    proof {
        assert(out@ =~= o + format_small_spec(n as int));
    }
}

/// A block before a large unit: nothing when the block is 0, else the block
/// and the unit.
pub open spec fn block_spec(b: int, unit: char) -> Seq<char> {
    if b > 0 {
        format_small_spec(b) + seq![unit]
    } else {
        seq![]
    }
}

/// Numbers from this bound up have no kanji form here: the block before 京
/// would not fit below 万.
pub open spec fn kanji_limit() -> int {
    100000000000000000000
}

/// The kanji numeral of `n` in blocks of four digits: `1234` → 千二百三十四,
/// `350000000` → 三億五千万, `0` → 〇.
pub open spec fn format_kansuji_spec(n: int) -> Seq<char> {
    if n == 0 {
        seq!['〇']
    } else {
        let r16 = n % 10000000000000000;
        let r12 = r16 % 1000000000000;
        let r8 = r12 % 100000000;
        block_spec(n / 10000000000000000, '京') + block_spec(r16 / 1000000000000, '兆')
            + block_spec(r12 / 100000000, '億') + block_spec(r8 / 10000, '万')
            + format_small_spec(r8 % 10000)
    }
}

fn push_block(out: &mut Vec<char>, b: u128, unit: char)
    requires
        b < 10000,
    ensures
        final(out)@ == old(out)@ + block_spec(b as int, unit),
{
    if b > 0 {
        push_small(out, b);
        out.push(unit);
    }
}

fn push_kansuji(out: &mut Vec<char>, n: u128)
    requires
        n < kanji_limit(),
    ensures
        final(out)@ == old(out)@ + format_kansuji_spec(n as int),
{
    let ghost o = out@;
    if n == 0 {
        out.push('〇');
        return;
    }
    let r16 = n % 10000000000000000;
    let r12 = r16 % 1000000000000;
    let r8 = r12 % 100000000;
    push_block(out, n / 10000000000000000, '京');
    push_block(out, r16 / 1000000000000, '兆');
    push_block(out, r12 / 100000000, '億');
    push_block(out, r8 / 10000, '万');
    push_small(out, r8 % 10000);
    proof {
        assert(out@ =~= o + format_kansuji_spec(n as int));
    }
}

/// The kanji numeral of `n` (see [`format_kansuji_spec`]).
pub fn format_kansuji(n: u128) -> (out: String)
    requires
        n < kanji_limit(),
    ensures
        out@ == format_kansuji_spec(n as int),
{
    let mut v: Vec<char> = Vec::new();
    push_kansuji(&mut v, n);
    proof {
        assert(v@ =~= format_kansuji_spec(n as int));
    }
    string_of(&v)
}

/// The value of a string of ASCII digits, leading zeros allowed.
pub open spec fn decimal_value(s: Seq<char>) -> int
    decreases s.len(),
{
    if s.len() == 0 {
        0
    } else {
        decimal_value(s.drop_last()) * 10 + ascii_digit_value(s.last())
    }
}

/// Where the run of ASCII digits continuing at `j` ends.
pub open spec fn digit_run_end(s: Seq<char>, j: int) -> int
    decreases s.len() - j,
{
    if 0 <= j < s.len() && is_ascii_digit(s[j]) {
        digit_run_end(s, j + 1)
    } else {
        j
    }
}

pub proof fn lemma_digit_run_end_bounds(s: Seq<char>, j: int)
    requires
        0 <= j <= s.len(),
    ensures
        j <= digit_run_end(s, j) <= s.len(),
    decreases s.len() - j,
{
    if 0 <= j < s.len() && is_ascii_digit(s[j]) {
        lemma_digit_run_end_bounds(s, j + 1);
    }
}

/// Arabic-to-kanji conversion of `s` from index `i`: each run of ASCII digits
/// becomes the kanji numeral of its value; a run whose value exceeds `u128`
/// stays as it is. `None` when a run's value lies from [`kanji_limit`] up to
/// `u128::MAX`: such a number has no kanji form here.
pub open spec fn a2k_from(s: Seq<char>, i: int) -> Option<Seq<char>>
    decreases s.len() - i,
{
    if i >= s.len() || i < 0 {
        Some(seq![])
    } else if !is_ascii_digit(s[i]) {
        match a2k_from(s, i + 1) {
            Some(r) => Some(seq![s[i]] + r),
            None => None,
        }
    } else {
        let end = digit_run_end(s, i + 1);
        proof {
            lemma_digit_run_end_bounds(s, i + 1);
        }
        let v = decimal_value(s.subrange(i, end));
        let piece = if v > max_value() {
            Some(s.subrange(i, end))
        } else if v < kanji_limit() {
            Some(format_kansuji_spec(v))
        } else {
            None
        };
        match (piece, a2k_from(s, end)) {
            (Some(p), Some(r)) => Some(p + r),
            _ => None,
        }
    }
}

/// A digit run from `start` to `end` whose value is at least
/// [`kanji_limit`] and fits in `u128` has no kanji form.
proof fn lemma_a2k_no_form(s: Seq<char>, start: int, end: int)
    requires
        0 <= start < end <= s.len(),
        is_ascii_digit(s[start]),
        end == digit_run_end(s, start + 1),
        kanji_limit() <= decimal_value(s.subrange(start, end)) <= max_value(),
    ensures
        a2k_from(s, start) is None,
{
}

/// A digit run from `start` to `end` that stays as it is or has a kanji form
/// leaves the conversion's success to the rest of `s`.
proof fn lemma_a2k_run(s: Seq<char>, start: int, end: int)
    requires
        0 <= start < end <= s.len(),
        is_ascii_digit(s[start]),
        end == digit_run_end(s, start + 1),
        decimal_value(s.subrange(start, end)) > max_value() || decimal_value(
            s.subrange(start, end),
        ) < kanji_limit(),
    ensures
        (a2k_from(s, start) is Some) == (a2k_from(s, end) is Some),
{
}

/// Arabic-to-kanji conversion of the whole of `s`.
pub open spec fn arabic_to_kansuji_spec(s: Seq<char>) -> Option<Seq<char>> {
    a2k_from(s, 0)
}

/// Replaces each run of ASCII digits in `input` by its kanji numeral, with
/// place units in blocks of four digits: `1234` → 千二百三十四, `0` → 〇.
/// A run too long for `u128` stays as it is; a number from 10^20 up to
/// `u128::MAX` has no kanji form, and such an input is not accepted.
pub fn arabic_to_kansuji(input: &str) -> (out: String)
    requires
        arabic_to_kansuji_spec(input@) is Some,
    ensures
        Some(out@) == arabic_to_kansuji_spec(input@),
{
    let chars = chars_of(input);
    let ghost s = chars@;
    let mut out: Vec<char> = Vec::new();
    let mut i: usize = 0;
    while i < chars.len()
        invariant
            i <= chars.len(),
            s == chars@,
            a2k_from(s, i as int) is Some,
            Some(out@ + a2k_from(s, i as int).unwrap()) == arabic_to_kansuji_spec(s),
        decreases chars.len() - i,
    {
        if !ascii_digit(chars[i]) {
            let c = chars[i];
            let ghost before = out@;
            out.push(c);
            proof {
                assert(out@ + a2k_from(s, i + 1).unwrap() =~= before + (seq![c] + a2k_from(
                    s,
                    i + 1,
                ).unwrap()));
            }
            i = i + 1;
            continue;
        }
        let start = i;
        proof {
            lemma_digit_run_end_bounds(s, start + 1);
        }
        let mut v: u128 = 0;
        let mut overflow = false;
        while i < chars.len() && ascii_digit(chars[i])
            invariant
                start <= i <= chars.len(),
                s == chars@,
                i > start || is_ascii_digit(s[start as int]),
                digit_run_end(s, i as int) == digit_run_end(s, start + 1),
                overflow ==> decimal_value(s.subrange(start as int, i as int)) > max_value(),
                !overflow ==> v == decimal_value(s.subrange(start as int, i as int)),
            decreases chars.len() - i,
        {
            let d: u128 = ((chars[i] as u32) - ('0' as u32)) as u128;
            proof {
                assert(s.subrange(start as int, i + 1).drop_last() =~= s.subrange(
                    start as int,
                    i as int,
                ));
            }
            if !overflow {
                match v.checked_mul(10) {
                    Some(v10) => match v10.checked_add(d) {
                        Some(w) => {
                            v = w;
                        },
                        None => {
                            overflow = true;
                        },
                    },
                    None => {
                        overflow = true;
                    },
                }
            }
            i = i + 1;
        }
        let ghost run = s.subrange(start as int, i as int);
        let ghost before = out@;
        assert(i == digit_run_end(s, start + 1));
        if overflow {
            push_all(&mut out, &chars.as_slice()[start..i]);
            assert(chars@.subrange(start as int, i as int) == run);
        } else if v < 100000000000000000000 {
            push_kansuji(&mut out, v);
        } else {
            assert(false);
        }
        proof {
            assert(out@ + a2k_from(s, i as int).unwrap() =~= before + (
            (out@.subrange(before.len() as int, out@.len() as int)) + a2k_from(
                s,
                i as int,
            ).unwrap()));
        }
    }
    proof {
        assert(out@ + Seq::<char>::empty() =~= out@);
    }
    string_of(&out)
}

/// Whether every digit run of `input` has a kanji form or stays as it is,
/// i.e. whether [`arabic_to_kansuji`] accepts `input`.
pub fn has_kansuji_form(input: &str) -> (b: bool)
    ensures
        b == (arabic_to_kansuji_spec(input@) is Some),
{
    let chars = chars_of(input);
    let ghost s = chars@;
    let mut i: usize = 0;
    while i < chars.len()
        invariant
            i <= chars.len(),
            s == chars@,
            s == input@,
            (a2k_from(s, 0) is Some) == (a2k_from(s, i as int) is Some),
        decreases chars.len() - i,
    {
        if !ascii_digit(chars[i]) {
            i = i + 1;
            continue;
        }
        let start = i;
        assert((a2k_from(s, 0) is Some) == (a2k_from(s, start as int) is Some));
        proof {
            lemma_digit_run_end_bounds(s, start + 1);
        }
        let mut v: u128 = 0;
        let mut overflow = false;
        while i < chars.len() && ascii_digit(chars[i])
            invariant
                start <= i <= chars.len(),
                s == chars@,
                i > start || is_ascii_digit(s[start as int]),
                digit_run_end(s, i as int) == digit_run_end(s, start + 1),
                overflow ==> decimal_value(s.subrange(start as int, i as int)) > max_value(),
                !overflow ==> v == decimal_value(s.subrange(start as int, i as int)),
            decreases chars.len() - i,
        {
            let d: u128 = ((chars[i] as u32) - ('0' as u32)) as u128;
            proof {
                assert(s.subrange(start as int, i + 1).drop_last() =~= s.subrange(
                    start as int,
                    i as int,
                ));
            }
            if !overflow {
                match v.checked_mul(10) {
                    Some(v10) => match v10.checked_add(d) {
                        Some(w) => {
                            v = w;
                        },
                        None => {
                            overflow = true;
                        },
                    },
                    None => {
                        overflow = true;
                    },
                }
            }
            i = i + 1;
        }
        assert(i == digit_run_end(s, start + 1));
        if !overflow && v >= 100000000000000000000 {
            proof {
                lemma_a2k_no_form(s, start as int, i as int);
            }
            return false;
        }
        proof {
            lemma_a2k_run(s, start as int, i as int);
        }
    }
    true
}

/// [`arabic_to_kansuji`] on every input: `None` exactly where it does not
/// accept the input.
pub fn arabic_to_kansuji_checked(input: &str) -> (r: Option<String>)
    ensures
        r is None <==> arabic_to_kansuji_spec(input@) is None,
        r matches Some(out) ==> Some(out@) == arabic_to_kansuji_spec(input@),
{
    if has_kansuji_form(input) {
        Some(arabic_to_kansuji(input))
    } else {
        None
    }
}

} // verus!
