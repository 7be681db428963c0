//! Japanese era years to Western years.
//!
//! `令和6年`, `令和六年`, `令和元年`, `R6年` and `H30年` become `2024年`,
//! `2018年`, … so that the same year reads the same for comparison and
//! search. A `年` without an era is left alone.
//!
//! The one-letter abbreviations (M / T / S / H / R) are read only when the
//! character before is no ASCII letter or digit and `年` follows (`R6年` is
//! read; `PR6年` and a lone `R6` are not).
use vstd::prelude::*;
use crate::text::{chars_of, string_of, is_ascii_digit, is_ascii_alnum, ascii_digit, ascii_alnum};
use crate::l2_script::numerals::{decimal, decimal_value, push_decimal, kanji_digit};
use crate::l2_script::numeral_laws::lemma_decimal_digits;

verus! {

/// The number of eras known here: 明治, 大正, 昭和, 平成, 令和.
pub open spec fn era_count() -> int {
    5
}

/// The name of era `e`.
pub open spec fn era_name(e: int) -> Seq<char> {
    if e == 0 {
        seq!['明', '治']
    } else if e == 1 {
        seq!['大', '正']
    } else if e == 2 {
        seq!['昭', '和']
    } else if e == 3 {
        seq!['平', '成']
    } else {
        seq!['令', '和']
    }
}

/// The one-letter abbreviation of era `e`.
pub open spec fn era_abbr(e: int) -> char {
    if e == 0 {
        'M'
    } else if e == 1 {
        'T'
    } else if e == 2 {
        'S'
    } else if e == 3 {
        'H'
    } else {
        'R'
    }
}

/// The Western year of the first year (元年) of era `e`.
pub open spec fn era_base(e: int) -> int {
    if e == 0 {
        1868
    } else if e == 1 {
        1912
    } else if e == 2 {
        1926
    } else if e == 3 {
        1989
    } else {
        2019
    }
}

/// The last year of era `e` that is accepted.
pub open spec fn era_max(e: int) -> int {
    if e == 0 {
        45
    } else if e == 1 {
        15
    } else if e == 2 {
        64
    } else if e == 3 {
        31
    } else {
        99
    }
}

fn era_info(e: usize) -> (r: (char, char, char, u32, u32))
    requires
        e < 5,
    ensures
        seq![r.0, r.1] == era_name(e as int),
        r.2 == era_abbr(e as int),
        r.3 == era_base(e as int),
        r.4 == era_max(e as int),
{
    if e == 0 {
        ('明', '治', 'M', 1868, 45)
    } else if e == 1 {
        ('大', '正', 'T', 1912, 15)
    } else if e == 2 {
        ('昭', '和', 'S', 1926, 64)
    } else if e == 3 {
        ('平', '成', 'H', 1989, 31)
    } else {
        ('令', '和', 'R', 2019, 99)
    }
}

/// A kanji digit 一 … 九 and its value.
pub open spec fn year_digit(c: char) -> Option<int> {
    if c == '一' {
        Some(1)
    } else if c == '二' {
        Some(2)
    } else if c == '三' {
        Some(3)
    } else if c == '四' {
        Some(4)
    } else if c == '五' {
        Some(5)
    } else if c == '六' {
        Some(6)
    } else if c == '七' {
        Some(7)
    } else if c == '八' {
        Some(8)
    } else if c == '九' {
        Some(9)
    } else {
        None
    }
}

fn year_digit_exec(c: char) -> (r: Option<u32>)
    ensures
        r matches Some(d) ==> year_digit(c) == Some(d as int),
        r is None ==> year_digit(c) is None,
{
    if c == '一' {
        Some(1)
    } else if c == '二' {
        Some(2)
    } else if c == '三' {
        Some(3)
    } else if c == '四' {
        Some(4)
    } else if c == '五' {
        Some(5)
    } else if c == '六' {
        Some(6)
    } else if c == '七' {
        Some(7)
    } else if c == '八' {
        Some(8)
    } else if c == '九' {
        Some(9)
    } else {
        None
    }
}

/// The kanji digit at `p`, if there is one.
pub open spec fn year_digit_at(s: Seq<char>, p: int) -> Option<int> {
    if 0 <= p < s.len() {
        year_digit(s[p])
    } else {
        None
    }
}

/// Reading of the year number at `pos`, with the index after it: `元` (only
/// with `allow_kanji`), one or two ASCII digits (three or more are no year),
/// or (only with `allow_kanji`) a kanji number up to 九十九.
pub open spec fn year_number(s: Seq<char>, pos: int, allow_kanji: bool) -> Option<(int, int)> {
    let end = if 0 <= pos < s.len() && is_ascii_digit(s[pos]) {
        if pos + 1 < s.len() && is_ascii_digit(s[pos + 1]) {
            pos + 2
        } else {
            pos + 1
        }
    } else {
        pos
    };
    if allow_kanji && 0 <= pos < s.len() && s[pos] == '元' {
        Some((1, pos + 1))
    } else if end > pos {
        if end < s.len() && is_ascii_digit(s[end]) {
            None
        } else {
            Some((decimal_value(s.subrange(pos, end)), end))
        }
    } else if !allow_kanji {
        None
    } else {
        let tens: Option<(int, int)> = match year_digit_at(s, pos) {
            Some(d) => if pos + 1 < s.len() && s[pos + 1] == '十' {
                Some((d * 10, pos + 2))
            } else {
                None
            },
            None => if 0 <= pos < s.len() && s[pos] == '十' {
                Some((10, pos + 1))
            } else {
                None
            },
        };
        match year_digit_at(s, pos) {
            Some(d) if !(pos + 1 < s.len() && s[pos + 1] == '十') => Some((d, pos + 1)),
            _ => match tens {
                None => None,
                Some((n, e)) => match year_digit_at(s, e) {
                    Some(d) => Some((n + d, e + 1)),
                    None => Some((n, e)),
                },
            },
        }
    }
}

fn parse_year_number(chars: &Vec<char>, pos: usize, allow_kanji: bool) -> (r: Option<(u32, usize)>)
    requires
        pos <= chars.len(),
    ensures
        r matches Some((n, a)) ==> year_number(chars@, pos as int, allow_kanji) == Some(
            (n as int, a as int),
        ) && n <= 99 && pos < a <= chars.len(),
        r is None ==> year_number(chars@, pos as int, allow_kanji) is None,
{
    let ghost s = chars@;
    if allow_kanji && pos < chars.len() && chars[pos] == '元' {
        return Some((1, pos + 1));
    }
    let mut end: usize = pos;
    if pos < chars.len() && ascii_digit(chars[pos]) {
        if pos + 1 < chars.len() && ascii_digit(chars[pos + 1]) {
            end = pos + 2;
        } else {
            end = pos + 1;
        }
    }
    if end > pos {
        if end < chars.len() && ascii_digit(chars[end]) {
            return None;
        }
        let mut n: u32 = 0;
        let mut k: usize = pos;
        while k < end
            invariant
                pos <= k <= end <= chars.len(),
                end <= pos + 2,
                s == chars@,
                forall|x: int| pos <= x < end ==> is_ascii_digit(#[trigger] s[x]),
                n == decimal_value(s.subrange(pos as int, k as int)),
                n < 100,
                k == pos ==> n == 0,
                k == pos + 1 ==> n < 10,
            decreases end - k,
        {
            let d: u32 = (chars[k] as u32) - ('0' as u32);
            proof {
                assert(s.subrange(pos as int, k + 1).drop_last() =~= s.subrange(
                    pos as int,
                    k as int,
                ));
                assert(is_ascii_digit(s[k as int]));
            }
            n = n * 10 + d;
            k = k + 1;
        }
        return Some((n, end));
    }
    if !allow_kanji {
        return None;
    }
    let first = if pos < chars.len() {
        year_digit_exec(chars[pos])
    } else {
        None
    };
    let ten_next = chars.len() - pos > 1 && chars[pos + 1] == '十';
    let (n, e) = match first {
        Some(d) => {
            if !ten_next {
                return Some((d, pos + 1));
            }
            (d * 10, pos + 2)
        },
        None => {
            if pos < chars.len() && chars[pos] == '十' {
                (10u32, pos + 1)
            } else {
                return None;
            }
        },
    };
    let last = if e < chars.len() {
        year_digit_exec(chars[e])
    } else {
        None
    };
    match last {
        Some(d) => Some((n + d, e + 1)),
        None => Some((n, e)),
    }
}

/// The era year at `i` tried with the eras from `e` on: the Western year and
/// the number of characters read, through `年`. An era's name, or its
/// abbreviation where no ASCII letter or digit comes before, must be followed
/// by a year number from 1 to the era's last year and `年`. `None` when no
/// era matches, or as soon as a year number cannot be read after a matching
/// name or abbreviation.
pub open spec fn match_era_from(s: Seq<char>, i: int, e: int) -> Option<(int, int)>
    decreases era_count() - e,
{
    if e >= era_count() || e < 0 || i < 0 || i >= s.len() {
        None
    } else {
        let name = era_name(e);
        let matched = i + name.len() <= s.len() && s.subrange(i, i + name.len()) == name;
        let prev_alnum = i > 0 && is_ascii_alnum(s[i - 1]);
        if !matched && (s[i] != era_abbr(e) || prev_alnum) {
            match_era_from(s, i, e + 1)
        } else {
            let pos = if matched {
                i + name.len()
            } else {
                i + 1
            };
            match year_number(s, pos, matched) {
                None => None,
                Some((n, after)) => if !(0 <= after < s.len() && s[after] == '年') || n == 0 || n
                    > era_max(e) {
                    match_era_from(s, i, e + 1)
                } else {
                    Some((era_base(e) + n - 1, after + 1 - i))
                },
            }
        }
    }
}

/// The era year at `i`, if any (see [`match_era_from`]).
pub open spec fn match_era_spec(s: Seq<char>, i: int) -> Option<(int, int)> {
    match_era_from(s, i, 0)
}

fn match_era(chars: &Vec<char>, i: usize) -> (r: Option<(u32, usize)>)
    requires
        i < chars.len(),
    ensures
        r matches Some((y, n)) ==> match_era_spec(chars@, i as int) == Some((y as int, n as int))
            && 1 <= n && i + n <= chars.len(),
        r is None ==> match_era_spec(chars@, i as int) is None,
{
    let ghost s = chars@;
    let mut e: usize = 0;
    while e < 5
        invariant
            e <= 5,
            i < chars.len(),
            s == chars@,
            match_era_from(s, i as int, e as int) == match_era_spec(s, i as int),
        decreases 5 - e,
    {
        let (n0, n1, abbr, base, max) = era_info(e);
        let ghost name = era_name(e as int);
        let matched = chars.len() - i >= 2 && chars[i] == n0 && chars[i + 1] == n1;
        proof {
            if chars.len() - i >= 2 {
                assert(matched == (s.subrange(i as int, i + 2) =~= name));
            }
        }
        let prev_alnum = i > 0 && ascii_alnum(chars[i - 1]);
        if !matched && (chars[i] != abbr || prev_alnum) {
            e = e + 1;
            continue;
        }
        let pos = if matched {
            i + 2
        } else {
            i + 1
        };
        match parse_year_number(chars, pos, matched) {
            None => {
                return None;
            },
            Some((n, after)) => {
                if !(after < chars.len() && chars[after] == '年') || n == 0 || n > max {
                    e = e + 1;
                    continue;
                }
                return Some((base + n - 1, after + 1 - i));
            },
        }
    }
    None
}

pub proof fn lemma_match_era_bounds(s: Seq<char>, i: int, e: int)
    requires
        0 <= i < s.len(),
    ensures
        match_era_from(s, i, e) matches Some((y, n)) ==> 1 <= n && i + n <= s.len(),
    decreases era_count() - e,
{
    if e >= era_count() || e < 0 {
    } else {
        let name = era_name(e);
        let matched = i + name.len() <= s.len() && s.subrange(i, i + name.len()) == name;
        let prev_alnum = i > 0 && is_ascii_alnum(s[i - 1]);
        lemma_match_era_bounds(s, i, e + 1);
        if !matched && (s[i] != era_abbr(e) || prev_alnum) {
        } else {
            let pos = if matched {
                i + name.len()
            } else {
                i + 1
            };
            lemma_year_number_bounds(s, pos, matched);
        }
    }
}

pub proof fn lemma_year_number_bounds(s: Seq<char>, pos: int, allow_kanji: bool)
    requires
        0 <= pos,
    ensures
        year_number(s, pos, allow_kanji) matches Some((n, a)) ==> pos < a,
{
}

/// Era conversion of `s` from index `i`: each era year becomes the Western
/// year and `年`; everything else is kept.
pub open spec fn era_from(s: Seq<char>, i: int) -> Seq<char>
    decreases s.len() - i,
{
    if i < 0 || i >= s.len() {
        seq![]
    } else {
        proof {
            lemma_match_era_bounds(s, i, 0);
        }
        match match_era_spec(s, i) {
            Some((y, n)) => decimal(y as nat) + seq!['年'] + era_from(s, i + n),
            None => seq![s[i]] + era_from(s, i + 1),
        }
    }
}

/// Era conversion of the whole of `s`.
pub open spec fn era_to_western_spec(s: Seq<char>) -> Seq<char> {
    era_from(s, 0)
}

/// Rewrites Japanese era years (`令和6年`, `平成元年`, `昭和二十三年`,
/// `R6年`) as Western years (`2024年`).
pub fn era_to_western(input: &str) -> (out: String)
    ensures
        out@ == era_to_western_spec(input@),
{
    let chars = chars_of(input);
    let ghost s = chars@;
    let mut out: Vec<char> = Vec::new();
    let mut i: usize = 0;
    while i < chars.len()
        invariant
            i <= chars.len(),
            s == chars@,
            out@ + era_from(s, i as int) == era_to_western_spec(s),
        decreases chars.len() - i,
    {
        let ghost before = out@;
        match match_era(&chars, i) {
            Some((year, consumed)) => {
                push_decimal(&mut out, year as u128);
                out.push('年');
                proof {
                    assert(out@ + era_from(s, i + consumed) =~= before + (decimal(year as nat)
                        + seq!['年'] + era_from(s, i + consumed)));
                }
                i = i + consumed;
            },
            None => {
                out.push(chars[i]);
                proof {
                    assert(out@ + era_from(s, i + 1) =~= before + (seq![s[i as int]] + era_from(
                        s,
                        i + 1,
                    )));
                }
                i = i + 1;
            },
        }
    }
    proof {
        assert(out@ + Seq::<char>::empty() =~= out@);
    }
    string_of(&out)
}


// ---- era years written in kanji ----

/// The usual kanji writing of a year number from 1 to 99: 一 … 九, 十,
/// 十一 … 十九, 二十, 二十一 … 九十九.
pub open spec fn kanji_year(n: int) -> Seq<char> {
    if n < 10 {
        seq![kanji_digit(n)]
    } else if n == 10 {
        seq!['十']
    } else if n < 20 {
        seq!['十', kanji_digit(n - 10)]
    } else if n % 10 == 0 {
        seq![kanji_digit(n / 10), '十']
    } else {
        seq![kanji_digit(n / 10), '十', kanji_digit(n % 10)]
    }
}

proof fn lemma_kanji_digit_year(d: int)
    requires
        1 <= d <= 9,
    ensures
        year_digit(kanji_digit(d)) == Some(d),
        kanji_digit(d) != '十' && kanji_digit(d) != '元' && kanji_digit(d) != '年',
        !is_ascii_digit(kanji_digit(d)),
{
}

/// The eras before `e` do not match at the start of a text that starts
/// with the name of era `e`.
proof fn lemma_skip_eras(s: Seq<char>, e: int, f: int)
    requires
        0 <= f <= e < era_count(),
        s.len() >= 2,
        s.subrange(0, 2) == era_name(e),
    ensures
        match_era_from(s, 0, f) == match_era_from(s, 0, e),
    decreases e - f,
{
    if f < e {
        assert(era_name(f)[0] != era_name(e)[0]);
        assert(s.subrange(0, 2)[0] == s[0]);
        assert(s.subrange(0, era_name(f).len() as int) != era_name(f));
        assert(s[0] != era_abbr(f));
        lemma_skip_eras(s, e, f + 1);
    }
}

/// An era year written in kanji becomes the Western year: the name of era
/// `e`, a year `n` from 1 to the era's last year (below 100) written in
/// kanji (二十 for 20, 二十三 for 23, …) and 年 become the year
/// `era_base(e) + n - 1` and 年 (平成二十年 → 2008年).
pub proof fn lemma_era_kanji_year(e: int, n: int)
    requires
        0 <= e < era_count(),
        1 <= n <= era_max(e),
        n <= 99,
    ensures
        era_to_western_spec(era_name(e) + kanji_year(n) + seq!['年']) == decimal(
            (era_base(e) + n - 1) as nat,
        ) + seq!['年'],
{
    let ky = kanji_year(n);
    let s = era_name(e) + ky + seq!['年'];
    let len = s.len() as int;
    assert(s.subrange(0, 2) =~= era_name(e));
    lemma_skip_eras(s, e, 0);
    assert(year_digit('十') is None && year_digit('年') is None);
    assert(s[len - 1] == '年');
    if n < 10 {
        lemma_kanji_digit_year(n);
        assert(s[2] == kanji_digit(n) && len == 4);
        assert(year_number(s, 2, true) == Some((n, 3int)));
    } else if n == 10 {
        assert(s[2] == '十' && len == 4);
        assert(year_number(s, 2, true) == Some((10int, 3int)));
    } else if n < 20 {
        lemma_kanji_digit_year(n - 10);
        assert(s[2] == '十' && s[3] == kanji_digit(n - 10) && len == 5);
        assert(year_number(s, 2, true) == Some((n, 4int)));
    } else if n % 10 == 0 {
        lemma_kanji_digit_year(n / 10);
        assert(s[2] == kanji_digit(n / 10) && s[3] == '十' && len == 5);
        assert(year_number(s, 2, true) == Some((n, 4int)));
    } else {
        lemma_kanji_digit_year(n / 10);
        lemma_kanji_digit_year(n % 10);
        assert(s[2] == kanji_digit(n / 10) && s[3] == '十' && s[4] == kanji_digit(n % 10));
        assert(len == 6);
        assert(year_number(s, 2, true) == Some((n, 5int)));
    }
    assert(match_era_from(s, 0, e) == Some((era_base(e) + n - 1, len)));
    assert(era_from(s, len) == Seq::<char>::empty());
    assert(decimal((era_base(e) + n - 1) as nat) + seq!['年'] + Seq::<char>::empty() =~= decimal(
        (era_base(e) + n - 1) as nat,
    ) + seq!['年']);
}


/// An era year written in ASCII digits, or as 元 (the first year), becomes
/// the Western year: the name of era `e`, a year `n` from 1 to the era's
/// last year (below 100) in decimal digits and 年 become the year
/// `era_base(e) + n - 1` and 年 (平成20年 → 2008年); 元年 is the era's first
/// year (令和元年 → 2019年).
pub proof fn lemma_era_digit_year(e: int, n: int)
    requires
        0 <= e < era_count(),
        1 <= n <= era_max(e),
        n <= 99,
    ensures
        era_to_western_spec(era_name(e) + decimal(n as nat) + seq!['年']) == decimal(
            (era_base(e) + n - 1) as nat,
        ) + seq!['年'],
        era_to_western_spec(era_name(e) + seq!['元', '年']) == decimal(era_base(e) as nat) + seq![
            '年',
        ],
{
    let d = decimal(n as nat);
    lemma_decimal_digits(n as nat);
    if n >= 10 {
        assert(decimal((n / 10) as nat).len() == 1);
    }
    let s = era_name(e) + d + seq!['年'];
    let len = s.len() as int;
    assert(s.subrange(0, 2) =~= era_name(e));
    lemma_skip_eras(s, e, 0);
    assert(s[len - 1] == '年');
    assert(is_ascii_digit(s[2]));
    if n < 10 {
        assert(len == 4);
        assert(s.subrange(2, 3) =~= d);
        assert(year_number(s, 2, true) == Some((n, 3int)));
    } else {
        assert(len == 5);
        assert(is_ascii_digit(s[3]));
        assert(s.subrange(2, 4) =~= d);
        assert(year_number(s, 2, true) == Some((n, 4int)));
    }
    assert(match_era_from(s, 0, e) == Some((era_base(e) + n - 1, len)));
    assert(era_from(s, len) == Seq::<char>::empty());
    assert(decimal((era_base(e) + n - 1) as nat) + seq!['年'] + Seq::<char>::empty() =~= decimal(
        (era_base(e) + n - 1) as nat,
    ) + seq!['年']);
    let t = era_name(e) + seq!['元', '年'];
    assert(t.subrange(0, 2) =~= era_name(e));
    lemma_skip_eras(t, e, 0);
    assert(t[2] == '元' && t[3] == '年' && t.len() == 4);
    assert(year_number(t, 2, true) == Some((1int, 3int)));
    assert(match_era_from(t, 0, e) == Some((era_base(e), 4int)));
    assert(era_from(t, 4) == Seq::<char>::empty());
    assert(decimal(era_base(e) as nat) + seq!['年'] + Seq::<char>::empty() =~= decimal(
        era_base(e) as nat,
    ) + seq!['年']);
}

} // verus!
