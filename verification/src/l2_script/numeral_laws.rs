//! Kanji numerals read back: what [`format_kansuji`] writes,
//! [`parse_kansuji`] reads as the same number.
//!
//! [`format_kansuji`]: crate::l2_script::numerals::format_kansuji
//! [`parse_kansuji`]: crate::l2_script::numerals::parse_kansuji
use vstd::prelude::*;
use crate::text::is_ascii_digit;
use crate::l2_script::numerals::{
    a2k_from, has_kansuji, is_kansuji_spec, k2a_from, lemma_run_end_bounds, run_end,
    block_spec, digit_value_spec, format_kansuji_spec, format_small_spec, has_kanji_digit,
    has_large_unit, has_small_unit, is_large_unit, is_small_unit, kanji_digit, kanji_limit,
    kansuji_value, large_from, large_spec, large_unit_value, max_value, place_spec, small_from,
    small_spec, small_unit_value, decimal, decimal_value, digit_char, ascii_digit_value,
    digit_run_end, arabic_to_kansuji_spec, kansuji_to_arabic_spec, run_value, has_ascii_digit,
};

verus! {

proof fn lemma_kanji_digit(d: int)
    requires
        0 <= d < 10,
    ensures
        digit_value_spec(kanji_digit(d)) == Some(d),
        !is_small_unit(kanji_digit(d)),
        !is_large_unit(kanji_digit(d)),
{
}

/// Reading one place (`d` of `unit`) of a block.
proof fn lemma_small_place(s: Seq<char>, i: int, total: int, d: int, unit: char)
    requires
        0 <= d < 10,
        unit == '千' || unit == '百' || unit == '十',
        0 <= i,
        i + place_spec(d, unit).len() <= s.len(),
        s.subrange(i, i + place_spec(d, unit).len()) == place_spec(d, unit),
        0 <= total < 10000,
    ensures
        small_from(s, i, total, 0) == small_from(
            s,
            i + place_spec(d, unit).len(),
            total + d * small_unit_value(unit),
            0,
        ),
{
    let p = place_spec(d, unit);
    if d == 1 {
        assert(s[i] == p[0]);
    } else if d >= 2 {
        assert(s[i] == p[0]);
        assert(s[i + 1] == p[1]);
        lemma_kanji_digit(d);
        assert(small_from(s, i, total, 0) == small_from(s, i + 1, total, d));
    }
}

proof fn lemma_digit_split(b: int)
    requires
        0 <= b < 10000,
    ensures
        0 <= b / 1000 < 10,
        0 <= (b % 1000) / 100 < 10,
        0 <= (b % 100) / 10 < 10,
        0 <= b % 10 < 10,
        (b / 1000) * 1000 + ((b % 1000) / 100) * 100 + ((b % 100) / 10) * 10 + b % 10 == b,
{
}

/// A block below 万 reads as its value.
proof fn lemma_small_format(b: int)
    requires
        0 <= b < 10000,
    ensures
        small_spec(format_small_spec(b)) == Some(b),
{
    lemma_digit_split(b);
    let d1 = b / 1000;
    let d2 = (b % 1000) / 100;
    let d3 = (b % 100) / 10;
    let d4 = b % 10;
    let p1 = place_spec(d1, '千');
    let p2 = place_spec(d2, '百');
    let p3 = place_spec(d3, '十');
    let o: Seq<char> = if d4 > 0 {
        seq![kanji_digit(d4)]
    } else {
        seq![]
    };
    let s = format_small_spec(b);
    assert(s == p1 + p2 + p3 + o);
    let l1 = p1.len() as int;
    let l2 = l1 + p2.len();
    let l3 = l2 + p3.len();
    assert(s.subrange(0, l1) =~= p1);
    assert(s.subrange(l1, l2) =~= p2);
    assert(s.subrange(l2, l3) =~= p3);
    let t1 = d1 * 1000;
    let t2 = t1 + d2 * 100;
    let t3 = t2 + d3 * 10;
    lemma_small_place(s, 0, 0, d1, '千');
    lemma_small_place(s, l1, t1, d2, '百');
    lemma_small_place(s, l2, t2, d3, '十');
    if d4 > 0 {
        assert(s[l3] == kanji_digit(d4));
        lemma_kanji_digit(d4);
        assert(small_from(s, l3, t3, 0) == small_from(s, l3 + 1, t3, d4));
    }
}

/// What a block below 万 holds: no large unit; something when not 0; a
/// small unit from 10 up.
proof fn lemma_small_chars(b: int)
    requires
        0 <= b < 10000,
    ensures
        forall|x: int| 0 <= x < format_small_spec(b).len() ==> !is_large_unit(
            #[trigger] format_small_spec(b)[x],
        ),
        b > 0 ==> format_small_spec(b).len() > 0,
        b > 0 ==> has_kanji_digit(format_small_spec(b)) || has_small_unit(format_small_spec(b)),
        b >= 10 ==> has_small_unit(format_small_spec(b)),
{
    let p1 = place_spec(b / 1000, '千');
    let p2 = place_spec((b % 1000) / 100, '百');
    let p3 = place_spec((b % 100) / 10, '十');
    let s = format_small_spec(b);
    lemma_kanji_digit(b / 1000);
    lemma_kanji_digit((b % 1000) / 100);
    lemma_kanji_digit((b % 100) / 10);
    lemma_kanji_digit(b % 10);
    assert forall|x: int| 0 <= x < s.len() implies !is_large_unit(#[trigger] s[x]) by {}
    if b >= 1000 {
        assert(is_small_unit(s[p1.len() - 1]));
    } else if b >= 100 {
        assert(p1.len() == 0);
        assert(is_small_unit(s[p2.len() - 1]));
    } else if b >= 10 {
        assert(p1.len() == 0 && p2.len() == 0);
        assert(is_small_unit(s[p3.len() - 1]));
    } else if b > 0 {
        assert(p1.len() == 0 && p2.len() == 0 && p3.len() == 0);
        assert(digit_value_spec(s[0]) is Some);
    }
}

/// The scan of large units passes over characters that are none.
proof fn lemma_large_skip(s: Seq<char>, j: int, k: int, total: int, start: int)
    requires
        0 <= j <= k <= s.len(),
        forall|x: int| j <= x < k ==> !is_large_unit(#[trigger] s[x]),
    ensures
        large_from(s, j, total, start) == large_from(s, k, total, start),
    decreases k - j,
{
    if j < k {
        lemma_large_skip(s, j + 1, k, total, start);
    }
}

/// Reading a block `b` followed by the large unit `unit`.
proof fn lemma_large_block(s: Seq<char>, i: int, total: int, b: int, unit: char)
    requires
        0 <= b < 10000,
        is_large_unit(unit),
        0 <= i,
        i + block_spec(b, unit).len() <= s.len(),
        s.subrange(i, i + block_spec(b, unit).len()) == block_spec(b, unit),
        0 <= total,
        total + b * large_unit_value(unit) <= max_value(),
    ensures
        large_from(s, i, total, i) == large_from(
            s,
            i + block_spec(b, unit).len(),
            total + b * large_unit_value(unit),
            i + block_spec(b, unit).len(),
        ),
{
    if b > 0 {
        let fs = format_small_spec(b);
        let e = i + fs.len();
        lemma_small_chars(b);
        lemma_small_format(b);
        assert forall|x: int| i <= x < e implies !is_large_unit(#[trigger] s[x]) by {
            assert(s[x] == block_spec(b, unit)[x - i]);
            assert(block_spec(b, unit)[x - i] == fs[x - i]);
        }
        lemma_large_skip(s, i, e, total, i);
        assert(s[e] == block_spec(b, unit)[fs.len() as int]);
        assert(s.subrange(i, e) =~= fs);
    }
}

proof fn lemma_block_split(n: int)
    requires
        0 <= n < kanji_limit(),
    ensures
        0 <= n / 10000000000000000 < 10000,
        0 <= (n % 10000000000000000) / 1000000000000 < 10000,
        0 <= ((n % 10000000000000000) % 1000000000000) / 100000000 < 10000,
        0 <= (((n % 10000000000000000) % 1000000000000) % 100000000) / 10000 < 10000,
        0 <= (((n % 10000000000000000) % 1000000000000) % 100000000) % 10000 < 10000,
        (n / 10000000000000000) * 10000000000000000 + ((n % 10000000000000000) / 1000000000000)
            * 1000000000000 + (((n % 10000000000000000) % 1000000000000) / 100000000) * 100000000
            + ((((n % 10000000000000000) % 1000000000000) % 100000000) / 10000) * 10000 + (((n
            % 10000000000000000) % 1000000000000) % 100000000) % 10000 == n,
{
}

/// The kanji numeral of `n` reads as `n` with its place units.
#[verifier::spinoff_prover]
#[verifier::rlimit(80)]
proof fn lemma_large_of_format(n: int)
    requires
        0 < n < kanji_limit(),
    ensures
        large_spec(format_kansuji_spec(n)) == Some(n),
{
    lemma_block_split(n);
    let b16 = n / 10000000000000000;
    let r16 = n % 10000000000000000;
    let b12 = r16 / 1000000000000;
    let r12 = r16 % 1000000000000;
    let b8 = r12 / 100000000;
    let r8 = r12 % 100000000;
    let b4 = r8 / 10000;
    let r = r8 % 10000;
    let k1 = block_spec(b16, '京');
    let k2 = block_spec(b12, '兆');
    let k3 = block_spec(b8, '億');
    let k4 = block_spec(b4, '万');
    let t = format_small_spec(r);
    let s = format_kansuji_spec(n);
    assert(s == k1 + k2 + k3 + k4 + t);
    let e1 = k1.len() as int;
    let e2 = e1 + k2.len();
    let e3 = e2 + k3.len();
    let e4 = e3 + k4.len();
    assert(s.subrange(0, e1) =~= k1);
    assert(s.subrange(e1, e2) =~= k2);
    assert(s.subrange(e2, e3) =~= k3);
    assert(s.subrange(e3, e4) =~= k4);
    assert(s.subrange(e4, s.len() as int) =~= t);
    let v1 = b16 * 10000000000000000;
    let v2 = v1 + b12 * 1000000000000;
    let v3 = v2 + b8 * 100000000;
    let v4 = v3 + b4 * 10000;
    lemma_large_block(s, 0, 0, b16, '京');
    lemma_large_block(s, e1, v1, b12, '兆');
    lemma_large_block(s, e2, v2, b8, '億');
    lemma_large_block(s, e3, v3, b4, '万');
    lemma_small_chars(r);
    assert forall|x: int| e4 <= x < s.len() implies !is_large_unit(#[trigger] s[x]) by {
        assert(s[x] == t[x - e4]);
    }
    lemma_large_skip(s, e4, s.len() as int, v4, e4);
    if r > 0 {
        lemma_small_format(r);
    }
}

/// Reading a kanji numeral written by [`format_kansuji_spec`] gives the
/// number back, from 10 up (below, a lone digit such as 一 is a number only
/// in a numeric context, which `None` on both sides is not).
pub proof fn lemma_kansuji_roundtrip(n: int)
    requires
        10 <= n < kanji_limit(),
    ensures
        kansuji_value(format_kansuji_spec(n), None, None) == Some(n),
{
    lemma_large_of_format(n);
    lemma_format_has_unit(n);
    let s = format_kansuji_spec(n);
    assert(has_kanji_digit(s) || has_small_unit(s));
    assert(has_large_unit(s) || has_small_unit(s));
    assert(kansuji_value(s, None, None) == large_spec(s));
}

/// A numeral that starts with a block `b` and the large unit `u`.
proof fn lemma_first_block(s: Seq<char>, b: int, u: char, rest: Seq<char>)
    requires
        0 < b < 10000,
        is_large_unit(u),
        s == format_small_spec(b) + seq![u] + rest,
    ensures
        has_large_unit(s),
        s.len() >= 2,
        has_kanji_digit(s) || has_small_unit(s),
{
    let fb = format_small_spec(b);
    lemma_small_chars(b);
    assert(s[fb.len() as int] == u);
    if has_kanji_digit(fb) {
        let w = choose|x: int| 0 <= x < fb.len() && (#[trigger] digit_value_spec(fb[x])) is Some;
        assert(s[w] == fb[w]);
    } else {
        let w = choose|x: int| 0 <= x < fb.len() && #[trigger] is_small_unit(fb[x]);
        assert(s[w] == fb[w]);
    }
}

/// The kanji numeral of `n` from 10 up holds a place unit, and a large unit
/// only after a block.
#[verifier::spinoff_prover]
#[verifier::rlimit(80)]
proof fn lemma_format_has_unit(n: int)
    requires
        10 <= n < kanji_limit(),
    ensures
        has_large_unit(format_kansuji_spec(n)) || has_small_unit(format_kansuji_spec(n)),
        has_kanji_digit(format_kansuji_spec(n)) || has_small_unit(format_kansuji_spec(n)),
        has_large_unit(format_kansuji_spec(n)) ==> format_kansuji_spec(n).len() >= 2,
{
    lemma_block_split(n);
    let b16 = n / 10000000000000000;
    let r16 = n % 10000000000000000;
    let b12 = r16 / 1000000000000;
    let r12 = r16 % 1000000000000;
    let b8 = r12 / 100000000;
    let r8 = r12 % 100000000;
    let b4 = r8 / 10000;
    let r = r8 % 10000;
    let k2 = block_spec(b12, '兆');
    let k3 = block_spec(b8, '億');
    let k4 = block_spec(b4, '万');
    let t = format_small_spec(r);
    let s = format_kansuji_spec(n);
    if b16 > 0 {
        assert(s =~= format_small_spec(b16) + seq!['京'] + (k2 + k3 + k4 + t));
        lemma_first_block(s, b16, '京', k2 + k3 + k4 + t);
    } else if b12 > 0 {
        assert(s =~= format_small_spec(b12) + seq!['兆'] + (k3 + k4 + t));
        lemma_first_block(s, b12, '兆', k3 + k4 + t);
    } else if b8 > 0 {
        assert(s =~= format_small_spec(b8) + seq!['億'] + (k4 + t));
        lemma_first_block(s, b8, '億', k4 + t);
    } else if b4 > 0 {
        assert(s =~= format_small_spec(b4) + seq!['万'] + t);
        lemma_first_block(s, b4, '万', t);
    } else {
        assert(s =~= t);
        lemma_small_chars(r);
    }
}

/// Text without kanji numerals is left as it is by Kanji-to-Arabic
/// conversion (pure Arabic numbers, `1,200`, `3.14` included).
pub proof fn lemma_k2a_keeps_arabic(s: Seq<char>, i: int)
    requires
        0 <= i <= s.len(),
        forall|x: int| 0 <= x < s.len() ==> !is_kansuji_spec(#[trigger] s[x]),
    ensures
        k2a_from(s, i) == s.subrange(i, s.len() as int),
    decreases s.len() - i,
{
    if i < s.len() {
        if !(is_kansuji_spec(s[i]) || is_ascii_digit(s[i])) {
            lemma_k2a_keeps_arabic(s, i + 1);
            assert(seq![s[i]] + s.subrange(i + 1, s.len() as int) =~= s.subrange(i, s.len() as int));
        } else {
            lemma_run_end_bounds(s, i + 1);
            let end = run_end(s, i + 1);
            let run = s.subrange(i, end);
            assert(!has_kansuji(run)) by {
                if has_kansuji(run) {
                    let w = choose|x: int| 0 <= x < run.len() && #[trigger] is_kansuji_spec(run[x]);
                    assert(run[w] == s[i + w]);
                }
            }
            lemma_k2a_keeps_arabic(s, end);
            assert(run + s.subrange(end, s.len() as int) =~= s.subrange(i, s.len() as int));
        }
    }
}

/// Text without ASCII digits is left as it is by Arabic-to-kanji
/// conversion.
pub proof fn lemma_a2k_keeps_text(s: Seq<char>, i: int)
    requires
        0 <= i <= s.len(),
        forall|x: int| 0 <= x < s.len() ==> !is_ascii_digit(#[trigger] s[x]),
    ensures
        a2k_from(s, i) == Some(s.subrange(i, s.len() as int)),
    decreases s.len() - i,
{
    if i < s.len() {
        lemma_a2k_keeps_text(s, i + 1);
        assert(seq![s[i]] + s.subrange(i + 1, s.len() as int) =~= s.subrange(i, s.len() as int));
    }
}


/// Every character of a block below 万 is a kanji numeral.
proof fn lemma_small_all_kansuji(b: int)
    requires
        0 <= b < 10000,
    ensures
        forall|x: int| 0 <= x < format_small_spec(b).len() ==> is_kansuji_spec(
            #[trigger] format_small_spec(b)[x],
        ),
{
    let p1 = place_spec(b / 1000, '千');
    let p2 = place_spec((b % 1000) / 100, '百');
    let p3 = place_spec((b % 100) / 10, '十');
    let o: Seq<char> = if b % 10 > 0 {
        seq![kanji_digit(b % 10)]
    } else {
        seq![]
    };
    let s = format_small_spec(b);
    assert(s == p1 + p2 + p3 + o);
    assert forall|x: int| 0 <= x < s.len() implies is_kansuji_spec(#[trigger] s[x]) by {
        let l1 = p1.len() as int;
        let l2 = l1 + p2.len();
        let l3 = l2 + p3.len();
        if x < l1 {
            assert(s[x] == p1[x]);
        } else if x < l2 {
            assert(s[x] == p2[x - l1]);
        } else if x < l3 {
            assert(s[x] == p3[x - l2]);
        } else {
            assert(s[x] == o[x - l3]);
        }
    }
}

proof fn lemma_block_all_kansuji(b: int, unit: char)
    requires
        0 <= b < 10000,
        is_large_unit(unit),
    ensures
        forall|x: int| 0 <= x < block_spec(b, unit).len() ==> is_kansuji_spec(
            #[trigger] block_spec(b, unit)[x],
        ),
{
    lemma_small_all_kansuji(b);
    let k = block_spec(b, unit);
    if b > 0 {
        let f = format_small_spec(b);
        assert forall|x: int| 0 <= x < k.len() implies is_kansuji_spec(#[trigger] k[x]) by {
            if x < f.len() {
                assert(k[x] == f[x]);
            }
        }
    }
}

/// Every character of a kanji numeral written by [`format_kansuji_spec`]
/// is a kanji numeral.
proof fn lemma_format_all_kansuji(n: int)
    requires
        0 <= n < kanji_limit(),
    ensures
        forall|x: int| 0 <= x < format_kansuji_spec(n).len() ==> is_kansuji_spec(
            #[trigger] format_kansuji_spec(n)[x],
        ),
{
    if n > 0 {
        lemma_block_split(n);
        let r16 = n % 10000000000000000;
        let r12 = r16 % 1000000000000;
        let r8 = r12 % 100000000;
        let k1 = block_spec(n / 10000000000000000, '京');
        let k2 = block_spec(r16 / 1000000000000, '兆');
        let k3 = block_spec(r12 / 100000000, '億');
        let k4 = block_spec(r8 / 10000, '万');
        let t = format_small_spec(r8 % 10000);
        lemma_block_all_kansuji(n / 10000000000000000, '京');
        lemma_block_all_kansuji(r16 / 1000000000000, '兆');
        lemma_block_all_kansuji(r12 / 100000000, '億');
        lemma_block_all_kansuji(r8 / 10000, '万');
        lemma_small_all_kansuji(r8 % 10000);
        let s = format_kansuji_spec(n);
        assert(s == k1 + k2 + k3 + k4 + t);
        assert forall|x: int| 0 <= x < s.len() implies is_kansuji_spec(#[trigger] s[x]) by {
            let e1 = k1.len() as int;
            let e2 = e1 + k2.len();
            let e3 = e2 + k3.len();
            let e4 = e3 + k4.len();
            if x < e1 {
                assert(s[x] == k1[x]);
            } else if x < e2 {
                assert(s[x] == k2[x - e1]);
            } else if x < e3 {
                assert(s[x] == k3[x - e2]);
            } else if x < e4 {
                assert(s[x] == k4[x - e3]);
            } else {
                assert(s[x] == t[x - e4]);
            }
        }
    }
}

/// The decimal digits of `n` are ASCII digits and read as `n`.
pub proof fn lemma_decimal_digits(n: nat)
    ensures
        decimal(n).len() >= 1,
        forall|x: int| 0 <= x < decimal(n).len() ==> is_ascii_digit(#[trigger] decimal(n)[x]),
        decimal_value(decimal(n)) == n,
    decreases n,
{
    let d = (n % 10) as int;
    assert(ascii_digit_value(digit_char(d)) == d && is_ascii_digit(digit_char(d)));
    if n >= 10 {
        lemma_decimal_digits(n / 10);
        let p = decimal(n / 10);
        let s = decimal(n);
        assert(s == p.push(digit_char(d)));
        assert(s.drop_last() =~= p);
        assert forall|x: int| 0 <= x < s.len() implies is_ascii_digit(#[trigger] s[x]) by {
            if x < p.len() {
                assert(s[x] == p[x]);
            }
        }
        assert(decimal_value(s) == decimal_value(p) * 10 + d);
    } else {
        let s = decimal(n);
        assert(s.drop_last() =~= Seq::<char>::empty());
        assert(decimal_value(s) == decimal_value(s.drop_last()) * 10 + ascii_digit_value(s.last()));
    }
}

proof fn lemma_digit_run_to_end(s: Seq<char>, j: int)
    requires
        0 <= j <= s.len(),
        forall|x: int| j <= x < s.len() ==> is_ascii_digit(#[trigger] s[x]),
    ensures
        digit_run_end(s, j) == s.len(),
    decreases s.len() - j,
{
    if j < s.len() {
        lemma_digit_run_to_end(s, j + 1);
    }
}

proof fn lemma_run_to_end(s: Seq<char>, j: int)
    requires
        0 <= j <= s.len(),
        forall|x: int| j <= x < s.len() ==> is_kansuji_spec(#[trigger] s[x]),
    ensures
        run_end(s, j) == s.len(),
    decreases s.len() - j,
{
    if j < s.len() {
        assert(is_kansuji_spec(s[j]));
        lemma_run_to_end(s, j + 1);
    }
}

/// Arabic to kanji and back: the decimal digits of a number from 10 up
/// (below 10^20) become its kanji numeral, and converting that numeral back
/// gives the same digits.
pub proof fn lemma_kansuji_text_roundtrip(n: nat)
    requires
        10 <= n < kanji_limit(),
    ensures
        arabic_to_kansuji_spec(decimal(n)) == Some(format_kansuji_spec(n as int)),
        kansuji_to_arabic_spec(format_kansuji_spec(n as int)) == decimal(n),
{
    let s = decimal(n);
    lemma_decimal_digits(n);
    lemma_digit_run_to_end(s, 1);
    assert(s.subrange(0, s.len() as int) =~= s);
    assert(a2k_from(s, s.len() as int) == Some(Seq::<char>::empty()));
    assert(format_kansuji_spec(n as int) + Seq::<char>::empty() =~= format_kansuji_spec(n as int));
    let f = format_kansuji_spec(n as int);
    lemma_format_all_kansuji(n as int);
    lemma_format_has_unit(n as int);
    lemma_kansuji_roundtrip(n as int);
    assert(f.len() > 0);
    assert(is_kansuji_spec(f[0]));
    lemma_run_to_end(f, 1);
    assert(f.subrange(0, f.len() as int) =~= f);
    assert(has_kansuji(f));
    assert(!has_ascii_digit(f)) by {
        if has_ascii_digit(f) {
            let w = choose|x: int| 0 <= x < f.len() && #[trigger] is_ascii_digit(f[x]);
            assert(is_kansuji_spec(f[w]));
        }
    }
    assert(run_value(f, 0, f.len() as int) == Some(n as int));
    assert(k2a_from(f, f.len() as int) == Seq::<char>::empty());
    assert(decimal(n) + Seq::<char>::empty() =~= decimal(n));
}

} // verus!
