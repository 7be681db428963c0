//! Canonical form of number tokens, for comparison.
//!
//! Thousands separators and trailing decimal zeros are dropped so that equal
//! numbers read the same: `1,200` → `1200`, `1200.00` → `1200`,
//! `3.1400` → `3.14`, `-0.50` → `-0.5`, `1,234.500` → `1234.5`.
//!
//! Only ASCII digits are read (full-width digits are expected to have gone
//! through NFKC). Malformed groupings (`1,23`, `1,2345`) end the token there.
use vstd::prelude::*;
use crate::text::{chars_of, string_of, push_all, is_ascii_digit, is_ascii_alpha, ascii_digit};
use crate::l2_script::numerals::{
    digit_run_end, lemma_digit_run_end_bounds, first_index_from, decimal_value, pow10,
    ascii_digit_value,
};

verus! {

/// An ASCII letter or `_`: a digit right after one is part of an identifier
/// (`abc123`) and is not read as a number.
pub open spec fn is_word_char(c: char) -> bool {
    is_ascii_alpha(c) || c == '_'
}

/// Where the thousands groups `,DDD` continuing at `k` end. A comma followed
/// by four digits or more is no separator and ends the token.
pub open spec fn group_end(s: Seq<char>, k: int) -> int
    decreases s.len() - k,
{
    if 0 <= k && k + 3 < s.len() && s[k] == ',' && is_ascii_digit(s[k + 1]) && is_ascii_digit(
        s[k + 2],
    ) && is_ascii_digit(s[k + 3]) && !(k + 4 < s.len() && is_ascii_digit(s[k + 4])) {
        group_end(s, k + 4)
    } else {
        k
    }
}

pub proof fn lemma_group_end_bounds(s: Seq<char>, k: int)
    requires
        0 <= k <= s.len(),
    ensures
        k <= group_end(s, k) <= s.len(),
    decreases s.len() - k,
{
    if 0 <= k && k + 3 < s.len() && s[k] == ',' && is_ascii_digit(s[k + 1]) && is_ascii_digit(
        s[k + 2],
    ) && is_ascii_digit(s[k + 3]) && !(k + 4 < s.len() && is_ascii_digit(s[k + 4])) {
        lemma_group_end_bounds(s, k + 4);
    }
}

/// Where the number token that starts at `i` ends: digits, `,DDD` groups,
/// then a `.` and digits if a digit follows the `.`.
pub open spec fn number_end(s: Seq<char>, i: int) -> int {
    let k = group_end(s, digit_run_end(s, i));
    if 0 <= k && k + 1 < s.len() && s[k] == '.' && is_ascii_digit(s[k + 1]) {
        digit_run_end(s, k + 1)
    } else {
        k
    }
}

pub proof fn lemma_number_end_bounds(s: Seq<char>, i: int)
    requires
        0 <= i < s.len(),
        is_ascii_digit(s[i]),
    ensures
        i < number_end(s, i) <= s.len(),
{
    lemma_digit_run_end_bounds(s, i + 1);
    let j = digit_run_end(s, i);
    assert(j == digit_run_end(s, i + 1));
    lemma_group_end_bounds(s, j);
    let k = group_end(s, j);
    if 0 <= k && k + 1 < s.len() && s[k] == '.' && is_ascii_digit(s[k + 1]) {
        lemma_digit_run_end_bounds(s, k + 1);
    }
}

/// `s` without its leading `0`s.
pub open spec fn strip_leading_zeros(s: Seq<char>) -> Seq<char>
    decreases s.len(),
{
    if s.len() > 0 && s[0] == '0' {
        strip_leading_zeros(s.skip(1))
    } else {
        s
    }
}

/// `s` without its trailing `0`s.
pub open spec fn strip_trailing_zeros(s: Seq<char>) -> Seq<char>
    decreases s.len(),
{
    if s.len() > 0 && s.last() == '0' {
        strip_trailing_zeros(s.drop_last())
    } else {
        s
    }
}

/// The canonical form of a number token: commas dropped, leading zeros of
/// the integer part dropped (one `0` stays), trailing zeros of the fraction
/// dropped, and the `.` too when no fraction digit is left.
pub open spec fn canonical_token(tok: Seq<char>) -> Seq<char> {
    let t = tok.filter(|c: char| c != ',');
    let k = first_index_from(t, '.', 0);
    let ip = strip_leading_zeros(t.take(k));
    let int_part = if ip.len() == 0 {
        seq!['0']
    } else {
        ip
    };
    if k < t.len() {
        let fp = strip_trailing_zeros(t.skip(k + 1));
        if fp.len() > 0 {
            int_part + seq!['.'] + fp
        } else {
            int_part
        }
    } else {
        int_part
    }
}

/// Canonicalization of `s` from index `i`; `after_word` tells whether the
/// last character written is a word character (then a digit here is part of
/// an identifier and is copied as it is).
pub open spec fn canon_from(s: Seq<char>, i: int, after_word: bool) -> Seq<char>
    decreases s.len() - i,
{
    if i < 0 || i >= s.len() {
        seq![]
    } else if is_ascii_digit(s[i]) && !after_word {
        let end = number_end(s, i);
        proof {
            lemma_number_end_bounds(s, i);
        }
        canonical_token(s.subrange(i, end)) + canon_from(s, end, false)
    } else {
        seq![s[i]] + canon_from(s, i + 1, is_word_char(s[i]))
    }
}

/// Canonicalization of the whole of `s`.
pub open spec fn canonicalize_spec(s: Seq<char>) -> Seq<char> {
    canon_from(s, 0, false)
}

fn scan_number(chars: &Vec<char>, i: usize) -> (end: usize)
    requires
        i < chars.len(),
        is_ascii_digit(chars@[i as int]),
    ensures
        end == number_end(chars@, i as int),
        i < end <= chars.len(),
{
    let ghost s = chars@;
    proof {
        lemma_number_end_bounds(s, i as int);
    }
    let mut j: usize = i;
    while j < chars.len() && ascii_digit(chars[j])
        invariant
            i <= j <= chars.len(),
            s == chars@,
            digit_run_end(s, j as int) == digit_run_end(s, i as int),
        decreases chars.len() - j,
    {
        j = j + 1;
    }
    assert(digit_run_end(s, j as int) == j);
    proof {
        lemma_group_end_bounds(s, j as int);
    }
    let mut k: usize = j;
    while chars.len() - k > 3 && chars[k] == ',' && ascii_digit(chars[k + 1]) && ascii_digit(
        chars[k + 2],
    ) && ascii_digit(chars[k + 3]) && !(chars.len() - k > 4 && ascii_digit(chars[k + 4]))
        invariant
            j <= k <= chars.len(),
            s == chars@,
            group_end(s, k as int) == group_end(s, j as int),
        decreases chars.len() - k,
    {
        k = k + 4;
    }
    assert(group_end(s, k as int) == k);
    if chars.len() - k > 1 && chars[k] == '.' && ascii_digit(chars[k + 1]) {
        let mut e: usize = k + 1;
        while e < chars.len() && ascii_digit(chars[e])
            invariant
                k + 1 <= e <= chars.len(),
                s == chars@,
                digit_run_end(s, e as int) == digit_run_end(s, k + 1),
            decreases chars.len() - e,
        {
            e = e + 1;
        }
        assert(digit_run_end(s, e as int) == e);
        e
    } else {
        k
    }
}

fn push_canonical_token(out: &mut Vec<char>, chars: &Vec<char>, lo: usize, hi: usize)
    requires
        lo <= hi <= chars.len(),
    ensures
        final(out)@ == old(out)@ + canonical_token(chars@.subrange(lo as int, hi as int)),
{
    let ghost tok = chars@.subrange(lo as int, hi as int);
    let ghost keep = |c: char| c != ',';
    let mut t: Vec<char> = Vec::new();
    let mut m: usize = lo;
    while m < hi
        invariant
            lo <= m <= hi <= chars.len(),
            tok == chars@.subrange(lo as int, hi as int),
            keep == (|c: char| c != ','),
            t@ == tok.take(m - lo).filter(keep),
        decreases hi - m,
    {
        let c = chars[m];
        proof {
            assert(tok.take(m - lo + 1) =~= tok.take(m - lo).push(c));
            tok.take(m - lo).lemma_filter_push(c, keep);
        }
        if c != ',' {
            t.push(c);
        }
        m = m + 1;
    }
    proof {
        assert(tok.take(hi - lo) =~= tok);
    }
    let ghost ts = t@;
    assert(ts == tok.filter(|c: char| c != ','));
    let mut k: usize = 0;
    while k < t.len() && t[k] != '.'
        invariant
            k <= t.len(),
            ts == t@,
            first_index_from(ts, '.', k as int) == first_index_from(ts, '.', 0),
        decreases t.len() - k,
    {
        k = k + 1;
    }
    assert(first_index_from(ts, '.', k as int) == k);
    let mut a: usize = 0;
    proof {
        assert(ts.take(k as int).subrange(0, k as int) =~= ts.take(k as int));
    }
    while a < k && t[a] == '0'
        invariant
            a <= k <= t.len(),
            ts == t@,
            strip_leading_zeros(ts.take(k as int)) == strip_leading_zeros(
                ts.subrange(a as int, k as int),
            ),
        decreases k - a,
    {
        proof {
            assert(ts.subrange(a as int, k as int).skip(1) =~= ts.subrange(a + 1, k as int));
        }
        a = a + 1;
    }
    assert(strip_leading_zeros(ts.subrange(a as int, k as int)) == ts.subrange(a as int, k as int));
    let ghost before = out@;
    if a == k {
        out.push('0');
    } else {
        push_all(out, &t.as_slice()[a..k]);
    }
    let ghost int_part = out@.subrange(before.len() as int, out@.len() as int);
    assert(out@ =~= before + int_part);
    if k < t.len() {
        let mut b: usize = t.len();
        proof {
            assert(ts.subrange(k + 1, b as int) =~= ts.skip(k + 1));
        }
        while b > k + 1 && t[b - 1] == '0'
            invariant
                k + 1 <= b <= t.len(),
                ts == t@,
                strip_trailing_zeros(ts.skip(k + 1)) == strip_trailing_zeros(
                    ts.subrange(k + 1, b as int),
                ),
            decreases b,
        {
            proof {
                assert(ts.subrange(k + 1, b as int).drop_last() =~= ts.subrange(k + 1, b - 1));
            }
            b = b - 1;
        }
        assert(strip_trailing_zeros(ts.subrange(k + 1, b as int)) == ts.subrange(
            k + 1,
            b as int,
        ));
        if b > k + 1 {
            out.push('.');
            push_all(out, &t.as_slice()[k + 1..b]);
            assert(out@ =~= before + int_part + seq!['.'] + ts.subrange(k + 1, b as int));
        }
    }
}

/// Rewrites each number token of `input` in canonical form (see
/// [`canonical_token`]). A token starts at an ASCII digit that does not
/// follow an ASCII letter or `_`.
pub fn canonicalize(input: &str) -> (out: String)
    ensures
        out@ == canonicalize_spec(input@),
{
    let chars = chars_of(input);
    let ghost s = chars@;
    let mut out: Vec<char> = Vec::new();
    let mut after_word = false;
    let mut i: usize = 0;
    while i < chars.len()
        invariant
            i <= chars.len(),
            s == chars@,
            out@ + canon_from(s, i as int, after_word) == canonicalize_spec(s),
        decreases chars.len() - i,
    {
        let c = chars[i];
        let ghost before = out@;
        if ascii_digit(c) && !after_word {
            let end = scan_number(&chars, i);
            push_canonical_token(&mut out, &chars, i, end);
            proof {
                assert(out@ + canon_from(s, end as int, false) =~= before + (canonical_token(
                    s.subrange(i as int, end as int),
                ) + canon_from(s, end as int, false)));
            }
            i = end;
            after_word = false;
        } else {
            out.push(c);
            proof {
                assert(out@ + canon_from(s, i + 1, is_word_char(c)) =~= before + (seq![c]
                    + canon_from(s, i + 1, is_word_char(c))));
            }
            after_word = ('A' <= c && c <= 'Z') || ('a' <= c && c <= 'z') || c == '_';
            i = i + 1;
        }
    }
    proof {
        assert(out@ + Seq::<char>::empty() =~= out@);
    }
    string_of(&out)
}


// ---- what a token stands for ----

/// The digits of a number token without commas, its `.` left out.
pub open spec fn token_digits(t: Seq<char>) -> Seq<char> {
    let k = first_index_from(t, '.', 0);
    if k < t.len() {
        t.take(k) + t.skip(k + 1)
    } else {
        t
    }
}

/// The number of digits after the `.` of a number token without commas.
pub open spec fn token_scale(t: Seq<char>) -> nat {
    let k = first_index_from(t, '.', 0);
    if k < t.len() {
        (t.len() - k - 1) as nat
    } else {
        0
    }
}

/// Whether `t` is made of ASCII digits and at most one `.`.
pub open spec fn plain_number(t: Seq<char>) -> bool {
    &&& forall|x: int| 0 <= x < t.len() ==> is_ascii_digit(#[trigger] t[x]) || t[x] == '.'
    &&& forall|x: int, y: int| 0 <= x < t.len() && 0 <= y < t.len() && #[trigger] t[x] == '.'
        && #[trigger] t[y] == '.' ==> x == y
}

proof fn lemma_first_index(t: Seq<char>, c: char, i: int)
    requires
        0 <= i <= t.len(),
    ensures
        i <= first_index_from(t, c, i) <= t.len(),
        forall|x: int| i <= x < first_index_from(t, c, i) ==> t[x] != c,
        first_index_from(t, c, i) < t.len() ==> t[first_index_from(t, c, i)] == c,
    decreases t.len() - i,
{
    if i < t.len() && t[i] != c {
        lemma_first_index(t, c, i + 1);
    }
}

proof fn lemma_pow10_add(a: nat, b: nat)
    ensures
        pow10(a + b) == pow10(a) * pow10(b),
        pow10(a) >= 1,
    decreases a,
{
    if a > 0 {
        lemma_pow10_add((a - 1) as nat, b);
        assert(pow10(a + b) == 10 * pow10((a - 1 + b) as nat));
        assert(10 * (pow10((a - 1) as nat) * pow10(b)) == (10 * pow10((a - 1) as nat)) * pow10(b))
            by (nonlinear_arith);
    }
}

proof fn lemma_value_concat(a: Seq<char>, b: Seq<char>)
    ensures
        decimal_value(a + b) == decimal_value(a) * pow10(b.len()) + decimal_value(b),
    decreases b.len(),
{
    if b.len() == 0 {
        assert(a + b =~= a);
    } else {
        lemma_value_concat(a, b.drop_last());
        assert((a + b).drop_last() =~= a + b.drop_last());
        assert((a + b).last() == b.last());
        let x = decimal_value(a);
        let p = pow10(b.drop_last().len());
        let y = decimal_value(b.drop_last());
        assert(pow10(b.len()) == 10 * p);
        assert((x * p + y) * 10 == x * (10 * p) + y * 10) by (nonlinear_arith);
    }
}

proof fn lemma_zero_value()
    ensures
        decimal_value(seq!['0']) == 0,
        decimal_value(Seq::<char>::empty()) == 0,
{
    let z = seq!['0'];
    assert(z.drop_last() =~= Seq::<char>::empty());
    assert(z.last() == '0');
    assert(ascii_digit_value('0') == 0);
    assert(decimal_value(z) == decimal_value(z.drop_last()) * 10 + ascii_digit_value(z.last()));
}

proof fn lemma_leading_zeros_value(s: Seq<char>)
    ensures
        decimal_value(strip_leading_zeros(s)) == decimal_value(s),
        exists|n: int| 0 <= n <= s.len() && strip_leading_zeros(s) == s.skip(n),
        strip_leading_zeros(s).len() > 0 ==> strip_leading_zeros(s)[0] != '0',
    decreases s.len(),
{
    if s.len() > 0 && s[0] == '0' {
        lemma_leading_zeros_value(s.skip(1));
        assert(s =~= seq!['0'] + s.skip(1));
        lemma_value_concat(seq!['0'], s.skip(1));
        lemma_zero_value();
        let n = choose|n: int| 0 <= n <= s.skip(1).len() && strip_leading_zeros(s.skip(1)) == s.skip(1).skip(n);
        assert(s.skip(1).skip(n) =~= s.skip(n + 1));
    } else {
        assert(s.skip(0) =~= s);
    }
}

proof fn lemma_trailing_zeros_value(s: Seq<char>)
    ensures
        strip_trailing_zeros(s).len() <= s.len(),
        strip_trailing_zeros(s) == s.take(strip_trailing_zeros(s).len() as int),
        strip_trailing_zeros(s).len() > 0 ==> strip_trailing_zeros(s).last() != '0',
        decimal_value(s) == decimal_value(strip_trailing_zeros(s)) * pow10(
            (s.len() - strip_trailing_zeros(s).len()) as nat,
        ),
    decreases s.len(),
{
    let r = strip_trailing_zeros(s);
    if s.len() > 0 && s.last() == '0' {
        lemma_trailing_zeros_value(s.drop_last());
        assert(s.drop_last().take(r.len() as int) =~= s.take(r.len() as int));
        let m = (s.drop_last().len() - r.len()) as nat;
        assert(pow10(m + 1) == 10 * pow10(m));
        assert((decimal_value(r) * pow10(m)) * 10 == decimal_value(r) * (10 * pow10(m)))
            by (nonlinear_arith);
        assert(ascii_digit_value('0') == 0);
    } else {
        assert(s.take(s.len() as int) =~= s);
    }
}

/// A canonical token stands for the same number as the token it replaces:
/// with the commas dropped, reading the digits as an integer `N` and the
/// number of digits after the `.` as `e` (the value being `N / 10^e`),
/// `N(canonical) * 10^e(token) == N(token) * 10^e(canonical)`. So the
/// fraction's digits keep their places (`1.05` stays `1.05`).
pub proof fn lemma_canonical_token_value(tok: Seq<char>)
    requires
        plain_number(tok.filter(|c: char| c != ',')),
    ensures
        ({
            let t = tok.filter(|c: char| c != ',');
            let c = canonical_token(tok);
            decimal_value(token_digits(c)) * pow10(token_scale(t)) == decimal_value(
                token_digits(t),
            ) * pow10(token_scale(c))
        }),
{
    let t = tok.filter(|c: char| c != ',');
    let c = canonical_token(tok);
    let k = first_index_from(t, '.', 0);
    lemma_first_index(t, '.', 0);
    let ti = t.take(k);
    let ip = strip_leading_zeros(ti);
    lemma_leading_zeros_value(ti);
    let int_part = if ip.len() == 0 {
        seq!['0']
    } else {
        ip
    };
    lemma_zero_value();
    assert(decimal_value(int_part) == decimal_value(ti));
    assert forall|x: int| 0 <= x < int_part.len() implies int_part[x] != '.' by {
        if ip.len() > 0 {
            let n = choose|n: int| 0 <= n <= ti.len() && strip_leading_zeros(ti) == ti.skip(n);
            assert(int_part[x] == ti[x + n]);
        }
    }
    lemma_first_index(int_part, '.', 0);
    if k < t.len() {
        let tf = t.skip(k + 1);
        let fp = strip_trailing_zeros(tf);
        lemma_trailing_zeros_value(tf);
        let m = (tf.len() - fp.len()) as nat;
        assert(token_digits(t) == ti + tf);
        assert(token_scale(t) == tf.len());
        lemma_value_concat(ti, tf);
        lemma_pow10_add(fp.len(), m);
        assert(fp.len() + m == tf.len());
        if fp.len() > 0 {
            assert(c == int_part + seq!['.'] + fp);
            lemma_first_index(c, '.', 0);
            assert(c[int_part.len() as int] == '.');
            assert(first_index_from(c, '.', 0) == int_part.len());
            assert(c.take(int_part.len() as int) =~= int_part);
            assert(c.skip(int_part.len() as int + 1) =~= fp);
            assert(token_digits(c) == int_part + fp);
            assert(token_scale(c) == fp.len());
            lemma_value_concat(int_part, fp);
            let a = decimal_value(ti);
            let d = decimal_value(fp);
            let pf = pow10(fp.len());
            let pm = pow10(m);
            assert((a * pf + d) * (pf * pm) == (a * (pf * pm) + d * pm) * pf) by (nonlinear_arith);
        } else {
            assert(c == int_part);
            assert(first_index_from(c, '.', 0) == c.len());
            assert(fp =~= Seq::<char>::empty());
            assert(decimal_value(fp) == 0);
            assert(pow10(0) == 1);
            assert(pow10(fp.len()) == 1);
        }
    } else {
        assert(t.take(k) =~= t);
        assert(c == int_part);
        assert(first_index_from(c, '.', 0) == c.len());
        assert(pow10(0) == 1);
    }
}


/// A canonical token is in canonical form: digits and at most one `.`, no
/// comma; the integer part is not empty and starts with `0` only when it
/// is `0`; a `.` is followed by digits, the last of which is not `0`.
pub proof fn lemma_canonical_token_form(tok: Seq<char>)
    requires
        plain_number(tok.filter(|c: char| c != ',')),
    ensures
        ({
            let c = canonical_token(tok);
            let k = first_index_from(c, '.', 0);
            &&& plain_number(c)
            &&& 1 <= k
            &&& c[0] == '0' ==> k == 1
            &&& k < c.len() ==> k + 1 < c.len() && c.last() != '0'
        }),
{
    let t = tok.filter(|c: char| c != ',');
    let c = canonical_token(tok);
    let k = first_index_from(t, '.', 0);
    lemma_first_index(t, '.', 0);
    let ti = t.take(k);
    let ip = strip_leading_zeros(ti);
    lemma_leading_zeros_value(ti);
    let int_part = if ip.len() == 0 {
        seq!['0']
    } else {
        ip
    };
    assert forall|x: int| 0 <= x < int_part.len() implies is_ascii_digit(int_part[x]) by {
        if ip.len() > 0 {
            let n = choose|n: int| 0 <= n <= ti.len() && strip_leading_zeros(ti) == ti.skip(n);
            assert(int_part[x] == ti[x + n]);
            assert(t[x + n] != '.');
        }
    }
    assert(int_part.len() >= 1);
    assert(int_part[0] == '0' ==> int_part.len() == 1);
    if k < t.len() {
        let tf = t.skip(k + 1);
        let fp = strip_trailing_zeros(tf);
        lemma_trailing_zeros_value(tf);
        assert forall|x: int| 0 <= x < fp.len() implies is_ascii_digit(fp[x]) by {
            assert(fp[x] == tf[x]);
            assert(tf[x] == t[x + k + 1]);
            assert(t[k] == '.');
        }
        if fp.len() > 0 {
            assert(c == int_part + seq!['.'] + fp);
            lemma_first_index(c, '.', 0);
            assert(c[int_part.len() as int] == '.');
            assert(first_index_from(c, '.', 0) == int_part.len());
            assert(c.last() == fp.last());
            assert forall|x: int| 0 <= x < c.len() implies is_ascii_digit(#[trigger] c[x]) || c[x] == '.' by {
                if x < int_part.len() {
                    assert(c[x] == int_part[x]);
                } else if x > int_part.len() {
                    assert(c[x] == fp[x - int_part.len() - 1]);
                }
            }
            assert forall|x: int, y: int| 0 <= x < c.len() && 0 <= y < c.len() && #[trigger] c[x] == '.'
                && #[trigger] c[y] == '.' implies x == y by {
                if x < int_part.len() {
                    assert(c[x] == int_part[x]);
                } else if x > int_part.len() {
                    assert(c[x] == fp[x - int_part.len() - 1]);
                }
                if y < int_part.len() {
                    assert(c[y] == int_part[y]);
                } else if y > int_part.len() {
                    assert(c[y] == fp[y - int_part.len() - 1]);
                }
            }
        } else {
            assert(c == int_part);
            lemma_first_index(c, '.', 0);
        }
    } else {
        assert(c == int_part);
        lemma_first_index(c, '.', 0);
    }
}

} // verus!
