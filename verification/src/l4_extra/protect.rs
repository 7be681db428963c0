//! Finds the regions that normalization must leave alone: URLs, e-mail
//! addresses, `@mention`s and `#hashtag`s.
//!
//! A small scanner, not RFC-complete: it covers the forms that occur in
//! practice.
use vstd::prelude::*;
use vstd::utf8::encode_utf8;
use std::ops::Range;
use crate::text::{chars_of, is_ascii_alnum, ascii_alnum};

verus! {

/// The kind of a protected region.
#[derive(Debug, Clone, Copy, PartialEq, Eq, Structural)]
pub enum Kind {
    /// A URL starting with `http://` or `https://`.
    Url,
    /// An e-mail address.
    Email,
    /// An `@username` mention.
    Mention,
    /// A `#tag` hashtag.
    Hashtag,
}

/// A protected region: a **byte** range of the input and its kind.
#[derive(Debug)]
pub struct Span {
    /// The byte range in the input text.
    pub range: Range<usize>,
    /// The kind of region.
    pub kind: Kind,
}

impl Clone for Span {
    fn clone(&self) -> (r: Self)
        ensures
            r.range.start == self.range.start,
            r.range.end == self.range.end,
            r.kind == self.kind,
    {
        Span { range: self.range.start..self.range.end, kind: self.kind }
    }
}

/// Which kinds of region are protected.
#[derive(Debug, Clone, Copy, PartialEq, Eq, Structural)]
pub struct ProtectConfig {
    /// Protect URLs.
    pub urls: bool,
    /// Protect e-mail addresses.
    pub emails: bool,
    /// Protect `@mention`s.
    pub mentions: bool,
    /// Protect `#hashtag`s.
    pub hashtags: bool,
}

impl Default for ProtectConfig {
    fn default() -> (r: Self)
        ensures
            !r.any_spec(),
    {
        ProtectConfig::none()
    }
}

impl ProtectConfig {
    /// Protects every kind.
    pub fn all() -> (r: Self)
        ensures
            r.urls && r.emails && r.mentions && r.hashtags,
    {
        ProtectConfig { urls: true, emails: true, mentions: true, hashtags: true }
    }

    /// Protects nothing.
    pub fn none() -> (r: Self)
        ensures
            !r.urls && !r.emails && !r.mentions && !r.hashtags,
    {
        ProtectConfig { urls: false, emails: false, mentions: false, hashtags: false }
    }

    /// Whether regions of kind `k` are protected.
    pub open spec fn protects(&self, k: Kind) -> bool {
        match k {
            Kind::Url => self.urls,
            Kind::Email => self.emails,
            Kind::Mention => self.mentions,
            Kind::Hashtag => self.hashtags,
        }
    }

    /// Whether some kind is protected.
    pub open spec fn any_spec(&self) -> bool {
        self.urls || self.emails || self.mentions || self.hashtags
    }

    /// Whether some kind is protected.
    pub fn any(&self) -> (b: bool)
        ensures
            b == self.any_spec(),
    {
        self.urls || self.emails || self.mentions || self.hashtags
    }
}

// ---- matching at one position (character indices) ----

/// ASCII lower case of `c` (other characters unchanged).
pub open spec fn ascii_lower(c: char) -> char {
    if 'A' <= c && c <= 'Z' {
        ((c as u32) + 32) as char
    } else {
        c
    }
}

/// Whether `s[i..]` starts with `p`, ASCII letters compared without case.
pub open spec fn starts_with_nocase(s: Seq<char>, i: int, p: Seq<char>) -> bool {
    0 <= i && i + p.len() <= s.len() && forall|k: int|
        0 <= k < p.len() ==> #[trigger] ascii_lower(s[i + k]) == p[k]
}

/// The length of the scheme at `i` (`https://` 8, `http://` 7), or 0. The
/// text from `i` must hold at least eight bytes, so `http://` needs a
/// character after it.
pub open spec fn url_prefix_len(s: Seq<char>, i: int) -> int {
    if starts_with_nocase(s, i, seq!['h', 't', 't', 'p', 's', ':', '/', '/']) {
        8
    } else if i + 8 <= s.len() && starts_with_nocase(s, i, seq!['h', 't', 't', 'p', ':', '/', '/']) {
        7
    } else {
        0
    }
}

/// Characters allowed in a URL: ASCII letters and digits and
/// `-._~:/?#[]@!$&'()*+,;=%`.
pub open spec fn is_url_char(c: char) -> bool {
    is_ascii_alnum(c) || c == '-' || c == '.' || c == '_' || c == '~' || c == ':' || c == '/'
        || c == '?' || c == '#' || c == '[' || c == ']' || c == '@' || c == '!' || c == '$' || c
        == '&' || c == '\'' || c == '(' || c == ')' || c == '*' || c == '+' || c == ',' || c == ';'
        || c == '=' || c == '%'
}

/// Punctuation that does not end a URL: `.`, `,`, `)`, `?`, `!`.
pub open spec fn is_url_trailing(c: char) -> bool {
    c == '.' || c == ',' || c == ')' || c == '?' || c == '!'
}

/// Where the run of characters satisfying `p` from `j` ends.
pub open spec fn run_end(s: Seq<char>, j: int, p: spec_fn(char) -> bool) -> int
    decreases s.len() - j,
{
    if 0 <= j < s.len() && p(s[j]) {
        run_end(s, j + 1, p)
    } else {
        j
    }
}

pub proof fn lemma_run_end_bounds(s: Seq<char>, j: int, p: spec_fn(char) -> bool)
    requires
        0 <= j <= s.len(),
    ensures
        j <= run_end(s, j, p) <= s.len(),
    decreases s.len() - j,
{
    if 0 <= j < s.len() && p(s[j]) {
        lemma_run_end_bounds(s, j + 1, p);
    }
}

/// `end` moved back over trailing punctuation, not below `lo`.
pub open spec fn trim_trailing(s: Seq<char>, lo: int, end: int) -> int
    decreases end - lo,
{
    if end > lo && is_url_trailing(s[end - 1]) {
        trim_trailing(s, lo, end - 1)
    } else {
        end
    }
}

/// The end of the URL starting at `i`, if one starts there.
pub open spec fn match_url_spec(s: Seq<char>, i: int) -> Option<int> {
    let p = url_prefix_len(s, i);
    if p == 0 {
        None
    } else {
        let e = trim_trailing(s, i + p, run_end(s, i + p, |c: char| is_url_char(c)));
        if e > i + p {
            Some(e)
        } else {
            None
        }
    }
}

/// Characters of the local part of an e-mail address.
pub open spec fn is_local_char(c: char) -> bool {
    is_ascii_alnum(c) || c == '.' || c == '_' || c == '+' || c == '-' || c == '%'
}

/// Characters of the domain of an e-mail address.
pub open spec fn is_domain_char(c: char) -> bool {
    is_ascii_alnum(c) || c == '.' || c == '-'
}

/// Where the local part that ends at `k` starts, not before `lo`.
pub open spec fn local_start(s: Seq<char>, lo: int, k: int) -> int
    decreases k - lo,
{
    if lo < k <= s.len() && is_local_char(s[k - 1]) {
        local_start(s, lo, k - 1)
    } else {
        k
    }
}

/// The e-mail address around the `@` at `i`, as its start and end: a
/// non-empty local part before, starting at `lo` or later (the end of the
/// region found before, so that regions never overlap), a domain after that
/// holds a `.` and does not end with one.
pub open spec fn match_email_spec(s: Seq<char>, i: int, lo: int) -> Option<(int, int)> {
    if !(0 <= i < s.len() && s[i] == '@') {
        None
    } else {
        let start = local_start(s, lo, i);
        let end = run_end(s, i + 1, |c: char| is_domain_char(c));
        let domain = s.subrange(i + 1, end);
        if start == i || !domain.contains('.') || domain.last() == '.' {
            None
        } else {
            Some((start, end))
        }
    }
}

/// Characters of a mention or hashtag name.
pub open spec fn is_name_char(c: char) -> bool {
    is_ascii_alnum(c) || c == '_'
}

/// The end of the `@name` / `#name` (prefix `p`) at `i`. Not after an ASCII
/// letter, digit or `_` (then it is part of an address or a word).
pub open spec fn match_prefixed_spec(s: Seq<char>, i: int, p: char) -> Option<int> {
    if !(0 <= i < s.len() && s[i] == p) || (i > 0 && is_name_char(s[i - 1])) {
        None
    } else {
        let end = run_end(s, i + 1, |c: char| is_name_char(c));
        if end > i + 1 {
            Some(end)
        } else {
            None
        }
    }
}

pub proof fn lemma_matches_advance(s: Seq<char>, i: int, lo: int)
    requires
        0 <= lo <= i < s.len(),
    ensures
        match_url_spec(s, i) matches Some(e) ==> i < e <= s.len(),
        match_email_spec(s, i, lo) matches Some((a, e)) ==> lo <= a <= i < e <= s.len(),
        match_prefixed_spec(s, i, '@') matches Some(e) ==> i < e <= s.len(),
        match_prefixed_spec(s, i, '#') matches Some(e) ==> i < e <= s.len(),
{
    let p = url_prefix_len(s, i);
    if p > 0 {
        lemma_run_end_bounds(s, i + p, |c: char| is_url_char(c));
        lemma_trim_trailing_bounds(s, i + p, run_end(s, i + p, |c: char| is_url_char(c)));
    }
    if i + 1 <= s.len() {
        lemma_run_end_bounds(s, i + 1, |c: char| is_domain_char(c));
        lemma_run_end_bounds(s, i + 1, |c: char| is_name_char(c));
    }
    lemma_local_start_bounds(s, lo, i);
}

pub proof fn lemma_trim_trailing_bounds(s: Seq<char>, lo: int, end: int)
    requires
        lo <= end,
    ensures
        lo <= trim_trailing(s, lo, end) <= end,
    decreases end - lo,
{
    if end > lo && is_url_trailing(s[end - 1]) {
        lemma_trim_trailing_bounds(s, lo, end - 1);
    }
}

pub proof fn lemma_local_start_bounds(s: Seq<char>, lo: int, k: int)
    requires
        0 <= lo <= k <= s.len(),
    ensures
        lo <= local_start(s, lo, k) <= k,
    decreases k - lo,
{
    if lo < k <= s.len() && is_local_char(s[k - 1]) {
        lemma_local_start_bounds(s, lo, k - 1);
    }
}

// ---- scanning ----

/// The protected regions of `s` from `i` on, as character ranges with their
/// kind, tried in the order URL, e-mail, mention, hashtag; after a region
/// the scan goes on at its end. `lo` is the end of the region found last
/// (0 before the first).
pub open spec fn scan_from(s: Seq<char>, i: int, lo: int, cfg: ProtectConfig) -> Seq<
    (int, int, Kind),
>
    decreases s.len() - i,
{
    if i < 0 || i >= s.len() || lo < 0 || lo > i {
        seq![]
    } else {
        proof {
            lemma_matches_advance(s, i, lo);
        }
        if cfg.urls && match_url_spec(s, i) is Some {
            let e = match_url_spec(s, i)->0;
            seq![(i, e, Kind::Url)] + scan_from(s, e, e, cfg)
        } else if cfg.emails && match_email_spec(s, i, lo) is Some {
            let (a, e) = match_email_spec(s, i, lo)->0;
            seq![(a, e, Kind::Email)] + scan_from(s, e, e, cfg)
        } else if cfg.mentions && match_prefixed_spec(s, i, '@') is Some {
            let e = match_prefixed_spec(s, i, '@')->0;
            seq![(i, e, Kind::Mention)] + scan_from(s, e, e, cfg)
        } else if cfg.hashtags && match_prefixed_spec(s, i, '#') is Some {
            let e = match_prefixed_spec(s, i, '#')->0;
            seq![(i, e, Kind::Hashtag)] + scan_from(s, e, e, cfg)
        } else {
            scan_from(s, i + 1, lo, cfg)
        }
    }
}

/// The protected regions of `s`, as character ranges.
pub open spec fn scan_spec(s: Seq<char>, cfg: ProtectConfig) -> Seq<(int, int, Kind)> {
    if !cfg.any_spec() {
        seq![]
    } else {
        scan_from(s, 0, 0, cfg)
    }
}

/// Whether the regions `r` (character ranges of a text of `n` characters)
/// are well placed: each is non-empty, within the text, from `lo` on and of
/// a kind that `cfg` protects, and they come in order without overlapping.
pub open spec fn regions_ordered(r: Seq<(int, int, Kind)>, lo: int, n: int, cfg: ProtectConfig) -> bool {
    &&& forall|j: int|
        0 <= j < r.len() ==> lo <= (#[trigger] r[j]).0 < r[j].1 <= n && cfg.protects(r[j].2)
    &&& forall|j: int| 0 <= j && j + 1 < r.len() ==> (#[trigger] r[j]).1 <= r[j + 1].0
}

/// The regions found from `i` on are well placed.
pub proof fn lemma_scan_from_ordered(s: Seq<char>, i: int, lo: int, cfg: ProtectConfig)
    requires
        0 <= lo,
    ensures
        regions_ordered(scan_from(s, i, lo, cfg), lo, s.len() as int, cfg),
    decreases s.len() - i,
{
    let r = scan_from(s, i, lo, cfg);
    if i < 0 || i >= s.len() || lo < 0 || lo > i {
    } else {
        lemma_matches_advance(s, i, lo);
        if cfg.urls && match_url_spec(s, i) is Some {
            let e = match_url_spec(s, i)->0;
            lemma_scan_from_ordered(s, e, e, cfg);
            lemma_prepend_ordered(seq![(i, e, Kind::Url)], scan_from(s, e, e, cfg), lo, e, s.len() as int, cfg);
        } else if cfg.emails && match_email_spec(s, i, lo) is Some {
            let (a, e) = match_email_spec(s, i, lo)->0;
            lemma_scan_from_ordered(s, e, e, cfg);
            lemma_prepend_ordered(seq![(a, e, Kind::Email)], scan_from(s, e, e, cfg), lo, e, s.len() as int, cfg);
        } else if cfg.mentions && match_prefixed_spec(s, i, '@') is Some {
            let e = match_prefixed_spec(s, i, '@')->0;
            lemma_scan_from_ordered(s, e, e, cfg);
            lemma_prepend_ordered(seq![(i, e, Kind::Mention)], scan_from(s, e, e, cfg), lo, e, s.len() as int, cfg);
        } else if cfg.hashtags && match_prefixed_spec(s, i, '#') is Some {
            let e = match_prefixed_spec(s, i, '#')->0;
            lemma_scan_from_ordered(s, e, e, cfg);
            lemma_prepend_ordered(seq![(i, e, Kind::Hashtag)], scan_from(s, e, e, cfg), lo, e, s.len() as int, cfg);
        } else {
            lemma_scan_from_ordered(s, i + 1, lo, cfg);
        }
    }
}

proof fn lemma_prepend_ordered(
    head: Seq<(int, int, Kind)>,
    rest: Seq<(int, int, Kind)>,
    lo: int,
    e: int,
    n: int,
    cfg: ProtectConfig,
)
    requires
        head.len() == 1,
        lo <= head[0].0 < head[0].1 == e <= n,
        cfg.protects(head[0].2),
        regions_ordered(rest, e, n, cfg),
    ensures
        regions_ordered(head + rest, lo, n, cfg),
{
    let r = head + rest;
    assert forall|j: int| 0 <= j < r.len() implies lo <= (#[trigger] r[j]).0 < r[j].1 <= n
        && cfg.protects(r[j].2) by {
        if j > 0 {
            assert(r[j] == rest[j - 1]);
        }
    }
    assert forall|j: int| 0 <= j && j + 1 < r.len() implies (#[trigger] r[j]).1 <= r[j + 1].0 by {
        assert(r[j + 1] == rest[j]);
        if j > 0 {
            assert(r[j] == rest[j - 1]);
        }
    }
}

fn lower_ascii(c: char) -> (r: char)
    ensures
        r == ascii_lower(c),
{
    if 'A' <= c && c <= 'Z' {
        ((c as u8) + 32) as char
    } else {
        c
    }
}

fn match_url(s: &Vec<char>, i: usize) -> (r: Option<usize>)
    requires
        i < s.len(),
    ensures
        r matches Some(e) ==> match_url_spec(s@, i as int) == Some(e as int),
        r is None ==> match_url_spec(s@, i as int) is None,
{
    let ghost v = s@;
    let ghost https = seq!['h', 't', 't', 'p', 's', ':', '/', '/'];
    let ghost http = seq!['h', 't', 't', 'p', ':', '/', '/'];
    let mut p: usize = 0;
    if s.len() - i >= 8 {
        let c0 = lower_ascii(s[i]);
        let c1 = lower_ascii(s[i + 1]);
        let c2 = lower_ascii(s[i + 2]);
        let c3 = lower_ascii(s[i + 3]);
        let c4 = lower_ascii(s[i + 4]);
        let c5 = lower_ascii(s[i + 5]);
        let c6 = lower_ascii(s[i + 6]);
        let c7 = lower_ascii(s[i + 7]);
        if c0 == 'h' && c1 == 't' && c2 == 't' && c3 == 'p' && c4 == 's' && c5 == ':' && c6 == '/'
            && c7 == '/' {
            p = 8;
            proof {
                assert forall|k: int| 0 <= k < 8 implies #[trigger] ascii_lower(v[i + k])
                    == https[k] by {
                    if k == 0 {
                    } else if k == 1 {
                    } else if k == 2 {
                    } else if k == 3 {
                    } else if k == 4 {
                    } else if k == 5 {
                    } else if k == 6 {
                    } else {
                    }
                }
            }
        } else if c0 == 'h' && c1 == 't' && c2 == 't' && c3 == 'p' && c4 == ':' && c5 == '/' && c6
            == '/' {
            p = 7;
            proof {
                assert(!(ascii_lower(v[i + 4]) == https[4]) || !(ascii_lower(v[i + 5]) == https[5])
                    || !(ascii_lower(v[i + 6]) == https[6]) || !(ascii_lower(v[i + 7]) == https[7])
                    || !(ascii_lower(v[i + 0]) == https[0]) || !(ascii_lower(v[i + 1]) == https[1])
                    || !(ascii_lower(v[i + 2]) == https[2]) || !(ascii_lower(v[i + 3])
                    == https[3]));
                assert forall|k: int| 0 <= k < 7 implies #[trigger] ascii_lower(v[i + k])
                    == http[k] by {
                    if k == 0 {
                    } else if k == 1 {
                    } else if k == 2 {
                    } else if k == 3 {
                    } else if k == 4 {
                    } else if k == 5 {
                    } else {
                    }
                }
            }
        } else {
            proof {
                assert(!(ascii_lower(v[i + 4]) == https[4]) || !(ascii_lower(v[i + 5]) == https[5])
                    || !(ascii_lower(v[i + 6]) == https[6]) || !(ascii_lower(v[i + 7]) == https[7])
                    || !(ascii_lower(v[i + 0]) == https[0]) || !(ascii_lower(v[i + 1]) == https[1])
                    || !(ascii_lower(v[i + 2]) == https[2]) || !(ascii_lower(v[i + 3])
                    == https[3]));
                assert(!(ascii_lower(v[i + 4]) == http[4]) || !(ascii_lower(v[i + 5]) == http[5])
                    || !(ascii_lower(v[i + 6]) == http[6]) || !(ascii_lower(v[i + 0]) == http[0])
                    || !(ascii_lower(v[i + 1]) == http[1]) || !(ascii_lower(v[i + 2]) == http[2])
                    || !(ascii_lower(v[i + 3]) == http[3]));
            }
        }
    }
    assert(url_prefix_len(v, i as int) == p);
    if p == 0 {
        return None;
    }
    let lo = i + p;
    let mut end: usize = lo;
    while end < s.len() && url_char(s[end])
        invariant
            lo <= end <= s.len(),
            v == s@,
            run_end(v, end as int, |c: char| is_url_char(c)) == run_end(
                v,
                lo as int,
                |c: char| is_url_char(c),
            ),
        decreases s.len() - end,
    {
        end = end + 1;
    }
    assert(run_end(v, end as int, |c: char| is_url_char(c)) == end);
    let ghost raw = end;
    while end > lo && (s[end - 1] == '.' || s[end - 1] == ',' || s[end - 1] == ')' || s[end - 1]
        == '?' || s[end - 1] == '!')
        invariant
            lo <= end <= raw <= s.len(),
            v == s@,
            trim_trailing(v, lo as int, end as int) == trim_trailing(v, lo as int, raw as int),
        decreases end,
    {
        end = end - 1;
    }
    assert(trim_trailing(v, lo as int, end as int) == end);
    if end > lo {
        Some(end)
    } else {
        None
    }
}

fn url_char(c: char) -> (b: bool)
    ensures
        b == is_url_char(c),
{
    ascii_alnum(c) || c == '-' || c == '.' || c == '_' || c == '~' || c == ':' || c == '/' || c
        == '?' || c == '#' || c == '[' || c == ']' || c == '@' || c == '!' || c == '$' || c == '&'
        || c == '\'' || c == '(' || c == ')' || c == '*' || c == '+' || c == ',' || c == ';' || c
        == '=' || c == '%'
}

fn match_email(s: &Vec<char>, i: usize, lo: usize) -> (r: Option<(usize, usize)>)
    requires
        lo <= i < s.len(),
    ensures
        r matches Some((a, e)) ==> match_email_spec(s@, i as int, lo as int) == Some(
            (a as int, e as int),
        ),
        r is None ==> match_email_spec(s@, i as int, lo as int) is None,
{
    let ghost v = s@;
    if s[i] != '@' {
        return None;
    }
    let mut start: usize = i;
    while start > lo && (ascii_alnum(s[start - 1]) || s[start - 1] == '.' || s[start - 1] == '_'
        || s[start - 1] == '+' || s[start - 1] == '-' || s[start - 1] == '%')
        invariant
            lo <= start <= i < s.len(),
            v == s@,
            local_start(v, lo as int, start as int) == local_start(v, lo as int, i as int),
        decreases start,
    {
        start = start - 1;
    }
    assert(local_start(v, lo as int, start as int) == start);
    if start == i {
        return None;
    }
    let mut end: usize = i + 1;
    while end < s.len() && (ascii_alnum(s[end]) || s[end] == '.' || s[end] == '-')
        invariant
            i + 1 <= end <= s.len(),
            v == s@,
            run_end(v, end as int, |c: char| is_domain_char(c)) == run_end(
                v,
                i + 1,
                |c: char| is_domain_char(c),
            ),
        decreases s.len() - end,
    {
        end = end + 1;
    }
    assert(run_end(v, end as int, |c: char| is_domain_char(c)) == end);
    let ghost domain = v.subrange(i + 1, end as int);
    let mut has_dot = false;
    let mut k: usize = i + 1;
    while k < end
        invariant
            i + 1 <= k <= end <= s.len(),
            v == s@,
            domain == v.subrange(i + 1, end as int),
            has_dot <==> exists|x: int| i + 1 <= x < k && v[x] == '.',
        decreases end - k,
    {
        if s[k] == '.' {
            has_dot = true;
        }
        k = k + 1;
    }
    proof {
        if has_dot {
            let x = choose|x: int| i + 1 <= x < end && v[x] == '.';
            assert(domain[x - i - 1] == '.');
        } else {
            assert forall|x: int| 0 <= x < domain.len() implies domain[x] != '.' by {
                assert(domain[x] == v[x + i + 1]);
            }
        }
    }
    if !has_dot || s[end - 1] == '.' {
        return None;
    }
    Some((start, end))
}

fn match_prefixed(s: &Vec<char>, i: usize, p: char) -> (r: Option<usize>)
    requires
        i < s.len(),
    ensures
        r matches Some(e) ==> match_prefixed_spec(s@, i as int, p) == Some(e as int),
        r is None ==> match_prefixed_spec(s@, i as int, p) is None,
{
    let ghost v = s@;
    if s[i] != p {
        return None;
    }
    if i > 0 && (ascii_alnum(s[i - 1]) || s[i - 1] == '_') {
        return None;
    }
    let mut end: usize = i + 1;
    while end < s.len() && (ascii_alnum(s[end]) || s[end] == '_')
        invariant
            i + 1 <= end <= s.len(),
            v == s@,
            run_end(v, end as int, |c: char| is_name_char(c)) == run_end(
                v,
                i + 1,
                |c: char| is_name_char(c),
            ),
        decreases s.len() - end,
    {
        end = end + 1;
    }
    assert(run_end(v, end as int, |c: char| is_name_char(c)) == end);
    if end > i + 1 {
        Some(end)
    } else {
        None
    }
}

/// What a URL region `s[a..b]` is: it starts with `https://` or `http://`
/// (ASCII letters in either case) and holds more; every character in it is one of
/// the URL characters of RFC 3986 (ASCII letters and digits and
/// `-._~:/?#[]@!$&'()*+,;=%`), its last character is none of `.`, `,`,
/// `)`, `?`, `!`, and the run of URL characters going on after it holds only
/// those five.
pub open spec fn url_region_law(s: Seq<char>, a: int, b: int) -> bool {
    let rfc = |c: char|
        ('a' <= c && c <= 'z') || ('A' <= c && c <= 'Z') || ('0' <= c && c <= '9') || c == '-'
            || c == '.' || c == '_' || c == '~' || c == ':' || c == '/' || c == '?' || c == '#'
            || c == '[' || c == ']' || c == '@' || c == '!' || c == '$' || c == '&' || c == '\''
            || c == '(' || c == ')' || c == '*' || c == '+' || c == ',' || c == ';' || c == '='
            || c == '%';
    let punct = |c: char| c == '.' || c == ',' || c == ')' || c == '?' || c == '!';
    let lower = |c: char|
        if 'A' <= c && c <= 'Z' {
            ((c as u32) + 32) as char
        } else {
            c
        };
    &&& 0 <= a < b <= s.len()
    &&& (a + 8 < b && Seq::new(8, |k: int| lower(s[a + k])) == seq!['h', 't', 't', 'p', 's', ':', '/', '/'])
        || (a + 7 < b && Seq::new(7, |k: int| lower(s[a + k])) == seq!['h', 't', 't', 'p', ':', '/', '/'])
    &&& forall|x: int| a <= x < b ==> #[trigger] rfc(s[x])
    &&& !punct(s[b - 1])
    &&& forall|x: int|
        b <= x < s.len() && (forall|y: int| b <= y <= x ==> #[trigger] rfc(s[y])) ==> #[trigger] punct(
            s[x],
        )
}

proof fn lemma_run_end_all(s: Seq<char>, j: int, p: spec_fn(char) -> bool)
    requires
        0 <= j <= s.len(),
    ensures
        j <= run_end(s, j, p) <= s.len(),
        forall|x: int| j <= x < run_end(s, j, p) ==> #[trigger] p(s[x]),
        run_end(s, j, p) < s.len() ==> !p(s[run_end(s, j, p)]),
    decreases s.len() - j,
{
    lemma_run_end_bounds(s, j, p);
    if 0 <= j < s.len() && p(s[j]) {
        lemma_run_end_all(s, j + 1, p);
    }
}

proof fn lemma_trim_trailing_all(s: Seq<char>, lo: int, end: int)
    requires
        0 <= lo <= end <= s.len(),
    ensures
        lo <= trim_trailing(s, lo, end) <= end,
        forall|x: int| trim_trailing(s, lo, end) <= x < end ==> #[trigger] is_url_trailing(s[x]),
        trim_trailing(s, lo, end) > lo ==> !is_url_trailing(s[trim_trailing(s, lo, end) - 1]),
    decreases end - lo,
{
    lemma_trim_trailing_bounds(s, lo, end);
    if end > lo && is_url_trailing(s[end - 1]) {
        lemma_trim_trailing_all(s, lo, end - 1);
    }
}

/// A URL found at `i` obeys [`url_region_law`].
proof fn lemma_match_url_law(s: Seq<char>, i: int)
    requires
        0 <= i < s.len(),
        match_url_spec(s, i) is Some,
    ensures
        url_region_law(s, i, match_url_spec(s, i)->0),
{
    let p = url_prefix_len(s, i);
    assert(p == 7 || p == 8);
    assert(i + p <= s.len());
    let f = |c: char| is_url_char(c);
    let r = run_end(s, i + p, f);
    lemma_run_end_all(s, i + p, f);
    lemma_trim_trailing_all(s, i + p, r);
    let b = trim_trailing(s, i + p, r);
    assert(b == match_url_spec(s, i)->0);
    let rfc = |c: char|
        ('a' <= c && c <= 'z') || ('A' <= c && c <= 'Z') || ('0' <= c && c <= '9') || c == '-'
            || c == '.' || c == '_' || c == '~' || c == ':' || c == '/' || c == '?' || c == '#'
            || c == '[' || c == ']' || c == '@' || c == '!' || c == '$' || c == '&' || c == '\''
            || c == '(' || c == ')' || c == '*' || c == '+' || c == ',' || c == ';' || c == '='
            || c == '%';
    let punct = |c: char| c == '.' || c == ',' || c == ')' || c == '?' || c == '!';
    let lower = |c: char|
        if 'A' <= c && c <= 'Z' {
            ((c as u32) + 32) as char
        } else {
            c
        };
    if p == 8 {
        let w = seq!['h', 't', 't', 'p', 's', ':', '/', '/'];
        assert(Seq::new(8, |k: int| lower(s[i + k])) =~= w) by {
            assert forall|k: int| 0 <= k < 8 implies lower(s[i + k]) == w[k] by {
                assert(ascii_lower(s[i + k]) == w[k]);
            }
        }
    } else {
        let w = seq!['h', 't', 't', 'p', ':', '/', '/'];
        assert(Seq::new(7, |k: int| lower(s[i + k])) =~= w) by {
            assert forall|k: int| 0 <= k < 7 implies lower(s[i + k]) == w[k] by {
                assert(ascii_lower(s[i + k]) == w[k]);
            }
        }
    }
    assert forall|x: int| i <= x < b implies #[trigger] rfc(s[x]) by {
        if x >= i + p {
            assert(f(s[x]));
        } else if p == 8 {
            let w = seq!['h', 't', 't', 'p', 's', ':', '/', '/'];
            assert(ascii_lower(s[i + (x - i)]) == w[x - i]);
        } else {
            let w = seq!['h', 't', 't', 'p', ':', '/', '/'];
            assert(ascii_lower(s[i + (x - i)]) == w[x - i]);
        }
    }
    assert forall|x: int|
        b <= x < s.len() && (forall|y: int| b <= y <= x ==> #[trigger] rfc(s[y])) implies #[trigger] punct(
        s[x],
    ) by {
        if x >= r {
            assert(rfc(s[r]));
            assert(!f(s[r]));
        } else {
            assert(is_url_trailing(s[x]));
        }
    }
}

/// Every URL region found from `i` on obeys [`url_region_law`].
proof fn lemma_scan_from_urls(s: Seq<char>, i: int, lo: int, cfg: ProtectConfig)
    ensures
        forall|j: int|
            0 <= j < scan_from(s, i, lo, cfg).len() && (#[trigger] scan_from(s, i, lo, cfg)[j]).2
                == Kind::Url ==> url_region_law(s, scan_from(s, i, lo, cfg)[j].0, scan_from(s, i, lo, cfg)[j].1),
    decreases s.len() - i,
{
    let r = scan_from(s, i, lo, cfg);
    if i < 0 || i >= s.len() || lo < 0 || lo > i {
    } else {
        lemma_matches_advance(s, i, lo);
        if cfg.urls && match_url_spec(s, i) is Some {
            let e = match_url_spec(s, i)->0;
            lemma_match_url_law(s, i);
            lemma_scan_from_urls(s, e, e, cfg);
            let rest = scan_from(s, e, e, cfg);
            assert forall|j: int| 0 <= j < r.len() && (#[trigger] r[j]).2 == Kind::Url implies url_region_law(s, r[j].0, r[j].1) by {
                if j > 0 {
                    assert(r[j] == rest[j - 1]);
                }
            }
        } else if cfg.emails && match_email_spec(s, i, lo) is Some {
            let (a, e) = match_email_spec(s, i, lo)->0;
            lemma_scan_from_urls(s, e, e, cfg);
            let rest = scan_from(s, e, e, cfg);
            assert forall|j: int| 0 <= j < r.len() && (#[trigger] r[j]).2 == Kind::Url implies url_region_law(s, r[j].0, r[j].1) by {
                if j > 0 {
                    assert(r[j] == rest[j - 1]);
                }
            }
        } else if cfg.mentions && match_prefixed_spec(s, i, '@') is Some {
            let e = match_prefixed_spec(s, i, '@')->0;
            lemma_scan_from_urls(s, e, e, cfg);
            let rest = scan_from(s, e, e, cfg);
            assert forall|j: int| 0 <= j < r.len() && (#[trigger] r[j]).2 == Kind::Url implies url_region_law(s, r[j].0, r[j].1) by {
                if j > 0 {
                    assert(r[j] == rest[j - 1]);
                }
            }
        } else if cfg.hashtags && match_prefixed_spec(s, i, '#') is Some {
            let e = match_prefixed_spec(s, i, '#')->0;
            lemma_scan_from_urls(s, e, e, cfg);
            let rest = scan_from(s, e, e, cfg);
            assert forall|j: int| 0 <= j < r.len() && (#[trigger] r[j]).2 == Kind::Url implies url_region_law(s, r[j].0, r[j].1) by {
                if j > 0 {
                    assert(r[j] == rest[j - 1]);
                }
            }
        } else {
            lemma_scan_from_urls(s, i + 1, lo, cfg);
        }
    }
}

/// Every URL region that [`scan`] finds runs over the URL characters of
/// RFC 3986 as far as they go, less trailing `.`, `,`, `)`, `?`, `!` (see
/// [`url_region_law`]).
pub proof fn lemma_url_regions(s: Seq<char>, cfg: ProtectConfig)
    ensures
        forall|j: int|
            0 <= j < scan_spec(s, cfg).len() && (#[trigger] scan_spec(s, cfg)[j]).2 == Kind::Url
                ==> url_region_law(s, scan_spec(s, cfg)[j].0, scan_spec(s, cfg)[j].1),
{
    if cfg.any_spec() {
        lemma_scan_from_urls(s, 0, 0, cfg);
    }
}

/// The regions found in `s` are well placed (see [`regions_ordered`]).
pub proof fn lemma_scan_spec_ordered(s: Seq<char>, cfg: ProtectConfig)
    ensures
        regions_ordered(scan_spec(s, cfg), 0, s.len() as int, cfg),
{
    if cfg.any_spec() {
        lemma_scan_from_ordered(s, 0, 0, cfg);
    }
}

/// The protected regions of `s` as character ranges (see [`scan_spec`]).
pub fn scan_chars(s: &Vec<char>, cfg: ProtectConfig) -> (r: Vec<(usize, usize, Kind)>)
    ensures
        r@.len() == scan_spec(s@, cfg).len(),
        forall|j: int|
            0 <= j < r@.len() ==> {
                let (a, b, k) = #[trigger] r@[j];
                scan_spec(s@, cfg)[j] == (a as int, b as int, k)
            },
        forall|j: int| 0 <= j < r@.len() ==> #[trigger] r@[j].0 <= r@[j].1 <= s@.len(),
{
    let ghost v = s@;
    let mut out: Vec<(usize, usize, Kind)> = Vec::new();
    if !cfg.any() {
        return out;
    }
    let ghost target = scan_spec(v, cfg);
    let ghost mut done: Seq<(int, int, Kind)> = seq![];
    let mut i: usize = 0;
    let mut lo: usize = 0;
    while i < s.len()
        invariant
            lo <= i <= s.len(),
            v == s@,
            cfg.any_spec(),
            target == scan_spec(v, cfg),
            done + scan_from(v, i as int, lo as int, cfg) == target,
            out@.len() == done.len(),
            forall|j: int|
                0 <= j < out@.len() ==> {
                    let (a, b, k) = #[trigger] out@[j];
                    done[j] == (a as int, b as int, k)
                },
            forall|j: int| 0 <= j < out@.len() ==> #[trigger] out@[j].0 <= out@[j].1 <= v.len(),
        decreases s.len() - i,
    {
        proof {
            lemma_matches_advance(v, i as int, lo as int);
        }
        if cfg.urls {
            if let Some(e) = match_url(s, i) {
                out.push((i, e, Kind::Url));
                proof {
                    assert(done.push((i as int, e as int, Kind::Url)) + scan_from(
                        v,
                        e as int,
                        e as int,
                        cfg,
                    ) =~= done + scan_from(v, i as int, lo as int, cfg));
                    done = done.push((i as int, e as int, Kind::Url));
                }
                i = e;
                lo = e;
                continue;
            }
        }
        if cfg.emails {
            if let Some((a, e)) = match_email(s, i, lo) {
                out.push((a, e, Kind::Email));
                proof {
                    assert(done.push((a as int, e as int, Kind::Email)) + scan_from(
                        v,
                        e as int,
                        e as int,
                        cfg,
                    ) =~= done + scan_from(v, i as int, lo as int, cfg));
                    done = done.push((a as int, e as int, Kind::Email));
                }
                i = e;
                lo = e;
                continue;
            }
        }
        if cfg.mentions {
            if let Some(e) = match_prefixed(s, i, '@') {
                out.push((i, e, Kind::Mention));
                proof {
                    assert(done.push((i as int, e as int, Kind::Mention)) + scan_from(
                        v,
                        e as int,
                        e as int,
                        cfg,
                    ) =~= done + scan_from(v, i as int, lo as int, cfg));
                    done = done.push((i as int, e as int, Kind::Mention));
                }
                i = e;
                lo = e;
                continue;
            }
        }
        if cfg.hashtags {
            if let Some(e) = match_prefixed(s, i, '#') {
                out.push((i, e, Kind::Hashtag));
                proof {
                    assert(done.push((i as int, e as int, Kind::Hashtag)) + scan_from(
                        v,
                        e as int,
                        e as int,
                        cfg,
                    ) =~= done + scan_from(v, i as int, lo as int, cfg));
                    done = done.push((i as int, e as int, Kind::Hashtag));
                }
                i = e;
                lo = e;
                continue;
            }
        }
        i = i + 1;
    }
    proof {
        assert(done + Seq::<(int, int, Kind)>::empty() =~= done);
    }
    out
}

// ---- byte offsets ----

/// The number of UTF-8 bytes of the first `k` characters of `s`.
pub open spec fn byte_offset(s: Seq<char>, k: int) -> int {
    encode_utf8(s.take(k)).len() as int
}

/// Whether `b` is a byte offset of `s` at a character boundary.
pub open spec fn is_boundary(s: Seq<char>, b: int) -> bool {
    exists|k: int| 0 <= k <= s.len() && byte_offset(s, k) == b
}

/// The character index at the byte offset `b` (meaningful when
/// [`is_boundary`] holds).
pub open spec fn char_index(s: Seq<char>, b: int) -> int {
    choose|k: int| 0 <= k <= s.len() && byte_offset(s, k) == b
}

pub proof fn lemma_encode_utf8_concat(a: Seq<char>, b: Seq<char>)
    ensures
        encode_utf8(a + b) == encode_utf8(a) + encode_utf8(b),
    decreases a.len(),
{
    if a.len() == 0 {
        assert(a + b =~= b);
        assert(encode_utf8(a) =~= Seq::<u8>::empty());
        assert(encode_utf8(a) + encode_utf8(b) =~= encode_utf8(b));
    } else {
        assert((a + b).drop_first() =~= a.drop_first() + b);
        lemma_encode_utf8_concat(a.drop_first(), b);
        assert((a + b)[0] == a[0]);
        assert(encode_utf8(a + b) =~= encode_utf8(a) + encode_utf8(b));
    }
}

/// The UTF-8 width of `c`, 1 to 4 bytes.
pub open spec fn utf8_width(c: char) -> int {
    vstd::utf8::encode_scalar(c as u32).len() as int
}

pub proof fn lemma_byte_offset_step(s: Seq<char>, k: int)
    requires
        0 <= k < s.len(),
    ensures
        byte_offset(s, k + 1) == byte_offset(s, k) + utf8_width(s[k]),
        1 <= utf8_width(s[k]) <= 4,
{
    assert(s.take(k + 1) =~= s.take(k) + seq![s[k]]);
    lemma_encode_utf8_concat(s.take(k), seq![s[k]]);
    let single = seq![s[k]];
    assert(single.drop_first() =~= Seq::<char>::empty());
    assert(encode_utf8(single.drop_first()) == Seq::<u8>::empty());
    assert(encode_utf8(single) == vstd::utf8::encode_scalar(single[0] as u32) + encode_utf8(
        single.drop_first(),
    ));
    assert(encode_utf8(single) =~= vstd::utf8::encode_scalar(s[k] as u32));
    vstd::utf8::char_is_scalar(s[k]);
}

pub proof fn lemma_byte_offset_mono(s: Seq<char>, k1: int, k2: int)
    requires
        0 <= k1 <= k2 <= s.len(),
    ensures
        byte_offset(s, k1) + (k2 - k1) <= byte_offset(s, k2),
    decreases k2 - k1,
{
    if k1 < k2 {
        lemma_byte_offset_mono(s, k1, k2 - 1);
        lemma_byte_offset_step(s, k2 - 1);
    }
}

pub(crate) fn width_of(c: char) -> (w: usize)
    ensures
        w == utf8_width(c),
{
    proof {
        vstd::utf8::char_is_scalar(c);
    }
    let u = c as u32;
    if u <= 0x7F {
        1
    } else if u <= 0x7FF {
        2
    } else if u <= 0xFFFF {
        3
    } else {
        4
    }
}

/// The byte offset of every character boundary of `s`.
pub fn byte_offsets(s: &Vec<char>) -> (r: Vec<usize>)
    requires
        encode_utf8(s@).len() <= usize::MAX,
    ensures
        r@.len() == s@.len() + 1,
        forall|k: int| 0 <= k <= s@.len() ==> #[trigger] r@[k] == byte_offset(s@, k),
{
    let ghost v = s@;
    proof {
        assert(v.take(v.len() as int) =~= v);
    }
    let mut r: Vec<usize> = Vec::new();
    r.push(0);
    proof {
        assert(encode_utf8(v.take(0)) =~= Seq::<u8>::empty());
    }
    let mut pos: usize = 0;
    let mut k: usize = 0;
    while k < s.len()
        invariant
            k <= s.len(),
            v == s@,
            encode_utf8(v).len() <= usize::MAX,
            v.take(v.len() as int) == v,
            r@.len() == k + 1,
            pos == byte_offset(v, k as int),
            forall|x: int| 0 <= x <= k ==> #[trigger] r@[x] == byte_offset(v, x),
        decreases s.len() - k,
    {
        proof {
            lemma_byte_offset_step(v, k as int);
            lemma_byte_offset_mono(v, k + 1, v.len() as int);
        }
        pos = pos + width_of(s[k]);
        r.push(pos);
        k = k + 1;
    }
    r
}

/// Finds the character index `k` with `offsets[k] == b`.
fn index_of_offset(offsets: &Vec<usize>, Ghost(s): Ghost<Seq<char>>, b: usize) -> (k: usize)
    requires
        offsets@.len() == s.len() + 1,
        forall|x: int| 0 <= x <= s.len() ==> #[trigger] offsets@[x] == byte_offset(s, x),
        is_boundary(s, b as int),
    ensures
        k <= s.len(),
        byte_offset(s, k as int) == b,
        k == char_index(s, b as int),
{
    let mut k: usize = 0;
    while k < offsets.len() && offsets[k] != b
        invariant
            k <= offsets@.len(),
            offsets@.len() == s.len() + 1,
            forall|x: int| 0 <= x <= s.len() ==> #[trigger] offsets@[x] == byte_offset(s, x),
            is_boundary(s, b as int),
            forall|x: int| 0 <= x < k ==> byte_offset(s, x) != b,
        decreases offsets@.len() - k,
    {
        k = k + 1;
    }
    proof {
        let w = choose|x: int| 0 <= x <= s.len() && byte_offset(s, x) == b;
        if k == offsets@.len() {
            assert(byte_offset(s, w) != b);
        }
        let c = char_index(s, b as int);
        if c < k {
            lemma_byte_offset_mono(s, c, k as int);
        } else if c > k {
            lemma_byte_offset_mono(s, k as int, c);
        }
    }
    k
}

/// Finds the protected regions of `input`, in order of position, as byte
/// ranges (see [`scan_spec`] for the character ranges). Regions are taken
/// greedily: after a region the scan goes on at its end, so the region found
/// first wins. Each region is non-empty, lies within the input on character
/// boundaries and is of a kind that `cfg` protects; the regions ascend and
/// never overlap.
pub fn scan(input: &str, cfg: ProtectConfig) -> (spans: Vec<Span>)
    requires
        encode_utf8(input@).len() <= usize::MAX,
    ensures
        spans@.len() == scan_spec(input@, cfg).len(),
        forall|j: int|
            0 <= j < spans@.len() ==> {
                let (a, b, k) = scan_spec(input@, cfg)[j];
                &&& (#[trigger] spans@[j]).range.start == byte_offset(input@, a)
                &&& spans@[j].range.end == byte_offset(input@, b)
                &&& spans@[j].kind == k
            },
        forall|j: int|
            0 <= j < spans@.len() ==> {
                &&& (#[trigger] spans@[j]).range.start < spans@[j].range.end
                &&& spans@[j].range.end <= encode_utf8(input@).len()
                &&& is_boundary(input@, spans@[j].range.start as int)
                &&& is_boundary(input@, spans@[j].range.end as int)
                &&& cfg.protects(spans@[j].kind)
            },
        forall|j: int|
            0 <= j && j + 1 < spans@.len() ==> (#[trigger] spans@[j]).range.end <= spans@[j
                + 1].range.start,
        !cfg.any_spec() ==> spans@.len() == 0,
{
    let chars = chars_of(input);
    let offsets = byte_offsets(&chars);
    let found = scan_chars(&chars, cfg);
    let mut spans: Vec<Span> = Vec::new();
    let mut j: usize = 0;
    while j < found.len()
        invariant
            j <= found@.len(),
            chars@ == input@,
            offsets@.len() == chars@.len() + 1,
            forall|x: int| 0 <= x <= chars@.len() ==> #[trigger] offsets@[x] == byte_offset(
                input@,
                x,
            ),
            found@.len() == scan_spec(input@, cfg).len(),
            forall|x: int|
                0 <= x < found@.len() ==> {
                    let (a, b, k) = #[trigger] found@[x];
                    scan_spec(input@, cfg)[x] == (a as int, b as int, k)
                },
            forall|x: int| 0 <= x < found@.len() ==> #[trigger] found@[x].0 <= found@[x].1 <= chars@.len(),
            spans@.len() == j,
            forall|x: int|
                0 <= x < j ==> {
                    let (a, b, k) = scan_spec(input@, cfg)[x];
                    &&& (#[trigger] spans@[x]).range.start == byte_offset(input@, a)
                    &&& spans@[x].range.end == byte_offset(input@, b)
                    &&& spans@[x].kind == k
                },
        decreases found@.len() - j,
    {
        let (a, b, k) = found[j];
        assert(found@[j as int] == (a, b, k));
        let start = offsets[a];
        let end = offsets[b];
        spans.push(Span { range: start..end, kind: k });
        j = j + 1;
    }
    proof {
        let v = input@;
        let r = scan_spec(v, cfg);
        let n = v.len() as int;
        lemma_scan_spec_ordered(v, cfg);
        assert(v.take(n) =~= v);
        assert forall|x: int| 0 <= x < spans@.len() implies {
            &&& (#[trigger] spans@[x]).range.start < spans@[x].range.end
            &&& spans@[x].range.end <= encode_utf8(v).len()
            &&& is_boundary(v, spans@[x].range.start as int)
            &&& is_boundary(v, spans@[x].range.end as int)
            &&& cfg.protects(spans@[x].kind)
        } by {
            let (a, b, k) = r[x];
            lemma_byte_offset_mono(v, a, b);
            lemma_byte_offset_mono(v, b, n);
            assert(byte_offset(v, a) == spans@[x].range.start);
            assert(byte_offset(v, b) == spans@[x].range.end);
        }
        assert forall|x: int| 0 <= x && x + 1 < spans@.len() implies (#[trigger] spans@[x]).range.end
            <= spans@[x + 1].range.start by {
            let (a, b, k) = r[x];
            let (a2, b2, k2) = r[x + 1];
            assert(r[x].1 <= r[x + 1].0);
            lemma_byte_offset_mono(v, b, a2);
        }
        if !cfg.any_spec() {
            assert(r.len() == 0);
        }
    }
    spans
}

// ---- segmentation ----

/// The pieces of `s` around the regions `spans[j..]` (character ranges), the
/// text before being covered up to `cursor`: the text from `cursor` to a
/// region's start when there is any (unprotected, `None`), then the region
/// with its kind; at the end the rest of the text.
pub open spec fn segments_from(
    s: Seq<char>,
    spans: Seq<(int, int, Kind)>,
    j: int,
    cursor: int,
) -> Seq<(int, int, Option<Kind>)>
    decreases spans.len() - j,
{
    if j < 0 || j >= spans.len() {
        if cursor < s.len() {
            seq![(cursor, s.len() as int, None)]
        } else {
            seq![]
        }
    } else {
        let (a, b, k) = spans[j];
        (if a > cursor {
            seq![(cursor, a, None)]
        } else {
            seq![]
        }) + seq![(a, b, Some(k))] + segments_from(s, spans, j + 1, b)
    }
}

/// The pieces of `s` around the regions `spans` (see [`segments_from`]).
pub open spec fn segments_spec(s: Seq<char>, spans: Seq<(int, int, Kind)>) -> Seq<
    (int, int, Option<Kind>),
> {
    segments_from(s, spans, 0, 0)
}

/// The character ranges of the regions `spans`.
pub open spec fn spans_as_chars(s: Seq<char>, spans: Seq<Span>) -> Seq<(int, int, Kind)> {
    spans.map_values(
        |sp: Span| (char_index(s, sp.range.start as int), char_index(s, sp.range.end as int), sp.kind),
    )
}

/// The pieces of a text of `len` characters around the regions `spans`
/// (character ranges), as ranges with the kind of the protected ones.
pub fn segment_ranges(len: usize, spans: &Vec<(usize, usize, Kind)>) -> (r: Vec<
    (usize, usize, Option<Kind>),
>)
    requires
        forall|j: int| 0 <= j < spans@.len() ==> #[trigger] spans@[j].0 <= spans@[j].1 <= len,
    ensures
        ({
            let sp = spans@.map_values(|t: (usize, usize, Kind)| (t.0 as int, t.1 as int, t.2));
            let target = segments_spec(Seq::new(len as nat, |i: int| ' '), sp);
            &&& r@.len() == target.len()
            &&& forall|x: int|
                0 <= x < r@.len() ==> {
                    let (a, b, k) = #[trigger] r@[x];
                    target[x] == (a as int, b as int, k)
                }
        }),
        forall|x: int| 0 <= x < r@.len() ==> #[trigger] r@[x].0 <= r@[x].1 <= len,
{
    let ghost sp = spans@.map_values(|t: (usize, usize, Kind)| (t.0 as int, t.1 as int, t.2));
    let ghost s = Seq::new(len as nat, |i: int| ' ');
    let ghost target = segments_spec(s, sp);
    let ghost mut done: Seq<(int, int, Option<Kind>)> = seq![];
    let mut r: Vec<(usize, usize, Option<Kind>)> = Vec::new();
    let mut cursor: usize = 0;
    let mut j: usize = 0;
    while j < spans.len()
        invariant
            j <= spans@.len(),
            cursor <= len,
            sp == spans@.map_values(|t: (usize, usize, Kind)| (t.0 as int, t.1 as int, t.2)),
            s == Seq::new(len as nat, |i: int| ' '),
            target == segments_spec(s, sp),
            forall|x: int| 0 <= x < spans@.len() ==> #[trigger] spans@[x].0 <= spans@[x].1 <= len,
            done + segments_from(s, sp, j as int, cursor as int) == target,
            r@.len() == done.len(),
            forall|x: int|
                0 <= x < r@.len() ==> {
                    let (a, b, k) = #[trigger] r@[x];
                    done[x] == (a as int, b as int, k)
                },
            forall|x: int| 0 <= x < r@.len() ==> #[trigger] r@[x].0 <= r@[x].1 <= len,
        decreases spans@.len() - j,
    {
        let (a, b, k) = spans[j];
        assert(sp[j as int] == (a as int, b as int, k));
        let ghost before = done;
        if a > cursor {
            r.push((cursor, a, None));
            proof {
                done = done.push((cursor as int, a as int, None));
            }
        }
        r.push((a, b, Some(k)));
        proof {
            done = done.push((a as int, b as int, Some(k)));
            assert(done + segments_from(s, sp, j + 1, b as int) =~= before + segments_from(
                s,
                sp,
                j as int,
                cursor as int,
            ));
        }
        cursor = b;
        j = j + 1;
    }
    if cursor < len {
        r.push((cursor, len, None));
        proof {
            done = done.push((cursor as int, len as int, None));
        }
    }
    proof {
        assert(done =~= target);
    }
    r
}

/// Splits `input` into unprotected pieces (`Ok`, to normalize) and the
/// protected regions `spans` (`Err`, kept as they are), in order.
pub fn segment<'a>(input: &'a str, spans: &[Span]) -> (out: Vec<Result<&'a str, (&'a str, Kind)>>)
    requires
        encode_utf8(input@).len() <= usize::MAX,
        forall|j: int|
            0 <= j < spans@.len() ==> {
                &&& is_boundary(input@, (#[trigger] spans@[j]).range.start as int)
                &&& is_boundary(input@, spans@[j].range.end as int)
                &&& spans@[j].range.start <= spans@[j].range.end
            },
    ensures
        ({
            let target = segments_spec(input@, spans_as_chars(input@, spans@));
            &&& out@.len() == target.len()
            &&& forall|x: int|
                0 <= x < out@.len() ==> {
                    let (a, b, k) = target[x];
                    match #[trigger] out@[x] {
                        Ok(t) => k is None && t@ == input@.subrange(a, b),
                        Err((t, kind)) => k == Some(kind) && t@ == input@.subrange(a, b),
                    }
                }
        }),
{
    let chars = chars_of(input);
    let ghost s = input@;
    let offsets = byte_offsets(&chars);
    let mut ranges: Vec<(usize, usize, Kind)> = Vec::new();
    let mut j: usize = 0;
    while j < spans.len()
        invariant
            j <= spans@.len(),
            chars@ == s,
            s == input@,
            offsets@.len() == s.len() + 1,
            forall|x: int| 0 <= x <= s.len() ==> #[trigger] offsets@[x] == byte_offset(s, x),
            forall|x: int|
                0 <= x < spans@.len() ==> {
                    &&& is_boundary(s, (#[trigger] spans@[x]).range.start as int)
                    &&& is_boundary(s, spans@[x].range.end as int)
                    &&& spans@[x].range.start <= spans@[x].range.end
                },
            ranges@.len() == j,
            forall|x: int|
                0 <= x < j ==> {
                    &&& (#[trigger] ranges@[x]).0 == char_index(s, spans@[x].range.start as int)
                    &&& ranges@[x].1 == char_index(s, spans@[x].range.end as int)
                    &&& ranges@[x].2 == spans@[x].kind
                    &&& ranges@[x].0 <= ranges@[x].1 <= s.len()
                },
        decreases spans@.len() - j,
    {
        let a = index_of_offset(&offsets, Ghost(s), spans[j].range.start);
        let b = index_of_offset(&offsets, Ghost(s), spans[j].range.end);
        proof {
            if a > b {
                lemma_byte_offset_mono(s, b as int, a as int);
            }
        }
        ranges.push((a, b, spans[j].kind));
        j = j + 1;
    }
    let ghost sp = ranges@.map_values(|t: (usize, usize, Kind)| (t.0 as int, t.1 as int, t.2));
    assert(sp =~= spans_as_chars(s, spans@));
    let pieces = segment_ranges(chars.len(), &ranges);
    proof {
        lemma_segments_len_free(s, Seq::new(chars@.len(), |i: int| ' '), sp, 0, 0);
    }
    let mut out: Vec<Result<&'a str, (&'a str, Kind)>> = Vec::new();
    let mut x: usize = 0;
    while x < pieces.len()
        invariant
            x <= pieces@.len(),
            s == input@,
            chars@ == s,
            sp == spans_as_chars(s, spans@),
            segments_spec(s, sp) == segments_spec(Seq::new(chars@.len(), |i: int| ' '), sp),
            pieces@.len() == segments_spec(s, sp).len(),
            forall|y: int|
                0 <= y < pieces@.len() ==> {
                    let (a, b, k) = #[trigger] pieces@[y];
                    segments_spec(s, sp)[y] == (a as int, b as int, k)
                },
            forall|y: int| 0 <= y < pieces@.len() ==> #[trigger] pieces@[y].0 <= pieces@[y].1
                <= s.len(),
            out@.len() == x,
            forall|y: int|
                0 <= y < x ==> {
                    let (a, b, k) = segments_spec(s, sp)[y];
                    match #[trigger] out@[y] {
                        Ok(t) => k is None && t@ == s.subrange(a, b),
                        Err((t, kind)) => k == Some(kind) && t@ == s.subrange(a, b),
                    }
                },
        decreases pieces@.len() - x,
    {
        let (a, b, k) = pieces[x];
        let t = input.substring_char(a, b);
        match k {
            None => out.push(Ok(t)),
            Some(kind) => out.push(Err((t, kind))),
        }
        x = x + 1;
    }
    out
}

/// The text of the pieces `p` of `s`, joined in order.
pub open spec fn pieces_text(s: Seq<char>, p: Seq<(int, int, Option<Kind>)>) -> Seq<char>
    decreases p.len(),
{
    if p.len() == 0 {
        seq![]
    } else {
        s.subrange(p[0].0, p[0].1) + pieces_text(s, p.drop_first())
    }
}

/// The protected pieces of `p`, in order, with their kinds.
pub open spec fn protected_pieces(p: Seq<(int, int, Option<Kind>)>) -> Seq<(int, int, Kind)>
    decreases p.len(),
{
    if p.len() == 0 {
        seq![]
    } else {
        (match p[0].2 {
            Some(k) => seq![(p[0].0, p[0].1, k)],
            None => seq![],
        }) + protected_pieces(p.drop_first())
    }
}

proof fn lemma_pieces_concat(s: Seq<char>, p: Seq<(int, int, Option<Kind>)>, q: Seq<(int, int, Option<Kind>)>)
    ensures
        pieces_text(s, p + q) == pieces_text(s, p) + pieces_text(s, q),
        protected_pieces(p + q) == protected_pieces(p) + protected_pieces(q),
    decreases p.len(),
{
    if p.len() == 0 {
        assert(p + q =~= q);
    } else {
        assert((p + q).drop_first() =~= p.drop_first() + q);
        lemma_pieces_concat(s, p.drop_first(), q);
        assert((p + q)[0] == p[0]);
        assert(pieces_text(s, p + q) =~= pieces_text(s, p) + pieces_text(s, q));
        assert(protected_pieces(p + q) =~= protected_pieces(p) + protected_pieces(q));
    }
}

/// Whether the character ranges `sp` lie within a text of `n` characters,
/// in order and without overlapping.
pub open spec fn ranges_sorted(sp: Seq<(int, int, Kind)>, n: int) -> bool {
    &&& forall|j: int| 0 <= j < sp.len() ==> 0 <= (#[trigger] sp[j]).0 <= sp[j].1 <= n
    &&& forall|j: int| 0 <= j && j + 1 < sp.len() ==> (#[trigger] sp[j]).1 <= sp[j + 1].0
}

proof fn lemma_pieces_single(s: Seq<char>, x: (int, int, Option<Kind>))
    ensures
        pieces_text(s, seq![x]) == s.subrange(x.0, x.1),
        protected_pieces(seq![x]) == (match x.2 {
            Some(k) => seq![(x.0, x.1, k)],
            None => Seq::<(int, int, Kind)>::empty(),
        }),
{
    let one = seq![x];
    assert(one.drop_first() =~= Seq::<(int, int, Option<Kind>)>::empty());
    assert(pieces_text(s, one.drop_first()) == Seq::<char>::empty());
    assert(protected_pieces(one.drop_first()) == Seq::<(int, int, Kind)>::empty());
    assert(pieces_text(s, one) =~= s.subrange(x.0, x.1));
    assert(protected_pieces(one) =~= (match x.2 {
        Some(k) => seq![(x.0, x.1, k)],
        None => Seq::<(int, int, Kind)>::empty(),
    }));
}

proof fn lemma_segments_from_partition(s: Seq<char>, sp: Seq<(int, int, Kind)>, j: int, cursor: int)
    requires
        ranges_sorted(sp, s.len() as int),
        0 <= j <= sp.len(),
        0 <= cursor <= s.len(),
        j < sp.len() ==> cursor <= sp[j].0,
    ensures
        ({
            let p = segments_from(s, sp, j, cursor);
            &&& pieces_text(s, p) == s.subrange(cursor, s.len() as int)
            &&& protected_pieces(p) == sp.subrange(j, sp.len() as int)
            &&& forall|x: int| 0 <= x < p.len() && (#[trigger] p[x]).2 is None ==> p[x].0 < p[x].1
            &&& forall|x: int|
                0 <= x && x + 1 < p.len() && (#[trigger] p[x]).2 is None ==> p[x + 1].2 is Some
        }),
    decreases sp.len() - j,
{
    let p = segments_from(s, sp, j, cursor);
    let n = s.len() as int;
    if j >= sp.len() {
        if cursor < n {
            lemma_pieces_single(s, (cursor, n, None));
        } else {
            assert(s.subrange(cursor, n) =~= Seq::<char>::empty());
        }
        assert(sp.subrange(j, sp.len() as int) =~= Seq::<(int, int, Kind)>::empty());
    } else {
        let (a, b, k) = sp[j];
        if j + 1 < sp.len() {
            assert(sp[j].1 <= sp[j + 1].0);
        }
        lemma_segments_from_partition(s, sp, j + 1, b);
        let rest = segments_from(s, sp, j + 1, b);
        let pre: Seq<(int, int, Option<Kind>)> = if a > cursor {
            seq![(cursor, a, None)]
        } else {
            seq![]
        };
        let mid = seq![(a, b, Some(k))];
        assert(p == pre + mid + rest);
        lemma_pieces_concat(s, pre + mid, rest);
        lemma_pieces_concat(s, pre, mid);
        lemma_pieces_single(s, (a, b, Some(k)));
        if a > cursor {
            lemma_pieces_single(s, (cursor, a, None));
        } else {
            assert(pieces_text(s, pre) =~= Seq::<char>::empty());
            assert(protected_pieces(pre) =~= Seq::<(int, int, Kind)>::empty());
        }
        assert(pieces_text(s, p) =~= s.subrange(cursor, n));
        assert(protected_pieces(p) =~= sp.subrange(j, sp.len() as int));
        let h = pre.len();
        assert forall|x: int| 0 <= x < p.len() && (#[trigger] p[x]).2 is None implies p[x].0 < p[x].1 by {
            if x > h {
                assert(p[x] == rest[x - h - 1]);
            }
        }
        assert forall|x: int| 0 <= x && x + 1 < p.len() && (#[trigger] p[x]).2 is None implies p[x
            + 1].2 is Some by {
            if x > h {
                assert(p[x] == rest[x - h - 1]);
                assert(p[x + 1] == rest[x - h]);
            }
        }
    }
}

proof fn lemma_char_index_order(s: Seq<char>, b1: int, b2: int)
    requires
        is_boundary(s, b1),
        is_boundary(s, b2),
        b1 <= b2,
    ensures
        0 <= char_index(s, b1) <= char_index(s, b2) <= s.len(),
{
    let a = char_index(s, b1);
    let b = char_index(s, b2);
    if a > b {
        lemma_byte_offset_mono(s, b, a);
    }
}

proof fn lemma_spans_as_chars_sorted(s: Seq<char>, spans: Seq<Span>)
    requires
        forall|j: int|
            0 <= j < spans.len() ==> {
                &&& is_boundary(s, (#[trigger] spans[j]).range.start as int)
                &&& is_boundary(s, spans[j].range.end as int)
                &&& spans[j].range.start <= spans[j].range.end
            },
        forall|j: int|
            0 <= j && j + 1 < spans.len() ==> (#[trigger] spans[j]).range.end <= spans[j
                + 1].range.start,
    ensures
        ranges_sorted(spans_as_chars(s, spans), s.len() as int),
        spans_as_chars(s, spans).len() == spans.len(),
{
    let sp = spans_as_chars(s, spans);
    let n = s.len() as int;
    assert forall|j: int| 0 <= j < sp.len() implies 0 <= (#[trigger] sp[j]).0 <= sp[j].1 <= n by {
        lemma_char_index_order(s, spans[j].range.start as int, spans[j].range.end as int);
    }
    assert forall|j: int| 0 <= j && j + 1 < sp.len() implies (#[trigger] sp[j]).1 <= sp[j + 1].0 by {
        assert(is_boundary(s, spans[j + 1].range.start as int));
        lemma_char_index_order(s, spans[j].range.end as int, spans[j + 1].range.start as int);
    }
}

/// Segmentation partitions the text: for regions that lie within `s` on
/// character boundaries, in order and without overlapping, the pieces joined
/// in order give back `s`, the protected pieces are exactly the regions in
/// their order with their kinds, no unprotected piece is empty and no two
/// unprotected pieces are adjacent.
pub proof fn lemma_segment_partition(s: Seq<char>, spans: Seq<Span>)
    requires
        forall|j: int|
            0 <= j < spans.len() ==> {
                &&& is_boundary(s, (#[trigger] spans[j]).range.start as int)
                &&& is_boundary(s, spans[j].range.end as int)
                &&& spans[j].range.start <= spans[j].range.end
            },
        forall|j: int|
            0 <= j && j + 1 < spans.len() ==> (#[trigger] spans[j]).range.end <= spans[j
                + 1].range.start,
    ensures
        ({
            let sp = spans_as_chars(s, spans);
            let p = segments_spec(s, sp);
            &&& pieces_text(s, p) == s
            &&& protected_pieces(p) == sp
            &&& sp.len() == spans.len()
            &&& forall|x: int| 0 <= x < p.len() && (#[trigger] p[x]).2 is None ==> p[x].0 < p[x].1
            &&& forall|x: int|
                0 <= x && x + 1 < p.len() && (#[trigger] p[x]).2 is None ==> p[x + 1].2 is Some
        }),
{
    let sp = spans_as_chars(s, spans);
    let n = s.len() as int;
    lemma_spans_as_chars_sorted(s, spans);
    lemma_segments_from_partition(s, sp, 0, 0);
    assert(s.subrange(0, n) =~= s);
    assert(sp.subrange(0, sp.len() as int) =~= sp);
}

/// The segmentation depends on the text only through its length.
pub proof fn lemma_segments_len_free(
    s: Seq<char>,
    t: Seq<char>,
    sp: Seq<(int, int, Kind)>,
    j: int,
    cursor: int,
)
    requires
        s.len() == t.len(),
    ensures
        segments_from(s, sp, j, cursor) == segments_from(t, sp, j, cursor),
    decreases sp.len() - j,
{
    if 0 <= j < sp.len() {
        let (a, b, k) = sp[j];
        lemma_segments_len_free(s, t, sp, j + 1, b);
    }
}

} // verus!
