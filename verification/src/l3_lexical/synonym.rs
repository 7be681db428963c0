//! Resolving spelling variants with a synonym dictionary.
//!
//! The entries are kept as variant → canonical pairs; replacement builds a
//! [`daachorse`] automaton over the variants and replaces leftmost-longest
//! matches.
use vstd::prelude::*;
use vstd::utf8::encode_utf8;
use daachorse::MatchKind;
use daachorse::charwise::{CharwiseDoubleArrayAhoCorasick, CharwiseDoubleArrayAhoCorasickBuilder};
use crate::text::{chars_of, string_of, push_all, push_str, str_eq, find_char, find_char_spec, lines_of, lines_spec, trim_spec, trim_str};
use crate::l2_script::numerals::{decimal, push_decimal};
use crate::l3_lexical::json::{self, parse_object, parse_object_spec, Member, MemberView, ItemView, JsonError, members_view, items_view};
use crate::l4_extra::protect::{byte_offset, lemma_byte_offset_step, lemma_byte_offset_mono, utf8_width, width_of};

verus! {

/// std's I/O error.
#[verifier::external_type_specification]
#[verifier::external_body]
pub struct ExIoError(std::io::Error);

/// An error while loading a synonym dictionary.
#[derive(Debug)]
#[non_exhaustive]
pub enum SynonymDictError {
    /// A CSV / TSV row without the two columns.
    InvalidRow {
        /// The line number, from 1.
        line: usize,
    },
    /// JSON text with a syntax or structure error.
    InvalidJson {
        /// The character offset from the start (from 0).
        offset: usize,
        /// What was expected.
        message: &'static str,
    },
    /// An I/O error.
    Io(std::io::Error),
}

/// The message of an error other than an I/O error (see
/// [`SynonymDictError::to_string`]).
pub open spec fn dict_error_message(e: SynonymDictError) -> Seq<char> {
    match e {
        SynonymDictError::InvalidRow { line } => "invalid row at line "@ + decimal(line as nat),
        SynonymDictError::InvalidJson { offset, message } => "invalid json at char "@ + decimal(
            offset as nat,
        ) + ": "@ + message@,
        SynonymDictError::Io(_) => "io error: "@,
    }
}

/// Trusted: std's `Display` of an I/O error (`e.to_string()`). Nothing is
/// claimed of the text: it comes from the operating system.
#[verifier::external_body]
fn io_error_text(e: &std::io::Error) -> String {
    e.to_string()
}

impl SynonymDictError {
    /// The error message: `invalid row at line N`, `invalid json at char N:
    /// what was expected`, or `io error: ` and the I/O error's text.
    pub fn to_string(&self) -> (r: String)
        ensures
            self is Io ==> r@.take(10) == dict_error_message(*self),
            !(self is Io) ==> r@ == dict_error_message(*self),
    {
        let mut out: Vec<char> = Vec::new();
        match self {
            SynonymDictError::InvalidRow { line } => {
                push_str(&mut out, "invalid row at line ");
                push_decimal(&mut out, *line as u128);
            },
            SynonymDictError::InvalidJson { offset, message } => {
                push_str(&mut out, "invalid json at char ");
                push_decimal(&mut out, *offset as u128);
                push_str(&mut out, ": ");
                push_str(&mut out, message);
            },
            SynonymDictError::Io(e) => {
                push_str(&mut out, "io error: ");
                proof {
                    reveal_strlit("io error: ");
                    assert(out@.take(10) =~= "io error: "@);
                }
                let t = io_error_text(e);
                let ghost before = out@;
                push_str(&mut out, t.as_str());
                proof {
                    assert(out@.take(10) =~= before.take(10));
                }
            },
        }
        proof {
            if !(self is Io) {
                assert(out@ =~= dict_error_message(*self));
            }
        }
        string_of(&out)
    }
}

impl From<std::io::Error> for SynonymDictError {
    fn from(e: std::io::Error) -> (r: Self) {
        SynonymDictError::Io(e)
    }
}

impl vstd::std_specs::convert::FromSpecImpl<std::io::Error> for SynonymDictError {
    open spec fn obeys_from_spec() -> bool {
        true
    }

    open spec fn from_spec(e: std::io::Error) -> SynonymDictError {
        SynonymDictError::Io(e)
    }
}

// ---- the automaton of daachorse ----

/// daachorse's character-wise double-array Aho-Corasick automaton.
#[verifier::external_type_specification]
#[verifier::external_body]
#[verifier::reject_recursive_types(V)]
pub struct ExCharwiseDoubleArrayAhoCorasick<V>(CharwiseDoubleArrayAhoCorasick<V>);

/// The patterns an automaton was built from, in order (a pattern's index is
/// its value).
pub uninterp spec fn automaton_patterns(a: CharwiseDoubleArrayAhoCorasick<u32>) -> Seq<Seq<char>>;

/// Whether an automaton was built with `MatchKind::LeftmostLongest`.
pub uninterp spec fn is_leftmost_longest(a: CharwiseDoubleArrayAhoCorasick<u32>) -> bool;

/// Whether daachorse builds an automaton from these patterns: it refuses a
/// pattern set or an automaton beyond its scale limits (and more than
/// `u32::MAX` patterns).
pub uninterp spec fn builds(patterns: Seq<Seq<char>>) -> bool;

/// The views of a list of strings.
pub open spec fn views(v: Seq<String>) -> Seq<Seq<char>> {
    v.map_values(|s: String| s@)
}

/// Trusted: `CharwiseDoubleArrayAhoCorasickBuilder::new()
/// .match_kind(MatchKind::LeftmostLongest).build(patterns)` with `u32` values.
/// The contract claims that the result is an automaton over exactly these
/// patterns, of the leftmost-longest kind, whenever daachorse accepts the set
/// ([`builds`]), and that it fails otherwise; when daachorse refuses a set is
/// a matter of its internal limits and is left unsaid.
#[verifier::external_body]
fn build_leftmost_longest(patterns: &Vec<String>) -> (r: Option<CharwiseDoubleArrayAhoCorasick<u32>>)
    ensures
        r is Some <==> builds(views(patterns@)),
        r matches Some(a) ==> automaton_patterns(a) == views(patterns@) && is_leftmost_longest(a),
{
    CharwiseDoubleArrayAhoCorasickBuilder::new()
        .match_kind(MatchKind::LeftmostLongest)
        .build(patterns.iter().map(|p| p.as_str()))
        .ok()
}

/// Whether the non-empty `pat` occurs in `s` at `p`.
pub open spec fn occurs_at(pat: Seq<char>, s: Seq<char>, p: int) -> bool {
    pat.len() > 0 && 0 <= p && p + pat.len() <= s.len() && s.subrange(p, p + pat.len()) == pat
}

/// The index of the longest of `pats[j..]` that occurs in `s` at `p`.
pub open spec fn longest_from(pats: Seq<Seq<char>>, s: Seq<char>, p: int, j: int) -> Option<int>
    decreases pats.len() - j,
{
    if j < 0 || j >= pats.len() {
        None
    } else {
        let rest = longest_from(pats, s, p, j + 1);
        if occurs_at(pats[j], s, p) && (rest is None || pats[rest->0].len() < pats[j].len()) {
            Some(j)
        } else {
            rest
        }
    }
}

pub proof fn lemma_longest_from(pats: Seq<Seq<char>>, s: Seq<char>, p: int, j: int)
    ensures
        longest_from(pats, s, p, j) matches Some(k) ==> j <= k < pats.len() && occurs_at(
            pats[k],
            s,
            p,
        ),
    decreases pats.len() - j,
{
    if 0 <= j < pats.len() {
        lemma_longest_from(pats, s, p, j + 1);
    }
}

/// The leftmost-longest, non-overlapping matches of `pats` in `s` from `p`
/// on, as (start, end, pattern index) in characters: at each position the
/// longest pattern that occurs there; the search goes on after a match.
pub open spec fn matches_from(pats: Seq<Seq<char>>, s: Seq<char>, p: int) -> Seq<(int, int, int)>
    decreases s.len() - p,
{
    if p < 0 || p >= s.len() {
        seq![]
    } else {
        proof {
            lemma_longest_from(pats, s, p, 0);
        }
        match longest_from(pats, s, p, 0) {
            Some(k) => seq![(p, p + pats[k].len(), k)] + matches_from(pats, s, p + pats[k].len()),
            None => matches_from(pats, s, p + 1),
        }
    }
}

/// Whether the patterns are non-empty and pairwise different.
pub open spec fn distinct_nonempty(pats: Seq<Seq<char>>) -> bool {
    &&& forall|i: int| 0 <= i < pats.len() ==> #[trigger] pats[i].len() > 0
    &&& forall|i: int, j: int| 0 <= i < j < pats.len() ==> #[trigger] pats[i] != #[trigger] pats[j]
}

/// Trusted: `a.leftmost_find_iter(text)`, each match taken as
/// `(m.start(), m.end(), m.value())`. daachorse documents the leftmost
/// search that resumes after each match and, for `LeftmostLongest`, the
/// longest pattern at the leftmost position; the offsets are bytes. The
/// contract claims exactly that ([`matches_from`] mapped to byte offsets), for
/// an automaton of that kind over distinct non-empty patterns (it panics for
/// other kinds).
#[verifier::external_body]
fn leftmost_find(a: &CharwiseDoubleArrayAhoCorasick<u32>, text: &str) -> (r: Vec<(usize, usize, u32)>)
    requires
        is_leftmost_longest(*a),
        distinct_nonempty(automaton_patterns(*a)),
    ensures
        r@.len() == matches_from(automaton_patterns(*a), text@, 0).len(),
        forall|k: int|
            0 <= k < r@.len() ==> {
                let (p, q, v) = matches_from(automaton_patterns(*a), text@, 0)[k];
                &&& (#[trigger] r@[k]).0 == byte_offset(text@, p)
                &&& r@[k].1 == byte_offset(text@, q)
                &&& r@[k].2 == v
            },
{
    a.leftmost_find_iter(text).map(|m| (m.start(), m.end(), m.value())).collect()
}

pub proof fn lemma_matches_from(pats: Seq<Seq<char>>, s: Seq<char>, p: int)
    requires
        0 <= p,
    ensures
        forall|k: int|
            0 <= k < matches_from(pats, s, p).len() ==> {
                let (a, b, j) = #[trigger] matches_from(pats, s, p)[k];
                &&& p <= a < b <= s.len()
                &&& 0 <= j < pats.len()
                &&& b - a == pats[j].len()
                &&& occurs_at(pats[j], s, a)
            },
        forall|k: int|
            0 < k < matches_from(pats, s, p).len() ==> (#[trigger] matches_from(pats, s, p)[k]).0
                >= matches_from(pats, s, p)[k - 1].1,
    decreases s.len() - p,
{
    let all = matches_from(pats, s, p);
    if p < s.len() {
        lemma_longest_from(pats, s, p, 0);
        match longest_from(pats, s, p, 0) {
            Some(j) => {
                let q = p + pats[j].len();
                lemma_matches_from(pats, s, q);
                let rest = matches_from(pats, s, q);
                assert(all == seq![(p, q, j)] + rest);
                assert forall|k: int| 0 < k < all.len() implies (#[trigger] all[k]).0 >= all[k
                    - 1].1 by {
                    assert(all[k] == rest[k - 1]);
                    if k > 1 {
                        assert(all[k - 1] == rest[k - 2]);
                    }
                }
                assert forall|k: int| 0 <= k < all.len() implies {
                    let (a, b, jj) = #[trigger] all[k];
                    &&& p <= a < b <= s.len()
                    &&& 0 <= jj < pats.len()
                    &&& b - a == pats[jj].len()
                    &&& occurs_at(pats[jj], s, a)
                } by {
                    if k > 0 {
                        assert(all[k] == rest[k - 1]);
                    }
                }
            },
            None => {
                lemma_matches_from(pats, s, p + 1);
                assert(all == matches_from(pats, s, p + 1));
            },
        }
    } else {
        assert(all.len() == 0);
    }
}

/// `s` with the matches `ms[j..]` replaced by the values of their patterns,
/// the text before `cursor` being done.
pub open spec fn splice_from(
    s: Seq<char>,
    ms: Seq<(int, int, int)>,
    vals: Seq<Seq<char>>,
    j: int,
    cursor: int,
) -> Seq<char>
    decreases ms.len() - j,
{
    if j < 0 || j >= ms.len() {
        s.subrange(cursor, s.len() as int)
    } else {
        let (a, b, k) = ms[j];
        s.subrange(cursor, a) + vals[k] + splice_from(s, ms, vals, j + 1, b)
    }
}

/// The variants of the entries `es`.
pub open spec fn entry_keys(es: Seq<(Seq<char>, Seq<char>)>) -> Seq<Seq<char>> {
    es.map_values(|e: (Seq<char>, Seq<char>)| e.0)
}

/// The canonical forms of the entries `es`.
pub open spec fn entry_values(es: Seq<(Seq<char>, Seq<char>)>) -> Seq<Seq<char>> {
    es.map_values(|e: (Seq<char>, Seq<char>)| e.1)
}

/// What replacing with the entries `es` makes of `s`: each leftmost-longest
/// occurrence of a variant becomes its canonical form. With no entries, or
/// when daachorse refuses the variants, `s` is kept.
pub open spec fn apply_spec(es: Seq<(Seq<char>, Seq<char>)>, s: Seq<char>) -> Seq<char> {
    if es.len() == 0 || !builds(entry_keys(es)) {
        s
    } else {
        splice_from(s, matches_from(entry_keys(es), s, 0), entry_values(es), 0, 0)
    }
}

/// The index of the entry with variant `k`, if any.
pub open spec fn index_of_key(es: Seq<(Seq<char>, Seq<char>)>, k: Seq<char>) -> Option<int>
    decreases es.len(),
{
    if es.len() == 0 {
        None
    } else if es.last().0 == k {
        Some(es.len() - 1)
    } else {
        index_of_key(es.drop_last(), k)
    }
}

pub proof fn lemma_index_of_key(es: Seq<(Seq<char>, Seq<char>)>, k: Seq<char>)
    ensures
        index_of_key(es, k) matches Some(i) ==> 0 <= i < es.len() && es[i].0 == k,
        index_of_key(es, k) is None ==> forall|i: int| 0 <= i < es.len() ==> #[trigger] es[i].0 != k,
    decreases es.len(),
{
    if es.len() > 0 {
        lemma_index_of_key(es.drop_last(), k);
        if es.last().0 != k {
            assert forall|i: int| 0 <= i < es.len() - 1 implies #[trigger] es[i] == es.drop_last()[i] by {}
        }
    }
}

/// The entries after adding `k` → `v`: an empty variant is ignored; a known
/// variant gets the new canonical form; a new one is added at the end.
pub open spec fn insert_spec(es: Seq<(Seq<char>, Seq<char>)>, k: Seq<char>, v: Seq<char>) -> Seq<
    (Seq<char>, Seq<char>),
> {
    if k.len() == 0 {
        es
    } else {
        match index_of_key(es, k) {
            Some(i) => es.update(i, (k, v)),
            None => es.push((k, v)),
        }
    }
}

/// A synonym dictionary: variants (spellings) → canonical forms.
///
/// Replacement ([`apply`](Self::apply)) builds an Aho-Corasick automaton
/// over the variants and replaces leftmost-longest matches in linear time.
#[derive(Debug)]
pub struct SynonymDict {
    entries: Vec<(String, String)>,
}

impl Clone for SynonymDict {
    fn clone(&self) -> (d: Self)
        ensures
            d.entries_view() == self.entries_view(),
    {
        proof {
            use_type_invariant(self);
        }
        let mut entries: Vec<(String, String)> = Vec::new();
        let mut i: usize = 0;
        while i < self.entries.len()
            invariant
                i <= self.entries@.len(),
                entries@.len() == i,
                forall|j: int|
                    0 <= j < i ==> (#[trigger] entries@[j]).0@ == self.entries@[j].0@
                        && entries@[j].1@ == self.entries@[j].1@,
            decreases self.entries@.len() - i,
        {
            entries.push((self.entries[i].0.clone(), self.entries[i].1.clone()));
            i = i + 1;
        }
        proof {
            let nv = entries@.map_values(|e: (String, String)| (e.0@, e.1@));
            assert(nv =~= self.entries_view());
        }
        let d = SynonymDict { entries };
        d
    }
}

impl SynonymDict {
    /// The variants are non-empty and pairwise different.
    #[verifier::type_invariant]
    spec fn inv(self) -> bool {
        distinct_nonempty(entry_keys(self.entries_view()))
    }

    /// The entries as (variant, canonical) pairs, in the order they were
    /// first added.
    pub closed spec fn entries_view(self) -> Seq<(Seq<char>, Seq<char>)> {
        self.entries@.map_values(|e: (String, String)| (e.0@, e.1@))
    }

    /// An empty dictionary.
    pub fn new() -> (d: Self)
        ensures
            d.entries_view() == Seq::<(Seq<char>, Seq<char>)>::empty(),
    {
        let d = SynonymDict { entries: Vec::new() };
        proof {
            assert(d.entries_view() =~= Seq::<(Seq<char>, Seq<char>)>::empty());
        }
        d
    }

    /// The number of entries.
    pub fn len(&self) -> (n: usize)
        ensures
            n == self.entries_view().len(),
    {
        self.entries.len()
    }

    /// Whether there is no entry.
    pub fn is_empty(&self) -> (b: bool)
        ensures
            b == (self.entries_view().len() == 0),
    {
        self.entries.len() == 0
    }

    /// Adds `variant` → `canonical` (see [`insert_spec`]).
    pub fn insert(&mut self, variant: &str, canonical: &str)
        ensures
            final(self).entries_view() == insert_spec(old(self).entries_view(), variant@, canonical@),
            distinct_nonempty(entry_keys(final(self).entries_view())),
    {
        proof {
            use_type_invariant(&*self);
        }
        let ghost es = self.entries_view();
        if variant.is_empty() {
            return;
        }
        let key: String = variant.to_owned();
        let mut i: usize = 0;
        let mut found: Option<usize> = None;
        while i < self.entries.len()
            invariant_except_break
                found is None,
            invariant
                key@ == variant@,
                i <= self.entries@.len(),
                es == self.entries_view(),
                es.len() == self.entries@.len(),
                forall|j: int| 0 <= j < i ==> #[trigger] es[j].0 != variant@,
            ensures
                found matches Some(k) ==> k < es.len() && es[k as int].0 == variant@,
                found is None ==> forall|j: int| 0 <= j < es.len() ==> #[trigger] es[j].0 != variant@,
            decreases self.entries@.len() - i,
        {
            proof {
                assert(es[i as int] == (self.entries@[i as int].0@, self.entries@[i as int].1@));
            }
            if self.entries[i].0 == key {
                found = Some(i);
                break;
            }
            i = i + 1;
        }
        proof {
            lemma_index_of_key(es, variant@);
        }
        let mut entries: Vec<(String, String)> = Vec::new();
        std::mem::swap(&mut entries, &mut self.entries);
        match found {
            Some(k) => {
                proof {
                    lemma_first_key(es, variant@, k as int);
                }
                entries.set(k, (key, canonical.to_owned()));
                proof {
                    let nv = entries@.map_values(|e: (String, String)| (e.0@, e.1@));
                    assert(nv =~= es.update(k as int, (variant@, canonical@)));
                    assert(entry_keys(nv) =~= entry_keys(es));
                }
            },
            None => {
                entries.push((key, canonical.to_owned()));
                proof {
                    if let Some(j) = index_of_key(es, variant@) {
                        assert(es[j].0 == variant@);
                    }
                    let nv = entries@.map_values(|e: (String, String)| (e.0@, e.1@));
                    assert(nv =~= es.push((variant@, canonical@)));
                    assert(entry_keys(nv) =~= entry_keys(es).push(variant@));
                    assert forall|x: int, y: int|
                        0 <= x < y < entry_keys(nv).len() implies #[trigger] entry_keys(nv)[x]
                        != #[trigger] entry_keys(nv)[y] by {
                        if y == es.len() {
                            assert(es[x].0 != variant@);
                        } else {
                            assert(entry_keys(es)[x] != entry_keys(es)[y]);
                        }
                    }
                }
            },
        }
        self.entries = entries;
        proof {
            use_type_invariant(&*self);
        }
    }

    /// Every entry as (variant, canonical), in the order they were first added.
    pub fn iter(&self) -> (r: Vec<(&str, &str)>)
        ensures
            r@.len() == self.entries_view().len(),
            forall|i: int|
                0 <= i < r@.len() ==> (#[trigger] r@[i]).0@ == self.entries_view()[i].0 && r@[i].1@
                    == self.entries_view()[i].1,
    {
        let mut r: Vec<(&str, &str)> = Vec::new();
        let mut i: usize = 0;
        while i < self.entries.len()
            invariant
                i <= self.entries@.len(),
                r@.len() == i,
                forall|j: int|
                    0 <= j < i ==> (#[trigger] r@[j]).0@ == self.entries_view()[j].0 && r@[j].1@
                        == self.entries_view()[j].1,
            decreases self.entries@.len() - i,
        {
            r.push((self.entries[i].0.as_str(), self.entries[i].1.as_str()));
            i = i + 1;
        }
        r
    }

    /// Adds every entry of `other`, in its order.
    pub fn extend(&mut self, other: SynonymDict)
        ensures
            final(self).entries_view() == extend_spec(
                old(self).entries_view(),
                other.entries_view(),
                0,
            ),
    {
        let ghost start = self.entries_view();
        let mut i: usize = 0;
        while i < other.entries.len()
            invariant
                i <= other.entries@.len(),
                extend_spec(self.entries_view(), other.entries_view(), i as int) == extend_spec(
                    start,
                    other.entries_view(),
                    0,
                ),
            decreases other.entries@.len() - i,
        {
            let ghost before = self.entries_view();
            self.insert(other.entries[i].0.as_str(), other.entries[i].1.as_str());
            proof {
                assert(other.entries_view()[i as int] == (
                    other.entries@[i as int].0@,
                    other.entries@[i as int].1@,
                ));
            }
            i = i + 1;
        }
    }

    /// Replaces the leftmost-longest occurrences of the variants in `input`
    /// by their canonical forms (see [`apply_spec`]).
    pub fn apply(&self, input: &str) -> (out: String)
        ensures
            out@ == apply_spec(self.entries_view(), input@),
    {
        proof {
            use_type_invariant(self);
        }
        if self.entries.len() == 0 {
            return input.to_owned();
        }
        let ghost es = self.entries_view();
        let mut keys: Vec<String> = Vec::new();
        let mut vals: Vec<String> = Vec::new();
        let mut i: usize = 0;
        while i < self.entries.len()
            invariant
                i <= self.entries@.len(),
                es == self.entries_view(),
                keys@.len() == i,
                vals@.len() == i,
                forall|j: int| 0 <= j < i ==> (#[trigger] keys@[j])@ == es[j].0,
                forall|j: int| 0 <= j < i ==> (#[trigger] vals@[j])@ == es[j].1,
            decreases self.entries@.len() - i,
        {
            keys.push(self.entries[i].0.clone());
            vals.push(self.entries[i].1.clone());
            i = i + 1;
        }
        proof {
            assert(views(keys@) =~= entry_keys(es));
        }
        let aut = match build_leftmost_longest(&keys) {
            Some(a) => a,
            None => {
                return input.to_owned();
            },
        };
        let found = leftmost_find(&aut, input);
        let ghost vs = entry_values(es);
        proof {
            assert forall|j: int| 0 <= j < vals@.len() implies (#[trigger] vals@[j])@ == vs[j] by {}
        }
        proof {
            assert(vals@.map_values(|x: String| x@) =~= vs);
        }
        splice(input, &found, &vals, Ghost(entry_keys(es)))
    }
}

/// The entries after adding `other[j..]` to `es`, in order.
pub open spec fn extend_spec(
    es: Seq<(Seq<char>, Seq<char>)>,
    other: Seq<(Seq<char>, Seq<char>)>,
    j: int,
) -> Seq<(Seq<char>, Seq<char>)>
    decreases other.len() - j,
{
    if j < 0 || j >= other.len() {
        es
    } else {
        extend_spec(insert_spec(es, other[j].0, other[j].1), other, j + 1)
    }
}

impl Default for SynonymDict {
    fn default() -> (d: Self)
        ensures
            d.entries_view() == Seq::<(Seq<char>, Seq<char>)>::empty(),
    {
        SynonymDict::new()
    }
}

pub proof fn lemma_first_key(es: Seq<(Seq<char>, Seq<char>)>, k: Seq<char>, i: int)
    requires
        0 <= i < es.len(),
        es[i].0 == k,
        distinct_nonempty(entry_keys(es)),
    ensures
        index_of_key(es, k) == Some(i),
{
    lemma_index_of_key(es, k);
    if let Some(j) = index_of_key(es, k) {
        if j != i {
            assert(entry_keys(es)[i] == k);
            assert(entry_keys(es)[j] == k);
            if i < j {
                assert(entry_keys(es)[i] != entry_keys(es)[j]);
            } else {
                assert(entry_keys(es)[j] != entry_keys(es)[i]);
            }
        }
    }
}

/// The UTF-8 byte offset of each character boundary of `s`, wide enough for
/// any text.
fn wide_offsets(s: &Vec<char>) -> (r: Vec<u128>)
    ensures
        r@.len() == s@.len() + 1,
        forall|k: int| 0 <= k <= s@.len() ==> #[trigger] r@[k] == byte_offset(s@, k),
{
    let ghost v = s@;
    let mut r: Vec<u128> = Vec::new();
    r.push(0);
    proof {
        assert(encode_utf8(v.take(0)) =~= Seq::<u8>::empty());
    }
    let mut pos: u128 = 0;
    let mut k: usize = 0;
    while k < s.len()
        invariant
            k <= s.len(),
            v == s@,
            r@.len() == k + 1,
            pos == byte_offset(v, k as int),
            pos <= 4 * k,
            forall|x: int| 0 <= x <= k ==> #[trigger] r@[x] == byte_offset(v, x),
        decreases s.len() - k,
    {
        proof {
            lemma_byte_offset_step(v, k as int);
        }
        pos = pos + width_of(s[k]) as u128;
        r.push(pos);
        k = k + 1;
    }
    r
}

/// The character index `p` at or after `from` whose byte offset is `target`.
fn index_at(
    offsets: &Vec<u128>,
    from: usize,
    target: usize,
    Ghost(s): Ghost<Seq<char>>,
    Ghost(p): Ghost<int>,
) -> (k: usize)
    requires
        offsets@.len() == s.len() + 1,
        forall|x: int| 0 <= x <= s.len() ==> #[trigger] offsets@[x] == byte_offset(s, x),
        from <= p <= s.len(),
        target == byte_offset(s, p),
    ensures
        k == p,
{
    let mut k: usize = from;
    while k < offsets.len() - 1 && offsets[k] != target as u128
        invariant
            from <= k <= s.len(),
            k <= p,
            offsets@.len() == s.len() + 1,
            forall|x: int| 0 <= x <= s.len() ==> #[trigger] offsets@[x] == byte_offset(s, x),
            target == byte_offset(s, p),
            forall|x: int| from <= x < k ==> byte_offset(s, x) != target,
        decreases s.len() - k,
    {
        proof {
            if k == p {
                assert(offsets@[k as int] == target as u128);
            }
        }
        k = k + 1;
    }
    proof {
        if k < p {
            lemma_byte_offset_mono(s, k as int, p);
            if k == s.len() {
            } else {
                assert(offsets@[k as int] == target as u128);
                assert(byte_offset(s, k as int) + (p - k) <= byte_offset(s, p));
            }
        }
    }
    k
}

/// Replaces the matches `found` (byte ranges with pattern indices, as
/// [`leftmost_find`] gives them for the patterns `pats`) in `input` by the
/// values `vals` of their patterns.
#[verifier::spinoff_prover]
#[verifier::rlimit(50)]
fn splice(
    input: &str,
    found: &Vec<(usize, usize, u32)>,
    vals: &Vec<String>,
    Ghost(pats): Ghost<Seq<Seq<char>>>,
) -> (out: String)
    requires
        vals@.len() == pats.len(),
        found@.len() == matches_from(pats, input@, 0).len(),
        forall|k: int|
            0 <= k < found@.len() ==> {
                let (p, q, v) = matches_from(pats, input@, 0)[k];
                &&& (#[trigger] found@[k]).0 == byte_offset(input@, p)
                &&& found@[k].1 == byte_offset(input@, q)
                &&& found@[k].2 == v
            },
    ensures
        out@ == splice_from(
            input@,
            matches_from(pats, input@, 0),
            vals@.map_values(|x: String| x@),
            0,
            0,
        ),
{
    let chars = chars_of(input);
    let ghost s = chars@;
    let ghost ms = matches_from(pats, s, 0);
    let ghost vs = vals@.map_values(|x: String| x@);
    proof {
        lemma_matches_from(pats, s, 0);
    }
    let offsets = wide_offsets(&chars);
    let mut out: Vec<char> = Vec::new();
    let mut cursor: usize = 0;
    let mut j: usize = 0;
    while j < found.len()
        invariant
            j <= found@.len(),
            s == chars@,
            s == input@,
            ms == matches_from(pats, s, 0),
            vs == vals@.map_values(|x: String| x@),
            vals@.len() == pats.len(),
            found@.len() == ms.len(),
            offsets@.len() == s.len() + 1,
            forall|x: int| 0 <= x <= s.len() ==> #[trigger] offsets@[x] == byte_offset(s, x),
            forall|k: int|
                0 <= k < found@.len() ==> {
                    let (p, q, v) = ms[k];
                    &&& (#[trigger] found@[k]).0 == byte_offset(s, p)
                    &&& found@[k].1 == byte_offset(s, q)
                    &&& found@[k].2 == v
                },
            forall|k: int|
                0 <= k < ms.len() ==> {
                    let (a, b, jj) = #[trigger] ms[k];
                    &&& 0 <= a < b <= s.len()
                    &&& 0 <= jj < pats.len()
                },
            forall|k: int| 0 < k < ms.len() ==> (#[trigger] ms[k]).0 >= ms[k - 1].1,
            cursor <= s.len(),
            j > 0 ==> cursor == ms[j - 1].1,
            j == 0 ==> cursor == 0,
            out@ + splice_from(s, ms, vs, j as int, cursor as int) == splice_from(s, ms, vs, 0, 0),
        decreases found@.len() - j,
    {
        let (sb, eb, v) = found[j];
        let ghost (p, q, vv) = ms[j as int];
        assert(found@[j as int] == (sb, eb, v));
        let a = index_at(&offsets, cursor, sb, Ghost(s), Ghost(p));
        let b = index_at(&offsets, a, eb, Ghost(s), Ghost(q));
        let ghost before = out@;
        push_all(&mut out, &chars.as_slice()[cursor..a]);
        let vi = v as usize;
        push_str(&mut out, vals[vi].as_str());
        proof {
            assert(chars@.subrange(cursor as int, a as int) == s.subrange(cursor as int, p));
            assert(vals@[vi as int]@ == vs[vv]);
            assert(out@ + splice_from(s, ms, vs, j + 1, q) =~= before + splice_from(
                s,
                ms,
                vs,
                j as int,
                cursor as int,
            ));
        }
        cursor = b;
        j = j + 1;
    }
    let ghost before = out@;
    push_all(&mut out, &chars.as_slice()[cursor..chars.len()]);
    proof {
        assert(out@ =~= before + splice_from(s, ms, vs, j as int, cursor as int));
    }
    string_of(&out)
}

/// What a row of a delimited file gives: `None` for a malformed row,
/// `Some(None)` for a blank or comment (`#`) row, `Some(Some((v, c)))` for
/// the entry `v` → `c`. The row is trimmed, split at the first separator,
/// and both sides trimmed; the variant must not be empty.
pub open spec fn delimited_row(line: Seq<char>, sep: char) -> Option<
    Option<(Seq<char>, Seq<char>)>,
> {
    let t = trim_spec(line);
    if t.len() == 0 || t[0] == '#' {
        Some(None)
    } else {
        match find_char_spec(t, sep) {
            None => None,
            Some(p) => {
                let v = trim_spec(t.take(p));
                if v.len() == 0 {
                    None
                } else {
                    Some(Some((v, trim_spec(t.skip(p + 1)))))
                }
            },
        }
    }
}

/// Loading the rows `lines[j..]` into the entries `es`: the entries, or the
/// number (from 1) of the first malformed row.
pub open spec fn delimited_from(
    lines: Seq<Seq<char>>,
    sep: char,
    j: int,
    es: Seq<(Seq<char>, Seq<char>)>,
) -> Result<Seq<(Seq<char>, Seq<char>)>, int>
    decreases lines.len() - j,
{
    if j < 0 || j >= lines.len() {
        Ok(es)
    } else {
        match delimited_row(lines[j], sep) {
            None => Err(j + 1),
            Some(None) => delimited_from(lines, sep, j + 1, es),
            Some(Some((v, c))) => delimited_from(lines, sep, j + 1, insert_spec(es, v, c)),
        }
    }
}

/// The entries of a delimited text (see [`SynonymDict::from_delimited`]).
pub open spec fn delimited_spec(s: Seq<char>, sep: char) -> Result<Seq<(Seq<char>, Seq<char>)>, int> {
    delimited_from(lines_spec(s), sep, 0, seq![])
}

impl SynonymDict {
    /// Loads a text of rows `variant<sep>canonical` (CSV with `,`, TSV with
    /// `\t`); blank rows and rows starting with `#` are skipped (see
    /// [`delimited_spec`]).
    pub fn from_delimited(text: &str, separator: char) -> (r: Result<Self, SynonymDictError>)
        ensures
            match r {
                Ok(d) => delimited_spec(text@, separator) == Ok::<
                    Seq<(Seq<char>, Seq<char>)>,
                    int,
                >(d.entries_view()),
                Err(e) => delimited_spec(text@, separator) matches Err(n) && e matches SynonymDictError::InvalidRow { line } && line == n,
            },
    {
        let lines = lines_of(text);
        let ghost ls = lines_spec(text@);
        let mut dict = SynonymDict::new();
        proof {
            assert(dict.entries_view() =~= seq![]);
        }
        let mut j: usize = 0;
        while j < lines.len()
            invariant
                j <= lines@.len(),
                ls == lines_spec(text@),
                lines@.len() == ls.len(),
                forall|k: int| 0 <= k < lines@.len() ==> (#[trigger] lines@[k])@ == ls[k],
                delimited_from(ls, separator, j as int, dict.entries_view()) == delimited_spec(
                    text@,
                    separator,
                ),
            decreases lines@.len() - j,
        {
            let line = trim_str(lines[j]);
            assert(line@ == trim_spec(ls[j as int]));
            if line.is_empty() || line.get_char(0) == '#' {
                j = j + 1;
                continue;
            }
            match find_char(line, separator) {
                None => {
                    return Err(SynonymDictError::InvalidRow { line: j + 1 });
                },
                Some(p) => {
                    let n = line.unicode_len();
                    let v = trim_str(line.substring_char(0, p));
                    let c = trim_str(line.substring_char(p + 1, n));
                    proof {
                        assert(line@.subrange(0, p as int) =~= line@.take(p as int));
                        assert(line@.subrange(p + 1, n as int) =~= line@.skip(p + 1));
                    }
                    if v.is_empty() {
                        return Err(SynonymDictError::InvalidRow { line: j + 1 });
                    }
                    dict.insert(v, c);
                },
            }
            j = j + 1;
        }
        Ok(dict)
    }
}

/// Loading the members `ms[j..]` of a `{"variant": "canonical"}` object
/// into `es`; a member that is not a string is an error (at offset 0).
pub open spec fn json_pairs_from(
    ms: Seq<(Seq<char>, MemberView)>,
    j: int,
    es: Seq<(Seq<char>, Seq<char>)>,
) -> Result<Seq<(Seq<char>, Seq<char>)>, JsonError>
    decreases ms.len() - j,
{
    if j < 0 || j >= ms.len() {
        Ok(es)
    } else {
        match ms[j].1 {
            MemberView::Str(c) => json_pairs_from(ms, j + 1, insert_spec(es, ms[j].0, c)),
            _ => Err((0, "expected string value"@)),
        }
    }
}

/// The entries of a `{"variant": "canonical", ...}` text, or the error.
pub open spec fn from_json_spec(s: Seq<char>) -> Result<Seq<(Seq<char>, Seq<char>)>, JsonError> {
    match parse_object_spec(s) {
        Err(e) => Err(e),
        Ok(ms) => json_pairs_from(ms, 0, seq![]),
    }
}

/// Loading the variants `items[k..]` of the canonical form `canonical` into
/// `es`: a variant equal to the canonical form is skipped; an item that is
/// not a string is an error (at offset 0).
pub open spec fn group_from(
    items: Seq<ItemView>,
    canonical: Seq<char>,
    k: int,
    es: Seq<(Seq<char>, Seq<char>)>,
) -> Result<Seq<(Seq<char>, Seq<char>)>, JsonError>
    decreases items.len() - k,
{
    if k < 0 || k >= items.len() {
        Ok(es)
    } else {
        match items[k] {
            None => Err((0, "expected string in array"@)),
            Some(v) => group_from(
                items,
                canonical,
                k + 1,
                if v == canonical {
                    es
                } else {
                    insert_spec(es, v, canonical)
                },
            ),
        }
    }
}

/// Loading the members `ms[j..]` of a `{"canonical": ["variant", ...]}`
/// object into `es`; a member that is not an array is an error (at offset 0).
pub open spec fn json_groups_from(
    ms: Seq<(Seq<char>, MemberView)>,
    j: int,
    es: Seq<(Seq<char>, Seq<char>)>,
) -> Result<Seq<(Seq<char>, Seq<char>)>, JsonError>
    decreases ms.len() - j,
{
    if j < 0 || j >= ms.len() {
        Ok(es)
    } else {
        match ms[j].1 {
            MemberView::Arr(items) => match group_from(items, ms[j].0, 0, es) {
                Err(e) => Err(e),
                Ok(es2) => json_groups_from(ms, j + 1, es2),
            },
            _ => Err((0, "expected array of strings"@)),
        }
    }
}

/// The entries of a `{"canonical": ["variant", ...], ...}` text, or the error.
pub open spec fn from_json_grouped_spec(s: Seq<char>) -> Result<
    Seq<(Seq<char>, Seq<char>)>,
    JsonError,
> {
    match parse_object_spec(s) {
        Err(e) => Err(e),
        Ok(ms) => json_groups_from(ms, 0, seq![]),
    }
}

/// Whether `e` is the JSON error `je`.
pub open spec fn is_json_error(e: SynonymDictError, je: JsonError) -> bool {
    e matches SynonymDictError::InvalidJson { offset, message } && offset == je.0 && message@
        == je.1
}

impl SynonymDict {
    /// Loads a JSON object `{"variant": "canonical", ...}` (see
    /// [`from_json_spec`]).
    ///
    /// The JSON reader is small and built in: strings, arrays, objects and
    /// the standard escapes (`\uXXXX` with surrogate pairs included).
    pub fn from_json(text: &str) -> (r: Result<Self, SynonymDictError>)
        ensures
            match r {
                Ok(d) => from_json_spec(text@) == Ok::<Seq<(Seq<char>, Seq<char>)>, JsonError>(
                    d.entries_view(),
                ),
                Err(e) => from_json_spec(text@) matches Err(je) && is_json_error(e, je),
            },
    {
        let members = match parse_object(text) {
            Err((offset, message)) => {
                return Err(SynonymDictError::InvalidJson { offset, message });
            },
            Ok(ms) => ms,
        };
        let ghost ms = members_view(members@);
        let mut dict = SynonymDict::new();
        proof {
            assert(dict.entries_view() =~= seq![]);
        }
        let mut j: usize = 0;
        while j < members.len()
            invariant
                j <= members@.len(),
                ms == members_view(members@),
                json_pairs_from(ms, j as int, dict.entries_view()) == from_json_spec(text@),
            decreases members@.len() - j,
        {
            match &members[j].1 {
                Member::Str(c) => {
                    dict.insert(members[j].0.as_str(), c.as_str());
                },
                _ => {
                    return Err(
                        SynonymDictError::InvalidJson { offset: 0, message: "expected string value" },
                    );
                },
            }
            j = j + 1;
        }
        Ok(dict)
    }

    /// Loads a JSON object `{"canonical": ["variant1", "variant2", ...], ...}`
    /// (see [`from_json_grouped_spec`]): each variant becomes an entry for
    /// its canonical form, which itself is not an entry.
    ///
    /// This is the format of custom dictionaries: the canonical form as the
    /// key, its spellings in an array.
    pub fn from_json_grouped(text: &str) -> (r: Result<Self, SynonymDictError>)
        ensures
            match r {
                Ok(d) => from_json_grouped_spec(text@) == Ok::<
                    Seq<(Seq<char>, Seq<char>)>,
                    JsonError,
                >(d.entries_view()),
                Err(e) => from_json_grouped_spec(text@) matches Err(je) && is_json_error(e, je),
            },
    {
        let members = match parse_object(text) {
            Err((offset, message)) => {
                return Err(SynonymDictError::InvalidJson { offset, message });
            },
            Ok(ms) => ms,
        };
        let ghost ms = members_view(members@);
        let mut dict = SynonymDict::new();
        proof {
            assert(dict.entries_view() =~= seq![]);
        }
        let mut j: usize = 0;
        while j < members.len()
            invariant
                j <= members@.len(),
                ms == members_view(members@),
                json_groups_from(ms, j as int, dict.entries_view()) == from_json_grouped_spec(
                    text@,
                ),
            decreases members@.len() - j,
        {
            let canonical = members[j].0.as_str();
            match &members[j].1 {
                Member::Arr(items) => {
                    let ghost iv = items_view(items@);
                    let mut k: usize = 0;
                    while k < items.len()
                        invariant
                            k <= items@.len(),
                            iv == items_view(items@),
                            canonical@ == ms[j as int].0,
                            ms[j as int].1 == MemberView::Arr(iv),
                            ms == members_view(members@),
                            j < members@.len(),
                            match group_from(iv, canonical@, k as int, dict.entries_view()) {
                                Ok(es2) => json_groups_from(ms, j + 1, es2),
                                Err(e) => Err(e),
                            } == from_json_grouped_spec(text@),
                        decreases items@.len() - k,
                    {
                        match &items[k] {
                            Some(v) => {
                                if !str_eq(v.as_str(), canonical) {
                                    dict.insert(v.as_str(), canonical);
                                }
                            },
                            None => {
                                return Err(
                                    SynonymDictError::InvalidJson {
                                        offset: 0,
                                        message: "expected string in array",
                                    },
                                );
                            },
                        }
                        k = k + 1;
                    }
                },
                _ => {
                    return Err(
                        SynonymDictError::InvalidJson {
                            offset: 0,
                            message: "expected array of strings",
                        },
                    );
                },
            }
            j = j + 1;
        }
        Ok(dict)
    }
}

/// Of the patterns `pats[j..]` that occur at `p`, the one found is at least
/// as long as any.
proof fn lemma_longest_from_max(pats: Seq<Seq<char>>, s: Seq<char>, p: int, j: int, t: int)
    requires
        0 <= j <= t < pats.len(),
        occurs_at(pats[t], s, p),
    ensures
        longest_from(pats, s, p, j) is Some,
        pats[longest_from(pats, s, p, j)->0].len() >= pats[t].len(),
    decreases pats.len() - j,
{
    lemma_longest_from(pats, s, p, j + 1);
    if j < t {
        lemma_longest_from_max(pats, s, p, j + 1, t);
    }
}

/// A variant on its own is replaced by its canonical form: with entries
/// `es` whose variants daachorse accepts, the text made of the variant of
/// entry `i` alone becomes that entry's canonical form.
pub proof fn lemma_variant_alone(es: Seq<(Seq<char>, Seq<char>)>, i: int)
    requires
        distinct_nonempty(entry_keys(es)),
        builds(entry_keys(es)),
        0 <= i < es.len(),
    ensures
        apply_spec(es, es[i].0) == es[i].1,
{
    let pats = entry_keys(es);
    let k = es[i].0;
    assert(pats[i] == k);
    assert(k.subrange(0, k.len() as int) =~= k);
    assert(occurs_at(pats[i], k, 0));
    lemma_longest_from_max(pats, k, 0, 0, i);
    lemma_longest_from(pats, k, 0, 0);
    let m = longest_from(pats, k, 0, 0)->0;
    assert(pats[m] =~= k);
    if m != i {
        if m < i {
            assert(pats[m] != pats[i]);
        } else {
            assert(pats[i] != pats[m]);
        }
    }
    assert(m == i);
    let ms = matches_from(pats, k, 0);
    assert(matches_from(pats, k, k.len() as int) =~= seq![]);
    assert(ms =~= seq![(0, k.len() as int, i)]);
    let vals = entry_values(es);
    reveal_with_fuel(splice_from, 2);
    assert(k.subrange(0, 0) =~= Seq::<char>::empty());
    assert(k.subrange(k.len() as int, k.len() as int) =~= Seq::<char>::empty());
    assert(splice_from(k, ms, vals, 0, 0) =~= vals[i]);
}

/// After adding `k` → `v` (with `k` not empty) the entries hold `k` → `v`,
/// their variants stay distinct and non-empty, and every other variant keeps
/// its canonical form.
pub proof fn lemma_insert_spec(es: Seq<(Seq<char>, Seq<char>)>, k: Seq<char>, v: Seq<char>)
    requires
        distinct_nonempty(entry_keys(es)),
        k.len() > 0,
    ensures
        distinct_nonempty(entry_keys(insert_spec(es, k, v))),
        exists|i: int|
            0 <= i < insert_spec(es, k, v).len() && insert_spec(es, k, v)[i] == (k, v),
        forall|j: int|
            0 <= j < es.len() && es[j].0 != k ==> insert_spec(es, k, v).contains(es[j]),
{
    lemma_index_of_key(es, k);
    let r = insert_spec(es, k, v);
    match index_of_key(es, k) {
        Some(i) => {
            assert(r[i] == (k, v));
            assert(entry_keys(r) =~= entry_keys(es));
            assert forall|j: int| 0 <= j < es.len() && es[j].0 != k implies r.contains(es[j]) by {
                assert(r[j] == es[j]);
            }
        },
        None => {
            assert(r[es.len() as int] == (k, v));
            assert(entry_keys(r) =~= entry_keys(es).push(k));
            assert forall|x: int, y: int|
                0 <= x < y < entry_keys(r).len() implies #[trigger] entry_keys(r)[x]
                != #[trigger] entry_keys(r)[y] by {
                if y == es.len() {
                    assert(es[x].0 != k);
                } else {
                    assert(entry_keys(es)[x] != entry_keys(es)[y]);
                }
            }
            assert forall|j: int| 0 <= j < es.len() && es[j].0 != k implies r.contains(es[j]) by {
                assert(r[j] == es[j]);
            }
        },
    }
}

/// What a replacement gives back of an insertion: after adding `k` → `v`,
/// the text `k` alone becomes `v` (when daachorse accepts the variants).
pub proof fn lemma_insert_then_apply(es: Seq<(Seq<char>, Seq<char>)>, k: Seq<char>, v: Seq<char>)
    requires
        distinct_nonempty(entry_keys(es)),
        k.len() > 0,
        builds(entry_keys(insert_spec(es, k, v))),
    ensures
        apply_spec(insert_spec(es, k, v), k) == v,
{
    lemma_insert_spec(es, k, v);
    let r = insert_spec(es, k, v);
    let i = choose|i: int| 0 <= i < r.len() && r[i] == (k, v);
    lemma_variant_alone(r, i);
}

} // verus!
