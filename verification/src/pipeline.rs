//! The normalization pipeline, put together with a builder.
use vstd::prelude::*;
use crate::config::Config;
use crate::config::Preset;
use crate::config::presets::{none_spec, neologdn_compat_spec, preset_spec};
use crate::l1_char::{cjk_compat, cleanup, prolonged, quotes, repeat, spaces, strip, symbols, unicode, width};
use crate::l2_script::kana::{self, KanaAction};
use crate::l2_script::{numbers, numerals};
use crate::l3_lexical::synonym::{SynonymDict, apply_spec};
use crate::l4_extra::emoji::{self, EmojiAction};
use crate::l4_extra::protect::{self, Kind as ProtectKind, ProtectConfig, scan_spec, segments_spec, segments_from, scan_chars, segment_ranges, lemma_segments_len_free};
use crate::text::{chars_of, string_of, push_str, trim_start_str, trim_end_str, trim_start_spec, trim_end_spec, is_white_space};

verus! {

/// A piece of a normalization result.
///
/// Tells which parts of the output were normalized and which were passed
/// through as protected regions; for debugging and search highlighting.
#[derive(Debug, Clone, PartialEq, Eq)]
pub enum Segment {
    /// A normalized piece.
    Normalized(String),
    /// A protected region (URL / e-mail / mention / hashtag), as in the input.
    Protected {
        /// The text in the output (after `url_wrap`).
        text: String,
        /// The kind of region.
        kind: ProtectKind,
    },
}

/// What [`Normalizer::normalize_with_segments`] returns.
#[derive(Debug, Clone)]
pub struct NormalizedText {
    /// The whole output.
    pub text: String,
    /// The pieces the output is made of, in order.
    pub segments: Vec<Segment>,
}

/// A segment as its text and, for a protected region, its kind.
pub open spec fn seg_view(g: Segment) -> (Seq<char>, Option<ProtectKind>) {
    match g {
        Segment::Normalized(t) => (t@, None),
        Segment::Protected { text, kind } => (text@, Some(kind)),
    }
}

/// The views of a list of segments.
pub open spec fn seg_views(v: Seq<Segment>) -> Seq<(Seq<char>, Option<ProtectKind>)> {
    v.map_values(|g: Segment| seg_view(g))
}

// ---- the steps on text outside protected regions ----

/// Clean-up: line breaks, bidi controls, zero-width characters, controls.
pub open spec fn cleanup_stage(c: Config, s: Seq<char>) -> Seq<char> {
    let s = if c.normalize_newlines {
        cleanup::newlines_spec(s)
    } else {
        s
    };
    let s = if c.remove_bidi_control {
        s.filter(|c: char| !cleanup::is_bidi_control(c))
    } else {
        s
    };
    let s = if c.remove_zero_width {
        s.filter(|c: char| !cleanup::is_zero_width(c))
    } else {
        s
    };
    if c.remove_control {
        s.filter(|c: char| !cleanup::is_removed_control(c))
    } else {
        s
    }
}

/// Character forms: compatibility characters, NFKC, half-width kana, kana,
/// quotes.
pub open spec fn form_stage(c: Config, s: Seq<char>) -> Seq<char> {
    let s = if c.expand_cjk_compat {
        s.flat_map(|c: char| cjk_compat::expand_char(c))
    } else {
        s
    };
    let s = if c.nfkc {
        unicode::nfkc_of(s)
    } else {
        s
    };
    let s = if c.halfwidth_kana_to_fullwidth {
        width::halfwidth_spec(s)
    } else {
        s
    };
    let s = kana::process_spec(s, c.kana);
    if c.unify_quotes {
        s.map_values(|c: char| quotes::quote_char(c))
    } else {
        s
    }
}

/// Symbols: hyphens / tildes / long-vowel marks, runs of long-vowel marks,
/// emoji.
pub open spec fn symbol_stage(c: Config, s: Seq<char>) -> Seq<char> {
    let s = if c.unify_hyphens || c.unify_tildes || c.unify_prolonged {
        s.map_values(
            |ch: char| symbols::symbol_char(ch, c.unify_hyphens, c.unify_tildes, c.unify_prolonged),
        )
    } else {
        s
    };
    let s = if c.collapse_prolonged_run {
        prolonged::collapse_spec(s)
    } else {
        s
    };
    emoji::process_spec(s, c.emoji_action)
}

/// Numerals: kanji to Arabic, then Arabic to kanji (`None` where a number
/// has no kanji form).
pub open spec fn numeral_stage(c: Config, s: Seq<char>) -> Option<Seq<char>> {
    let s = if c.kansuji_to_arabic {
        numerals::kansuji_to_arabic_spec(s)
    } else {
        s
    };
    if c.arabic_to_kansuji {
        numerals::arabic_to_kansuji_spec(s)
    } else {
        Some(s)
    }
}

/// Last steps: number tokens, removals, repetitions, spaces.
pub open spec fn final_stage(c: Config, s: Seq<char>) -> Seq<char> {
    let s = if c.canonicalize_numbers {
        numbers::canonicalize_spec(s)
    } else {
        s
    };
    let s = if c.remove_cjk_compat {
        s.filter(|c: char| !strip::is_cjk_compat(c))
    } else {
        s
    };
    let s = if c.remove_symbols {
        s.filter(|c: char| !strip::is_symbol(c))
    } else {
        s
    };
    let s = match c.repeat_limit {
        Some(limit) => repeat::shorten_spec(s, limit as nat),
        None => s,
    };
    if c.collapse_spaces {
        spaces::collapse_spec(s)
    } else {
        s
    }
}

/// Replacement with the synonym entries, if any.
pub open spec fn synonym_stage(syn: Option<Seq<(Seq<char>, Seq<char>)>>, s: Seq<char>) -> Seq<
    char,
> {
    match syn {
        Some(es) => apply_spec(es, s),
        None => s,
    }
}

/// What the steps make of text outside protected regions, in their order;
/// `None` where a number has no kanji form.
pub open spec fn free_spec(
    c: Config,
    syn: Option<Seq<(Seq<char>, Seq<char>)>>,
    s: Seq<char>,
) -> Option<Seq<char>> {
    match numeral_stage(c, symbol_stage(c, form_stage(c, cleanup_stage(c, s)))) {
        Some(t) => Some(synonym_stage(syn, final_stage(c, t))),
        None => None,
    }
}

// ---- segments ----

/// The pieces of `s` (character ranges, with the kind of protected ones):
/// around the protected regions when some kind is protected, else the whole.
pub open spec fn pieces_spec(c: Config, s: Seq<char>) -> Seq<(int, int, Option<ProtectKind>)> {
    if c.protect.any_spec() {
        segments_spec(s, scan_spec(s, c.protect))
    } else {
        seq![(0, s.len() as int, None)]
    }
}

/// A protected region's text in the output: a URL gets the `url_wrap`
/// prefix and suffix, if set.
pub open spec fn wrap_spec(c: Config, kind: ProtectKind, t: Seq<char>) -> Seq<char> {
    match (kind, c.url_wrap) {
        (ProtectKind::Url, Some((p, q))) => p@ + t + q@,
        _ => t,
    }
}

/// The segments of the first `n` pieces `ps` of `s`: a free piece is
/// normalized and dropped if it comes out empty; a protected one is kept
/// (wrapped). `None` where a free piece cannot be normalized.
pub open spec fn raw_upto(
    c: Config,
    syn: Option<Seq<(Seq<char>, Seq<char>)>>,
    s: Seq<char>,
    ps: Seq<(int, int, Option<ProtectKind>)>,
    n: int,
) -> Option<Seq<(Seq<char>, Option<ProtectKind>)>>
    decreases n,
{
    if n <= 0 || n > ps.len() {
        Some(seq![])
    } else {
        match raw_upto(c, syn, s, ps, n - 1) {
            None => None,
            Some(prev) => {
                let (a, b, k) = ps[n - 1];
                match k {
                    None => match free_spec(c, syn, s.subrange(a, b)) {
                        None => None,
                        Some(t) => Some(
                            if t.len() == 0 {
                                prev
                            } else {
                                prev.push((t, None))
                            },
                        ),
                    },
                    Some(kind) => Some(prev.push((wrap_spec(c, kind, s.subrange(a, b)), Some(kind)))),
                }
            },
        }
    }
}

/// Drops leading white space from the output: while the first segment is a
/// normalized one, it is trimmed at its start, and removed if nothing is left.
pub open spec fn trim_front(segs: Seq<(Seq<char>, Option<ProtectKind>)>) -> Seq<
    (Seq<char>, Option<ProtectKind>),
>
    decreases segs.len(),
{
    if segs.len() > 0 && segs[0].1 is None {
        let t = trim_start_spec(segs[0].0);
        if t.len() == 0 {
            trim_front(segs.drop_first())
        } else {
            segs.update(0, (t, None))
        }
    } else {
        segs
    }
}

/// Drops trailing white space from the output, as [`trim_front`] at the end.
pub open spec fn trim_back(segs: Seq<(Seq<char>, Option<ProtectKind>)>) -> Seq<
    (Seq<char>, Option<ProtectKind>),
>
    decreases segs.len(),
{
    if segs.len() > 0 && segs.last().1 is None {
        let t = trim_end_spec(segs.last().0);
        if t.len() == 0 {
            trim_back(segs.drop_last())
        } else {
            segs.update(segs.len() - 1, (t, None))
        }
    } else {
        segs
    }
}

/// The texts of the segments, one after the other.
pub open spec fn concat_texts(segs: Seq<(Seq<char>, Option<ProtectKind>)>) -> Seq<char>
    decreases segs.len(),
{
    if segs.len() == 0 {
        seq![]
    } else {
        concat_texts(segs.drop_last()) + segs.last().0
    }
}

/// The segments of the result of normalizing `s`; `None` where a number
/// has no kanji form.
pub open spec fn segments_result(
    c: Config,
    syn: Option<Seq<(Seq<char>, Seq<char>)>>,
    s: Seq<char>,
) -> Option<Seq<(Seq<char>, Option<ProtectKind>)>> {
    let ps = pieces_spec(c, s);
    match raw_upto(c, syn, s, ps, ps.len() as int) {
        None => None,
        Some(r) => Some(
            if c.trim {
                trim_back(trim_front(r))
            } else {
                r
            },
        ),
    }
}

/// The result of normalizing `s`.
pub open spec fn normalize_spec(
    c: Config,
    syn: Option<Seq<(Seq<char>, Seq<char>)>>,
    s: Seq<char>,
) -> Option<Seq<char>> {
    match segments_result(c, syn, s) {
        None => None,
        Some(v) => Some(concat_texts(v)),
    }
}

/// The entries of an optional dictionary.
pub open spec fn dict_view(d: Option<SynonymDict>) -> Option<Seq<(Seq<char>, Seq<char>)>> {
    match d {
        Some(x) => Some(x.entries_view()),
        None => None,
    }
}

/// Once a prefix of the pieces fails, all of them fail.
proof fn lemma_raw_none(
    c: Config,
    syn: Option<Seq<(Seq<char>, Seq<char>)>>,
    s: Seq<char>,
    ps: Seq<(int, int, Option<ProtectKind>)>,
    n: int,
    m: int,
)
    requires
        0 < n <= m <= ps.len(),
        raw_upto(c, syn, s, ps, n) is None,
    ensures
        raw_upto(c, syn, s, ps, m) is None,
    decreases m - n,
{
    if n < m {
        lemma_raw_none(c, syn, s, ps, n, m - 1);
    }
}

// ---- protected regions come through unchanged ----

/// The protected segments of `segs`, in order, with their kinds.
pub open spec fn protected_of(segs: Seq<(Seq<char>, Option<ProtectKind>)>) -> Seq<
    (Seq<char>, ProtectKind),
>
    decreases segs.len(),
{
    if segs.len() == 0 {
        seq![]
    } else {
        (match segs[0].1 {
            Some(k) => seq![(segs[0].0, k)],
            None => seq![],
        }) + protected_of(segs.drop_first())
    }
}

/// The output texts of the protected pieces `ps` of `s`, in order.
pub open spec fn protected_texts(c: Config, s: Seq<char>, ps: Seq<(int, int, Option<ProtectKind>)>) -> Seq<
    (Seq<char>, ProtectKind),
>
    decreases ps.len(),
{
    if ps.len() == 0 {
        seq![]
    } else {
        (match ps[0].2 {
            Some(k) => seq![(wrap_spec(c, k, s.subrange(ps[0].0, ps[0].1)), k)],
            None => seq![],
        }) + protected_texts(c, s, ps.drop_first())
    }
}

/// The output texts of the regions `spans[j..]` of `s`: each region's text
/// (a URL wrapped as `url_wrap` says) and kind.
pub open spec fn region_texts(c: Config, s: Seq<char>, spans: Seq<(int, int, ProtectKind)>, j: int) -> Seq<
    (Seq<char>, ProtectKind),
>
    decreases spans.len() - j,
{
    if j < 0 || j >= spans.len() {
        seq![]
    } else {
        seq![(wrap_spec(c, spans[j].2, s.subrange(spans[j].0, spans[j].1)), spans[j].2)]
            + region_texts(c, s, spans, j + 1)
    }
}

proof fn lemma_protected_of_one(x: (Seq<char>, Option<ProtectKind>))
    ensures
        protected_of(seq![x]) == (match x.1 {
            Some(k) => seq![(x.0, k)],
            None => Seq::<(Seq<char>, ProtectKind)>::empty(),
        }),
{
    reveal_with_fuel(protected_of, 2);
    assert(seq![x].drop_first() =~= Seq::<(Seq<char>, Option<ProtectKind>)>::empty());
    assert(protected_of(seq![x]) =~= (match x.1 {
        Some(k) => seq![(x.0, k)],
        None => Seq::<(Seq<char>, ProtectKind)>::empty(),
    }));
}

proof fn lemma_protected_texts_one(c: Config, s: Seq<char>, x: (int, int, Option<ProtectKind>))
    ensures
        protected_texts(c, s, seq![x]) == (match x.2 {
            Some(k) => seq![(wrap_spec(c, k, s.subrange(x.0, x.1)), k)],
            None => Seq::<(Seq<char>, ProtectKind)>::empty(),
        }),
{
    reveal_with_fuel(protected_texts, 2);
    assert(seq![x].drop_first() =~= Seq::<(int, int, Option<ProtectKind>)>::empty());
    assert(protected_texts(c, s, seq![x]) =~= (match x.2 {
        Some(k) => seq![(wrap_spec(c, k, s.subrange(x.0, x.1)), k)],
        None => Seq::<(Seq<char>, ProtectKind)>::empty(),
    }));
}

proof fn lemma_protected_of_push(segs: Seq<(Seq<char>, Option<ProtectKind>)>, x: (Seq<char>, Option<ProtectKind>))
    ensures
        protected_of(segs.push(x)) == protected_of(segs) + protected_of(seq![x]),
    decreases segs.len(),
{
    if segs.len() == 0 {
        assert(segs.push(x) =~= seq![x]);
        assert(protected_of(segs) =~= seq![]);
        assert(protected_of(seq![x]) + seq![] =~= protected_of(seq![x]));
    } else {
        assert(segs.push(x).drop_first() =~= segs.drop_first().push(x));
        lemma_protected_of_push(segs.drop_first(), x);
        assert(protected_of(segs.push(x)) =~= protected_of(segs) + protected_of(seq![x]));
    }
}

proof fn lemma_protected_texts_concat(
    c: Config,
    s: Seq<char>,
    x: Seq<(int, int, Option<ProtectKind>)>,
    y: Seq<(int, int, Option<ProtectKind>)>,
)
    ensures
        protected_texts(c, s, x + y) == protected_texts(c, s, x) + protected_texts(c, s, y),
    decreases x.len(),
{
    if x.len() == 0 {
        assert(x + y =~= y);
        assert(protected_texts(c, s, x) + protected_texts(c, s, y) =~= protected_texts(c, s, y));
    } else {
        assert((x + y).drop_first() =~= x.drop_first() + y);
        lemma_protected_texts_concat(c, s, x.drop_first(), y);
        assert(protected_texts(c, s, x + y) =~= protected_texts(c, s, x) + protected_texts(c, s, y));
    }
}

/// The protected segments of the first `n` pieces are those pieces'
/// protected texts.
proof fn lemma_raw_protected(
    c: Config,
    syn: Option<Seq<(Seq<char>, Seq<char>)>>,
    s: Seq<char>,
    ps: Seq<(int, int, Option<ProtectKind>)>,
    n: int,
)
    requires
        0 <= n <= ps.len(),
        raw_upto(c, syn, s, ps, n) is Some,
    ensures
        protected_of(raw_upto(c, syn, s, ps, n)->0) == protected_texts(c, s, ps.take(n)),
    decreases n,
{
    if n == 0 {
        assert(ps.take(0) =~= seq![]);
        assert(raw_upto(c, syn, s, ps, 0)->0 =~= seq![]);
    } else {
        lemma_raw_protected(c, syn, s, ps, n - 1);
        let prev = raw_upto(c, syn, s, ps, n - 1)->0;
        let cur = raw_upto(c, syn, s, ps, n)->0;
        let p = ps[n - 1];
        assert(ps.take(n) =~= ps.take(n - 1) + seq![p]);
        lemma_protected_texts_concat(c, s, ps.take(n - 1), seq![p]);
        lemma_protected_texts_one(c, s, p);
        if cur == prev {
            assert(p.2 is None);
            assert(protected_of(cur) =~= protected_texts(c, s, ps.take(n)));
        } else {
            let x = cur.last();
            assert(cur == prev.push(x));
            lemma_protected_of_push(prev, x);
            lemma_protected_of_one(x);
            assert(protected_of(cur) =~= protected_texts(c, s, ps.take(n)));
        }
    }
}

proof fn lemma_trim_front_protected(segs: Seq<(Seq<char>, Option<ProtectKind>)>)
    ensures
        protected_of(trim_front(segs)) == protected_of(segs),
    decreases segs.len(),
{
    if segs.len() > 0 && segs[0].1 is None {
        let t = trim_start_spec(segs[0].0);
        if t.len() == 0 {
            lemma_trim_front_protected(segs.drop_first());
            assert(protected_of(segs) =~= protected_of(segs.drop_first()));
        } else {
            let u = segs.update(0, (t, None));
            assert(u.drop_first() =~= segs.drop_first());
            assert(protected_of(u) =~= protected_of(segs));
        }
    }
}

proof fn lemma_trim_back_protected(segs: Seq<(Seq<char>, Option<ProtectKind>)>)
    ensures
        protected_of(trim_back(segs)) == protected_of(segs),
    decreases segs.len(),
{
    if segs.len() > 0 && segs.last().1 is None {
        let t = trim_end_spec(segs.last().0);
        let d = segs.drop_last();
        assert(segs =~= d.push(segs.last()));
        lemma_protected_of_push(d, segs.last());
        lemma_protected_of_one(segs.last());
        if t.len() == 0 {
            lemma_trim_back_protected(d);
            assert(protected_of(segs) =~= protected_of(d));
        } else {
            let u = segs.update(segs.len() - 1, (t, None));
            assert(u =~= d.push((t, None)));
            lemma_protected_of_push(d, (t, None));
            lemma_protected_of_one((t, None));
            assert(protected_of(u) =~= protected_of(segs));
        }
    }
}

/// The protected pieces around the regions `spans[j..]` are those regions.
proof fn lemma_segments_protected(
    c: Config,
    s: Seq<char>,
    spans: Seq<(int, int, ProtectKind)>,
    j: int,
    cursor: int,
)
    requires
        0 <= j <= spans.len(),
    ensures
        protected_texts(c, s, segments_from(s, spans, j, cursor)) == region_texts(c, s, spans, j),
    decreases spans.len() - j,
{
    if j >= spans.len() {
        if cursor < s.len() {
            lemma_protected_texts_one(c, s, (cursor, s.len() as int, None));
        }
    } else {
        let (a, b, k) = spans[j];
        lemma_segments_protected(c, s, spans, j + 1, b);
        let gap: Seq<(int, int, Option<ProtectKind>)> = if a > cursor {
            seq![(cursor, a, None)]
        } else {
            seq![]
        };
        let region: Seq<(int, int, Option<ProtectKind>)> = seq![(a, b, Some(k))];
        let rest = segments_from(s, spans, j + 1, b);
        assert(segments_from(s, spans, j, cursor) == gap + region + rest);
        lemma_protected_texts_concat(c, s, gap + region, rest);
        lemma_protected_texts_concat(c, s, gap, region);
        lemma_protected_texts_one(c, s, (a, b, Some(k)));
        if a > cursor {
            lemma_protected_texts_one(c, s, (cursor, a, None));
        }
        assert(protected_texts(c, s, gap) =~= seq![]);
        assert(protected_texts(c, s, segments_from(s, spans, j, cursor)) =~= region_texts(
            c,
            s,
            spans,
            j,
        ));
    }
}

/// Protected regions come through unchanged: the protected segments of a
/// normalization result are exactly the regions that the scan finds in the
/// input, in order, each with its text as it stands in the input (a URL
/// wrapped in the `url_wrap` prefix and suffix when those are set) and its
/// kind. Normalization and trimming never touch them.
pub proof fn lemma_protected_regions_kept(
    c: Config,
    syn: Option<Seq<(Seq<char>, Seq<char>)>>,
    s: Seq<char>,
)
    requires
        segments_result(c, syn, s) is Some,
    ensures
        protected_of(segments_result(c, syn, s)->0) == region_texts(c, s, scan_spec(s, c.protect), 0),
{
    let ps = pieces_spec(c, s);
    lemma_raw_protected(c, syn, s, ps, ps.len() as int);
    assert(ps.take(ps.len() as int) =~= ps);
    let r = raw_upto(c, syn, s, ps, ps.len() as int)->0;
    if c.trim {
        lemma_trim_front_protected(r);
        lemma_trim_back_protected(trim_front(r));
    }
    if c.protect.any_spec() {
        lemma_segments_protected(c, s, scan_spec(s, c.protect), 0, 0);
    } else {
        lemma_protected_texts_one(c, s, (0, s.len() as int, None));
    }
}

// ---- trimmed output ----

proof fn lemma_trim_start_first(x: Seq<char>)
    ensures
        trim_start_spec(x).len() > 0 ==> !is_white_space(trim_start_spec(x)[0]),
    decreases x.len(),
{
    if x.len() > 0 && is_white_space(x[0]) {
        lemma_trim_start_first(x.drop_first());
    }
}

proof fn lemma_trim_end_last(x: Seq<char>)
    ensures
        trim_end_spec(x).len() > 0 ==> !is_white_space(trim_end_spec(x).last()),
        trim_end_spec(x).len() <= x.len(),
        forall|i: int| 0 <= i < trim_end_spec(x).len() ==> #[trigger] trim_end_spec(x)[i] == x[i],
    decreases x.len(),
{
    if x.len() > 0 && is_white_space(x.last()) {
        lemma_trim_end_last(x.drop_last());
    }
}

/// What trimming leaves at the front: a normalized first segment is not
/// empty and starts with something other than white space.
proof fn lemma_trim_front_head(segs: Seq<(Seq<char>, Option<ProtectKind>)>)
    ensures
        trim_front(segs).len() > 0 && trim_front(segs)[0].1 is None ==> trim_front(segs)[0].0.len()
            > 0 && !is_white_space(trim_front(segs)[0].0[0]),
    decreases segs.len(),
{
    if segs.len() > 0 && segs[0].1 is None {
        lemma_trim_start_first(segs[0].0);
        if trim_start_spec(segs[0].0).len() == 0 {
            lemma_trim_front_head(segs.drop_first());
        }
    }
}

/// What trimming the back leaves: a normalized last segment is not empty
/// and ends with something other than white space; the front stays as it
/// was or loses its end only.
proof fn lemma_trim_back_tail(segs: Seq<(Seq<char>, Option<ProtectKind>)>)
    ensures
        trim_back(segs).len() > 0 && trim_back(segs).last().1 is None ==> trim_back(segs).last().0.len()
            > 0 && !is_white_space(trim_back(segs).last().0.last()),
        trim_back(segs).len() <= segs.len(),
        trim_back(segs).len() > 0 ==> trim_back(segs)[0].1 == segs[0].1 && trim_back(segs)[0].0.len()
            <= segs[0].0.len() && (forall|i: int|
            0 <= i < trim_back(segs)[0].0.len() ==> #[trigger] trim_back(segs)[0].0[i]
                == segs[0].0[i]),
        trim_back(segs).len() > 1 ==> trim_back(segs)[0] == segs[0],
    decreases segs.len(),
{
    if segs.len() > 0 && segs.last().1 is None {
        lemma_trim_end_last(segs.last().0);
        if trim_end_spec(segs.last().0).len() == 0 {
            lemma_trim_back_tail(segs.drop_last());
        }
    }
}

/// The texts of the segments start with the first segment's text.
proof fn lemma_concat_front(segs: Seq<(Seq<char>, Option<ProtectKind>)>)
    requires
        segs.len() > 0,
    ensures
        concat_texts(segs) == segs[0].0 + concat_texts(segs.drop_first()),
    decreases segs.len(),
{
    if segs.len() > 1 {
        lemma_concat_front(segs.drop_last());
        assert(segs.drop_last().drop_first() =~= segs.drop_first().drop_last());
        assert(concat_texts(segs) =~= segs[0].0 + concat_texts(segs.drop_first()));
    } else {
        assert(segs.drop_first() =~= Seq::<(Seq<char>, Option<ProtectKind>)>::empty());
        assert(segs.drop_last() =~= Seq::<(Seq<char>, Option<ProtectKind>)>::empty());
        assert(concat_texts(segs) =~= segs[0].0 + concat_texts(segs.drop_first()));
    }
}

/// With trimming on, the output starts and ends with something other than
/// white space, except where it starts or ends with a protected region
/// (which trimming never touches).
pub proof fn lemma_trimmed_ends(
    c: Config,
    syn: Option<Seq<(Seq<char>, Seq<char>)>>,
    s: Seq<char>,
)
    requires
        c.trim,
        segments_result(c, syn, s) is Some,
    ensures
        ({
            let v = segments_result(c, syn, s)->0;
            let out = normalize_spec(c, syn, s)->0;
            &&& v.len() > 0 && v[0].1 is None ==> out.len() > 0 && !is_white_space(out[0])
            &&& v.len() > 0 && v.last().1 is None ==> out.len() > 0 && !is_white_space(out.last())
        }),
{
    let ps = pieces_spec(c, s);
    let r = raw_upto(c, syn, s, ps, ps.len() as int)->0;
    let f = trim_front(r);
    let v = trim_back(f);
    lemma_trim_front_head(r);
    lemma_trim_back_tail(f);
    if v.len() > 0 {
        assert(v == segments_result(c, syn, s)->0);
        if v[0].1 is None {
            lemma_concat_front(v);
            if v.len() == 1 {
                assert(v.last() == v[0]);
            }
            assert(v[0].0.len() > 0);
            assert(v[0].0[0] == f[0].0[0]);
        }
        if v.last().1 is None {
            assert(concat_texts(v) == concat_texts(v.drop_last()) + v.last().0);
        }
    }
}

/// Every normalized segment of `v` holds some text.
pub open spec fn free_nonempty(v: Seq<(Seq<char>, Option<ProtectKind>)>) -> bool {
    forall|x: int| 0 <= x < v.len() && (#[trigger] v[x]).1 is None ==> v[x].0.len() > 0
}

/// Every segment of `v` is a normalized one.
pub open spec fn all_free(v: Seq<(Seq<char>, Option<ProtectKind>)>) -> bool {
    forall|x: int| 0 <= x < v.len() ==> (#[trigger] v[x]).1 is None
}

proof fn lemma_raw_upto_shape(
    c: Config,
    syn: Option<Seq<(Seq<char>, Seq<char>)>>,
    s: Seq<char>,
    ps: Seq<(int, int, Option<ProtectKind>)>,
    n: int,
)
    ensures
        raw_upto(c, syn, s, ps, n) matches Some(v) ==> free_nonempty(v) && ((forall|x: int|
            0 <= x < ps.len() ==> (#[trigger] ps[x]).2 is None) ==> all_free(v)),
    decreases n,
{
    if n <= 0 || n > ps.len() {
    } else {
        lemma_raw_upto_shape(c, syn, s, ps, n - 1);
    }
}

proof fn lemma_trim_shape(v: Seq<(Seq<char>, Option<ProtectKind>)>)
    ensures
        free_nonempty(v) ==> free_nonempty(trim_front(v)) && free_nonempty(trim_back(v)),
        all_free(v) ==> all_free(trim_front(v)) && all_free(trim_back(v)),
    decreases v.len(),
{
    if v.len() > 0 {
        lemma_trim_shape(v.drop_first());
        lemma_trim_shape(v.drop_last());
        if free_nonempty(v) {
            assert(free_nonempty(v.drop_first()));
            assert(free_nonempty(v.drop_last()));
        }
        if all_free(v) {
            assert(all_free(v.drop_first()));
            assert(all_free(v.drop_last()));
        }
    }
}

/// No normalized segment of the output is empty, and with no kind of region
/// protected every segment is a normalized one.
pub proof fn lemma_segments_shape(
    c: Config,
    syn: Option<Seq<(Seq<char>, Seq<char>)>>,
    s: Seq<char>,
)
    ensures
        segments_result(c, syn, s) matches Some(v) ==> free_nonempty(v) && (!c.protect.any_spec()
            ==> all_free(v)),
{
    let ps = pieces_spec(c, s);
    lemma_raw_upto_shape(c, syn, s, ps, ps.len() as int);
    if !c.protect.any_spec() {
        assert forall|x: int| 0 <= x < ps.len() implies (#[trigger] ps[x]).2 is None by {}
    }
    match raw_upto(c, syn, s, ps, ps.len() as int) {
        Some(r) => {
            lemma_trim_shape(r);
            lemma_trim_shape(trim_front(r));
        },
        None => {},
    }
}

fn cleanup_steps(c: &Config, s: String) -> (out: String)
    ensures
        out@ == cleanup_stage(*c, s@),
{
    let mut s = s;
    if c.normalize_newlines {
        s = cleanup::normalize_newlines(s.as_str());
    }
    if c.remove_bidi_control {
        s = cleanup::remove_bidi_control(s.as_str());
    }
    if c.remove_zero_width {
        s = cleanup::remove_zero_width(s.as_str());
    }
    if c.remove_control {
        s = cleanup::remove_control(s.as_str());
    }
    s
}

fn form_steps(c: &Config, s: String) -> (out: String)
    ensures
        out@ == form_stage(*c, s@),
{
    let mut s = s;
    if c.expand_cjk_compat {
        s = cjk_compat::expand(s.as_str());
    }
    if c.nfkc {
        s = unicode::nfkc(s.as_str());
    }
    if c.halfwidth_kana_to_fullwidth {
        s = width::halfwidth_kana_to_fullwidth(s.as_str());
    }
    if !matches!(c.kana, KanaAction::Keep) {
        s = kana::process(s.as_str(), c.kana);
    }
    if c.unify_quotes {
        s = quotes::unify(s.as_str());
    }
    s
}

fn symbol_steps(c: &Config, s: String) -> (out: String)
    ensures
        out@ == symbol_stage(*c, s@),
{
    let mut s = s;
    if c.unify_hyphens || c.unify_tildes || c.unify_prolonged {
        s = symbols::unify(s.as_str(), c.unify_hyphens, c.unify_tildes, c.unify_prolonged);
    }
    if c.collapse_prolonged_run {
        s = prolonged::collapse(s.as_str());
    }
    if !matches!(c.emoji_action, EmojiAction::Keep) {
        s = emoji::process(s.as_str(), &c.emoji_action);
    }
    s
}

fn numeral_steps(c: &Config, s: String) -> (out: Option<String>)
    ensures
        out is None <==> numeral_stage(*c, s@) is None,
        out matches Some(o) ==> Some(o@) == numeral_stage(*c, s@),
{
    let mut s = s;
    if c.kansuji_to_arabic {
        s = numerals::kansuji_to_arabic(s.as_str());
    }
    if c.arabic_to_kansuji {
        numerals::arabic_to_kansuji_checked(s.as_str())
    } else {
        Some(s)
    }
}

fn final_steps(c: &Config, s: String) -> (out: String)
    ensures
        out@ == final_stage(*c, s@),
{
    let mut s = s;
    if c.canonicalize_numbers {
        s = numbers::canonicalize(s.as_str());
    }
    if c.remove_cjk_compat {
        s = strip::remove_cjk_compat(s.as_str());
    }
    if c.remove_symbols {
        s = strip::remove_symbols(s.as_str());
    }
    if let Some(limit) = c.repeat_limit {
        s = repeat::shorten(s.as_str(), limit);
    }
    if c.collapse_spaces {
        s = spaces::collapse(s.as_str());
    }
    s
}

proof fn lemma_seg_views_push(v: Seq<Segment>, g: Segment)
    ensures
        seg_views(v.push(g)) == seg_views(v).push(seg_view(g)),
{
    assert(seg_views(v.push(g)) =~= seg_views(v).push(seg_view(g)));
}

/// The pieces of the text `chars` (see [`pieces_spec`]).
fn pieces_of(c: &Config, chars: &Vec<char>) -> (r: Vec<(usize, usize, Option<ProtectKind>)>)
    ensures
        r@.len() == pieces_spec(*c, chars@).len(),
        forall|y: int|
            0 <= y < r@.len() ==> {
                let (a, b, k) = #[trigger] r@[y];
                pieces_spec(*c, chars@)[y] == (a as int, b as int, k)
            },
        forall|y: int| 0 <= y < r@.len() ==> #[trigger] r@[y].0 <= r@[y].1 <= chars@.len(),
{
    if c.protect.any() {
        let found = scan_chars(chars, c.protect);
        let ghost sp = found@.map_values(
            |t: (usize, usize, ProtectKind)| (t.0 as int, t.1 as int, t.2),
        );
        proof {
            assert(sp =~= scan_spec(chars@, c.protect));
            lemma_segments_len_free(chars@, Seq::new(chars@.len(), |i: int| ' '), sp, 0, 0);
        }
        segment_ranges(chars.len(), &found)
    } else {
        let mut r: Vec<(usize, usize, Option<ProtectKind>)> = Vec::new();
        r.push((0, chars.len(), None));
        r
    }
}

/// The text of a protected region in the output (see [`wrap_spec`]).
fn wrap_text(c: &Config, kind: ProtectKind, t: &str) -> (out: String)
    ensures
        out@ == wrap_spec(*c, kind, t@),
{
    match kind {
        ProtectKind::Url => match &c.url_wrap {
            Some((p, q)) => {
                let mut v: Vec<char> = Vec::new();
                push_str(&mut v, p.as_str());
                push_str(&mut v, t);
                push_str(&mut v, q.as_str());
                string_of(&v)
            },
            None => t.to_owned(),
        },
        _ => t.to_owned(),
    }
}

/// Trims the output: leading white space of the first normalized
/// segments, trailing white space of the last ones (see [`trim_front`],
/// [`trim_back`]); protected regions are never touched.
fn trim_segments(segments: &mut Vec<Segment>)
    ensures
        seg_views(final(segments)@) == trim_back(trim_front(seg_views(old(segments)@))),
{
    let ghost v0 = seg_views(segments@);
    loop
        invariant_except_break
            trim_front(seg_views(segments@)) == trim_front(v0),
        ensures
            seg_views(segments@) == trim_front(v0),
        decreases segments@.len(),
    {
        if segments.len() == 0 {
            break;
        }
        let first: Option<String> = match &segments[0] {
            Segment::Normalized(t) => Some(trim_start_str(t.as_str()).to_owned()),
            Segment::Protected { .. } => None,
        };
        match first {
            None => {
                break;
            },
            Some(tr) => {
                let ghost before = segments@;
                if tr.as_str().is_empty() {
                    segments.remove(0);
                    proof {
                        assert(seg_views(segments@) =~= seg_views(before).drop_first());
                    }
                } else {
                    let ghost t = tr@;
                    segments.set(0, Segment::Normalized(tr));
                    proof {
                        assert(seg_views(segments@) =~= seg_views(before).update(0, (t, None)));
                    }
                    break;
                }
            },
        }
    }
    let ghost v1 = seg_views(segments@);
    loop
        invariant_except_break
            trim_back(seg_views(segments@)) == trim_back(v1),
        ensures
            seg_views(segments@) == trim_back(v1),
        decreases segments@.len(),
    {
        if segments.len() == 0 {
            break;
        }
        let n = segments.len();
        let last: Option<String> = match &segments[n - 1] {
            Segment::Normalized(t) => Some(trim_end_str(t.as_str()).to_owned()),
            Segment::Protected { .. } => None,
        };
        match last {
            None => {
                break;
            },
            Some(tr) => {
                let ghost before = segments@;
                if tr.as_str().is_empty() {
                    segments.pop();
                    proof {
                        assert(seg_views(segments@) =~= seg_views(before).drop_last());
                    }
                } else {
                    let ghost t = tr@;
                    segments.set(n - 1, Segment::Normalized(tr));
                    proof {
                        assert(seg_views(segments@) =~= seg_views(before).update(n - 1, (t, None)));
                    }
                    break;
                }
            },
        }
    }
}

/// The texts of the segments, one after the other.
fn concat_segments(segments: &Vec<Segment>) -> (out: String)
    ensures
        out@ == concat_texts(seg_views(segments@)),
{
    let mut v: Vec<char> = Vec::new();
    let mut i: usize = 0;
    while i < segments.len()
        invariant
            i <= segments@.len(),
            v@ == concat_texts(seg_views(segments@.take(i as int))),
        decreases segments@.len() - i,
    {
        proof {
            assert(seg_views(segments@.take(i + 1)).drop_last() =~= seg_views(
                segments@.take(i as int),
            ));
        }
        match &segments[i] {
            Segment::Normalized(t) => push_str(&mut v, t.as_str()),
            Segment::Protected { text, .. } => push_str(&mut v, text.as_str()),
        }
        i = i + 1;
    }
    proof {
        assert(segments@.take(segments@.len() as int) =~= segments@);
    }
    string_of(&v)
}

/// A declared normalizer: a configuration and, optionally, a synonym
/// dictionary.
#[derive(Debug, Clone)]
pub struct Normalizer {
    config: Config,
    synonyms: Option<SynonymDict>,
}

impl Normalizer {
    /// The configuration.
    pub closed spec fn config_spec(&self) -> Config {
        self.config
    }

    /// The entries of the synonym dictionary, if one is set.
    pub closed spec fn synonyms_spec(&self) -> Option<Seq<(Seq<char>, Seq<char>)>> {
        dict_view(self.synonyms)
    }

    /// A normalizer with a preset's configuration.
    pub fn preset(preset: Preset) -> (n: Self)
        ensures
            n.config_spec() == preset_spec(preset),
            n.synonyms_spec() is None,
    {
        Normalizer { config: Config::from_preset(preset), synonyms: None }
    }

    /// A normalizer with the given configuration.
    pub fn from_config(config: Config) -> (n: Self)
        ensures
            n.config_spec() == config,
            n.synonyms_spec() is None,
    {
        Normalizer { config, synonyms: None }
    }

    /// The same normalizer with the synonym dictionary `dict`.
    pub fn with_synonyms(self, dict: SynonymDict) -> (n: Self)
        ensures
            n.config_spec() == self.config_spec(),
            n.synonyms_spec() == Some(dict.entries_view()),
    {
        Normalizer { config: self.config, synonyms: Some(dict) }
    }

    /// Starts a builder.
    pub fn builder() -> (b: NormalizerBuilder)
        ensures
            b.config_spec() == none_spec(),
            b.synonyms_spec() is None,
    {
        NormalizerBuilder::new()
    }

    /// The configuration.
    pub fn config(&self) -> (r: &Config)
        ensures
            *r == self.config_spec(),
    {
        &self.config
    }

    /// The synonym dictionary, if one is set.
    pub fn synonyms(&self) -> (r: Option<&SynonymDict>)
        ensures
            dict_view(
                match r {
                    Some(d) => Some(*d),
                    None => None,
                },
            ) == self.synonyms_spec(),
    {
        match &self.synonyms {
            Some(d) => Some(d),
            None => None,
        }
    }

    /// Normalizes text outside protected regions.
    fn apply_to_free(&self, input: &str) -> (r: Option<String>)
        ensures
            r is None <==> free_spec(self.config, dict_view(self.synonyms), input@) is None,
            r matches Some(o) ==> Some(o@) == free_spec(
                self.config,
                dict_view(self.synonyms),
                input@,
            ),
    {
        let c = &self.config;
        let s = cleanup_steps(c, input.to_owned());
        let s = form_steps(c, s);
        let s = symbol_steps(c, s);
        let s = match numeral_steps(c, s) {
            Some(t) => t,
            None => {
                return None;
            },
        };
        let s = final_steps(c, s);
        match &self.synonyms {
            Some(dict) => Some(dict.apply(s.as_str())),
            None => Some(s),
        }
    }

    /// Normalizes `input` and tells its segments; `None` where a number
    /// has no kanji form.
    fn segments_checked(&self, input: &str) -> (r: Option<NormalizedText>)
        ensures
            r is None <==> segments_result(self.config, dict_view(self.synonyms), input@) is None,
            r matches Some(nt) ==> Some(seg_views(nt.segments@)) == segments_result(
                self.config,
                dict_view(self.synonyms),
                input@,
            ) && nt.text@ == concat_texts(seg_views(nt.segments@)),
    {
        let ghost syn = dict_view(self.synonyms);
        let ghost s = input@;
        let chars = chars_of(input);
        let pieces = pieces_of(&self.config, &chars);
        let ghost ps = pieces_spec(self.config, s);
        let mut segments: Vec<Segment> = Vec::new();
        let mut x: usize = 0;
        while x < pieces.len()
            invariant
                x <= pieces@.len(),
                s == input@,
                chars@ == s,
                ps == pieces_spec(self.config, s),
                syn == dict_view(self.synonyms),
                pieces@.len() == ps.len(),
                forall|y: int|
                    0 <= y < pieces@.len() ==> {
                        let (a, b, k) = #[trigger] pieces@[y];
                        ps[y] == (a as int, b as int, k)
                    },
                forall|y: int| 0 <= y < pieces@.len() ==> #[trigger] pieces@[y].0 <= pieces@[y].1
                    <= s.len(),
                raw_upto(self.config, syn, s, ps, x as int) == Some(seg_views(segments@)),
            decreases pieces@.len() - x,
        {
            let (a, b, k) = pieces[x];
            let piece = input.substring_char(a, b);
            let ghost before = segments@;
            match k {
                None => match self.apply_to_free(piece) {
                    None => {
                        proof {
                            lemma_raw_none(self.config, syn, s, ps, x + 1, ps.len() as int);
                        }
                        return None;
                    },
                    Some(t) => {
                        if !t.as_str().is_empty() {
                            let g = Segment::Normalized(t);
                            proof {
                                lemma_seg_views_push(before, g);
                            }
                            segments.push(g);
                        }
                    },
                },
                Some(kind) => {
                    let text = wrap_text(&self.config, kind, piece);
                    let g = Segment::Protected { text, kind };
                    proof {
                        lemma_seg_views_push(before, g);
                    }
                    segments.push(g);
                },
            }
            x = x + 1;
        }
        if self.config.trim {
            trim_segments(&mut segments);
        }
        let text = concat_segments(&segments);
        Some(NormalizedText { text, segments })
    }

    /// Normalizes `input` and tells which parts of the output were
    /// normalized and which are protected regions passed through.
    ///
    /// With protection on (`config.protect`), URLs / e-mail addresses /
    /// mentions / hashtags are found and left as they are (URLs wrapped if
    /// `url_wrap` is set); the rest is normalized. The input must not hold
    /// a number that [`numerals::arabic_to_kansuji`] cannot write when that
    /// step is on (see [`try_normalize_with_segments`](Self::try_normalize_with_segments)).
    /// No normalized segment is empty, and with no kind of region protected
    /// every segment is a normalized one.
    pub fn normalize_with_segments(&self, input: &str) -> (r: NormalizedText)
        requires
            normalize_spec(self.config_spec(), self.synonyms_spec(), input@) is Some,
        ensures
            Some(seg_views(r.segments@)) == segments_result(
                self.config_spec(),
                self.synonyms_spec(),
                input@,
            ),
            r.text@ == concat_texts(seg_views(r.segments@)),
            free_nonempty(seg_views(r.segments@)),
            !self.config_spec().protect.any_spec() ==> all_free(seg_views(r.segments@)),
    {
        proof {
            lemma_segments_shape(self.config_spec(), self.synonyms_spec(), input@);
        }
        match self.segments_checked(input) {
            Some(r) => r,
            None => {
                assert(false);
                NormalizedText { text: String::new(), segments: Vec::new() }
            },
        }
    }

    /// [`normalize_with_segments`](Self::normalize_with_segments) on every
    /// input: `None` where it does not accept the input.
    pub fn try_normalize_with_segments(&self, input: &str) -> (r: Option<NormalizedText>)
        ensures
            r is None <==> segments_result(self.config_spec(), self.synonyms_spec(), input@) is None,
            r matches Some(nt) ==> Some(seg_views(nt.segments@)) == segments_result(
                self.config_spec(),
                self.synonyms_spec(),
                input@,
            ) && nt.text@ == concat_texts(seg_views(nt.segments@)),
            r matches Some(nt) ==> free_nonempty(seg_views(nt.segments@)) && (
            !self.config_spec().protect.any_spec() ==> all_free(seg_views(nt.segments@))),
    {
        proof {
            lemma_segments_shape(self.config_spec(), self.synonyms_spec(), input@);
        }
        self.segments_checked(input)
    }

    /// Normalizes `input` (see [`normalize_spec`]).
    pub fn normalize(&self, input: &str) -> (out: String)
        requires
            normalize_spec(self.config_spec(), self.synonyms_spec(), input@) is Some,
        ensures
            Some(out@) == normalize_spec(self.config_spec(), self.synonyms_spec(), input@),
    {
        self.normalize_with_segments(input).text
    }

    /// [`normalize`](Self::normalize) on every input: `None` where it does
    /// not accept the input.
    pub fn try_normalize(&self, input: &str) -> (r: Option<String>)
        ensures
            r is None <==> normalize_spec(self.config_spec(), self.synonyms_spec(), input@) is None,
            r matches Some(out) ==> Some(out@) == normalize_spec(
                self.config_spec(),
                self.synonyms_spec(),
                input@,
            ),
    {
        match self.segments_checked(input) {
            Some(r) => Some(r.text),
            None => None,
        }
    }

    /// Normalizes several texts.
    pub fn normalize_batch(&self, inputs: &[&str]) -> (out: Vec<String>)
        requires
            forall|i: int|
                0 <= i < inputs@.len() ==> normalize_spec(
                    self.config_spec(),
                    self.synonyms_spec(),
                    (#[trigger] inputs@[i])@,
                ) is Some,
        ensures
            out@.len() == inputs@.len(),
            forall|i: int|
                0 <= i < inputs@.len() ==> Some((#[trigger] out@[i])@) == normalize_spec(
                    self.config_spec(),
                    self.synonyms_spec(),
                    inputs@[i]@,
                ),
    {
        let mut out: Vec<String> = Vec::new();
        let mut i: usize = 0;
        while i < inputs.len()
            invariant
                i <= inputs@.len(),
                out@.len() == i,
                forall|j: int|
                    0 <= j < inputs@.len() ==> normalize_spec(
                        self.config_spec(),
                        self.synonyms_spec(),
                        (#[trigger] inputs@[j])@,
                    ) is Some,
                forall|j: int|
                    0 <= j < i ==> Some((#[trigger] out@[j])@) == normalize_spec(
                        self.config_spec(),
                        self.synonyms_spec(),
                        inputs@[j]@,
                    ),
            decreases inputs@.len() - i,
        {
            let o = self.normalize(inputs[i]);
            out.push(o);
            i = i + 1;
        }
        out
    }
}

/// A builder of [`Normalizer`]s.
///
/// [`new`](Self::new) starts from a configuration that changes nothing. To
/// start from a preset, call [`preset`](Self::preset) first and add or
/// remove steps from there; steps of a preset are switched off with
/// [`config_mut`](Self::config_mut).
#[derive(Debug, Clone)]
pub struct NormalizerBuilder {
    config: Config,
    synonyms: Option<SynonymDict>,
}

impl NormalizerBuilder {
    /// The configuration so far.
    pub closed spec fn config_spec(&self) -> Config {
        self.config
    }

    /// The entries of the synonym dictionary so far, if one is set.
    pub closed spec fn synonyms_spec(&self) -> Option<Seq<(Seq<char>, Seq<char>)>> {
        dict_view(self.synonyms)
    }

    /// A builder that changes nothing.
    pub fn new() -> (b: Self)
        ensures
            b.config_spec() == none_spec(),
            b.synonyms_spec() is None,
    {
        NormalizerBuilder { config: Config::none(), synonyms: None }
    }

    /// A builder starting from the configuration `config`.
    pub fn from_config(config: Config) -> (b: Self)
        ensures
            b.config_spec() == config,
            b.synonyms_spec() is None,
    {
        NormalizerBuilder { config, synonyms: None }
    }

    /// Takes a preset's configuration (what was set before is replaced).
    pub fn preset(self, preset: Preset) -> (b: Self)
        ensures
            b.config_spec() == preset_spec(preset),
            b.synonyms_spec() == self.synonyms_spec(),
    {
        let mut b = self;
        b.config = Config::from_preset(preset);
        b
    }

    /// Edits the configuration with `f`, which takes it and gives back the
    /// new one (to switch off steps of a preset, say).
    pub fn configure<F: FnOnce(Config) -> Config>(self, f: F) -> (b: Self)
        requires
            f.requires((self.config_spec(),)),
        ensures
            f.ensures((self.config_spec(),), b.config_spec()),
            b.synonyms_spec() == self.synonyms_spec(),
    {
        let NormalizerBuilder { config, synonyms } = self;
        NormalizerBuilder { config: f(config), synonyms }
    }

    /// The configuration so far, to change in place.
    pub fn config_mut(&mut self) -> (r: &mut Config)
        ensures
            *r == old(self).config_spec(),
            final(self).config_spec() == *final(r),
            final(self).synonyms_spec() == old(self).synonyms_spec(),
    {
        &mut self.config
    }

    /// Sets the synonym dictionary.
    pub fn synonyms(self, dict: SynonymDict) -> (b: Self)
        ensures
            b.config_spec() == self.config_spec(),
            b.synonyms_spec() == Some(dict.entries_view()),
    {
        let mut b = self;
        b.synonyms = Some(dict);
        b
    }

    /// Repetitions of a character are shortened to at most `limit`.
    pub fn repeat(self, limit: usize) -> (b: Self)
        ensures
            b.config_spec() == (Config { repeat_limit: Some(limit), ..self.config_spec() }),
            b.synonyms_spec() == self.synonyms_spec(),
    {
        NormalizerBuilder { config: Config { repeat_limit: Some(limit), ..self.config }, synonyms: self.synonyms }
    }

    /// Sets which regions are protected.
    pub fn protect(self, protect: ProtectConfig) -> (b: Self)
        ensures
            b.config_spec() == (Config { protect: protect, ..self.config_spec() }),
            b.synonyms_spec() == self.synonyms_spec(),
    {
        NormalizerBuilder { config: Config { protect: protect, ..self.config }, synonyms: self.synonyms }
    }

    /// URLs are wrapped in `<` and `>` (and protected).
    ///
    /// The delimiters of RFC 3986 Appendix C; Markdown and Slack make links
    /// of them.
    pub fn wrap_urls_angle(self) -> (b: Self)
        ensures
            b.config_spec().protect == (ProtectConfig { urls: true, ..self.config_spec().protect }),
            b.config_spec().url_wrap matches Some((p, q)) && p@ == seq!['<'] && q@ == seq!['>'],
            b.config_spec() == (Config {
                protect: b.config_spec().protect,
                url_wrap: b.config_spec().url_wrap,
                ..self.config_spec()
            }),
            b.synonyms_spec() == self.synonyms_spec(),
    {
        proof {
            reveal_strlit("<");
            reveal_strlit(">");
        }
        self.wrap_urls("<", ">")
    }

    /// URLs are wrapped in `prefix` and `suffix` (and protected).
    pub fn wrap_urls(self, prefix: &str, suffix: &str) -> (b: Self)
        ensures
            b.config_spec().protect == (ProtectConfig { urls: true, ..self.config_spec().protect }),
            b.config_spec().url_wrap matches Some((p, q)) && p@ == prefix@ && q@ == suffix@,
            b.config_spec() == (Config {
                protect: b.config_spec().protect,
                url_wrap: b.config_spec().url_wrap,
                ..self.config_spec()
            }),
            b.synonyms_spec() == self.synonyms_spec(),
    {
        NormalizerBuilder { config: Config { url_wrap: Some((prefix.to_owned(), suffix.to_owned())), protect: ProtectConfig { urls: true, ..self.config.protect }, ..self.config }, synonyms: self.synonyms }
    }

    /// Emoji are replaced by `placeholder`.
    pub fn replace_emoji(self, placeholder: &str) -> (b: Self)
        ensures
            b.config_spec().emoji_action matches EmojiAction::Replace(p) && p@ == placeholder@,
            b.config_spec() == (Config {
                emoji_action: b.config_spec().emoji_action,
                ..self.config_spec()
            }),
            b.synonyms_spec() == self.synonyms_spec(),
    {
        NormalizerBuilder { config: Config { emoji_action: EmojiAction::replace(placeholder), ..self.config }, synonyms: self.synonyms }
    }

    /// The normalizer.
    pub fn build(self) -> (n: Normalizer)
        ensures
            n.config_spec() == self.config_spec(),
            n.synonyms_spec() == self.synonyms_spec(),
    {
        Normalizer { config: self.config, synonyms: self.synonyms }
    }

    /// Line breaks become LF.
    pub fn normalize_newlines(self) -> (b: Self)
        ensures
            b.config_spec() == (Config { normalize_newlines: true, ..self.config_spec() }),
            b.synonyms_spec() == self.synonyms_spec(),
    {
        NormalizerBuilder { config: Config { normalize_newlines: true, ..self.config }, synonyms: self.synonyms }
    }

    /// Zero-width characters and the BOM are removed.
    pub fn remove_zero_width(self) -> (b: Self)
        ensures
            b.config_spec() == (Config { remove_zero_width: true, ..self.config_spec() }),
            b.synonyms_spec() == self.synonyms_spec(),
    {
        NormalizerBuilder { config: Config { remove_zero_width: true, ..self.config }, synonyms: self.synonyms }
    }

    /// Control characters (C0 / C1) are removed.
    pub fn remove_control(self) -> (b: Self)
        ensures
            b.config_spec() == (Config { remove_control: true, ..self.config_spec() }),
            b.synonyms_spec() == self.synonyms_spec(),
    {
        NormalizerBuilder { config: Config { remove_control: true, ..self.config }, synonyms: self.synonyms }
    }

    /// Bidi control characters are removed (against Trojan Source text).
    pub fn remove_bidi_control(self) -> (b: Self)
        ensures
            b.config_spec() == (Config { remove_bidi_control: true, ..self.config_spec() }),
            b.synonyms_spec() == self.synonyms_spec(),
    {
        NormalizerBuilder { config: Config { remove_bidi_control: true, ..self.config }, synonyms: self.synonyms }
    }

    /// All the clean-up of invisible and control characters at once.
    pub fn sanitize_invisible(self) -> (b: Self)
        ensures
            b.config_spec() == (Config { normalize_newlines: true, remove_zero_width: true, remove_control: true, remove_bidi_control: true, ..self.config_spec() }),
            b.synonyms_spec() == self.synonyms_spec(),
    {
        NormalizerBuilder { config: Config { normalize_newlines: true, remove_zero_width: true, remove_control: true, remove_bidi_control: true, ..self.config }, synonyms: self.synonyms }
    }

    /// Kanji numerals become Arabic digits (and not the other way).
    pub fn kansuji_to_arabic(self) -> (b: Self)
        ensures
            b.config_spec() == (Config { kansuji_to_arabic: true, arabic_to_kansuji: false, ..self.config_spec() }),
            b.synonyms_spec() == self.synonyms_spec(),
    {
        NormalizerBuilder { config: Config { kansuji_to_arabic: true, arabic_to_kansuji: false, ..self.config }, synonyms: self.synonyms }
    }

    /// Arabic digits become kanji numerals (and not the other way).
    pub fn arabic_to_kansuji(self) -> (b: Self)
        ensures
            b.config_spec() == (Config { arabic_to_kansuji: true, kansuji_to_arabic: false, ..self.config_spec() }),
            b.synonyms_spec() == self.synonyms_spec(),
    {
        NormalizerBuilder { config: Config { arabic_to_kansuji: true, kansuji_to_arabic: false, ..self.config }, synonyms: self.synonyms }
    }

    /// NFKC is applied.
    pub fn nfkc(self) -> (b: Self)
        ensures
            b.config_spec() == (Config { nfkc: true, ..self.config_spec() }),
            b.synonyms_spec() == self.synonyms_spec(),
    {
        NormalizerBuilder { config: Config { nfkc: true, ..self.config }, synonyms: self.synonyms }
    }

    /// Half-width katakana become full-width.
    pub fn halfwidth_kana_to_fullwidth(self) -> (b: Self)
        ensures
            b.config_spec() == (Config { halfwidth_kana_to_fullwidth: true, ..self.config_spec() }),
            b.synonyms_spec() == self.synonyms_spec(),
    {
        NormalizerBuilder { config: Config { halfwidth_kana_to_fullwidth: true, ..self.config }, synonyms: self.synonyms }
    }

    /// Hiragana become katakana.
    pub fn hira_to_kata(self) -> (b: Self)
        ensures
            b.config_spec() == (Config { kana: KanaAction::HiraToKata, ..self.config_spec() }),
            b.synonyms_spec() == self.synonyms_spec(),
    {
        NormalizerBuilder { config: Config { kana: KanaAction::HiraToKata, ..self.config }, synonyms: self.synonyms }
    }

    /// Katakana become hiragana.
    pub fn kata_to_hira(self) -> (b: Self)
        ensures
            b.config_spec() == (Config { kana: KanaAction::KataToHira, ..self.config_spec() }),
            b.synonyms_spec() == self.synonyms_spec(),
    {
        NormalizerBuilder { config: Config { kana: KanaAction::KataToHira, ..self.config }, synonyms: self.synonyms }
    }

    /// Number tokens are put in canonical form (1,200 / 1200.00 → 1200).
    pub fn canonicalize_numbers(self) -> (b: Self)
        ensures
            b.config_spec() == (Config { canonicalize_numbers: true, ..self.config_spec() }),
            b.synonyms_spec() == self.synonyms_spec(),
    {
        NormalizerBuilder { config: Config { canonicalize_numbers: true, ..self.config }, synonyms: self.synonyms }
    }

    /// Runs of long-vowel marks and tildes fold into one.
    pub fn collapse_prolonged_run(self) -> (b: Self)
        ensures
            b.config_spec() == (Config { collapse_prolonged_run: true, ..self.config_spec() }),
            b.synonyms_spec() == self.synonyms_spec(),
    {
        NormalizerBuilder { config: Config { collapse_prolonged_run: true, ..self.config }, synonyms: self.synonyms }
    }

    /// Hyphens are unified.
    pub fn unify_hyphens(self) -> (b: Self)
        ensures
            b.config_spec() == (Config { unify_hyphens: true, ..self.config_spec() }),
            b.synonyms_spec() == self.synonyms_spec(),
    {
        NormalizerBuilder { config: Config { unify_hyphens: true, ..self.config }, synonyms: self.synonyms }
    }

    /// Tildes are unified.
    pub fn unify_tildes(self) -> (b: Self)
        ensures
            b.config_spec() == (Config { unify_tildes: true, ..self.config_spec() }),
            b.synonyms_spec() == self.synonyms_spec(),
    {
        NormalizerBuilder { config: Config { unify_tildes: true, ..self.config }, synonyms: self.synonyms }
    }

    /// Long-vowel marks are unified.
    pub fn unify_prolonged(self) -> (b: Self)
        ensures
            b.config_spec() == (Config { unify_prolonged: true, ..self.config_spec() }),
            b.synonyms_spec() == self.synonyms_spec(),
    {
        NormalizerBuilder { config: Config { unify_prolonged: true, ..self.config }, synonyms: self.synonyms }
    }

    /// Runs of spaces fold into one.
    pub fn collapse_spaces(self) -> (b: Self)
        ensures
            b.config_spec() == (Config { collapse_spaces: true, ..self.config_spec() }),
            b.synonyms_spec() == self.synonyms_spec(),
    {
        NormalizerBuilder { config: Config { collapse_spaces: true, ..self.config }, synonyms: self.synonyms }
    }

    /// Leading and trailing white space is removed.
    pub fn trim(self) -> (b: Self)
        ensures
            b.config_spec() == (Config { trim: true, ..self.config_spec() }),
            b.synonyms_spec() == self.synonyms_spec(),
    {
        NormalizerBuilder { config: Config { trim: true, ..self.config }, synonyms: self.synonyms }
    }

    /// Compatibility characters are expanded.
    pub fn expand_cjk_compat(self) -> (b: Self)
        ensures
            b.config_spec() == (Config { expand_cjk_compat: true, ..self.config_spec() }),
            b.synonyms_spec() == self.synonyms_spec(),
    {
        NormalizerBuilder { config: Config { expand_cjk_compat: true, ..self.config }, synonyms: self.synonyms }
    }

    /// Quotes are unified.
    pub fn unify_quotes(self) -> (b: Self)
        ensures
            b.config_spec() == (Config { unify_quotes: true, ..self.config_spec() }),
            b.synonyms_spec() == self.synonyms_spec(),
    {
        NormalizerBuilder { config: Config { unify_quotes: true, ..self.config }, synonyms: self.synonyms }
    }

    /// URLs, e-mail addresses, mentions and hashtags are protected.
    pub fn protect_all(self) -> (b: Self)
        ensures
            b.config_spec() == (Config { protect: ProtectConfig { urls: true, emails: true, mentions: true, hashtags: true }, ..self.config_spec() }),
            b.synonyms_spec() == self.synonyms_spec(),
    {
        NormalizerBuilder { config: Config { protect: ProtectConfig::all(), ..self.config }, synonyms: self.synonyms }
    }

    /// Emoji are removed.
    pub fn remove_emoji(self) -> (b: Self)
        ensures
            b.config_spec() == (Config { emoji_action: EmojiAction::Remove, ..self.config_spec() }),
            b.synonyms_spec() == self.synonyms_spec(),
    {
        NormalizerBuilder { config: Config { emoji_action: EmojiAction::Remove, ..self.config }, synonyms: self.synonyms }
    }

    /// Symbols (punctuation and the like) are removed.
    pub fn remove_symbols(self) -> (b: Self)
        ensures
            b.config_spec() == (Config { remove_symbols: true, ..self.config_spec() }),
            b.synonyms_spec() == self.synonyms_spec(),
    {
        NormalizerBuilder { config: Config { remove_symbols: true, ..self.config }, synonyms: self.synonyms }
    }

    /// Compatibility characters are removed (not expanded).
    pub fn remove_cjk_compat(self) -> (b: Self)
        ensures
            b.config_spec() == (Config { remove_cjk_compat: true, ..self.config_spec() }),
            b.synonyms_spec() == self.synonyms_spec(),
    {
        NormalizerBuilder { config: Config { remove_cjk_compat: true, ..self.config }, synonyms: self.synonyms }
    }

    /// Emoji are kept (undoes a preset's removal).
    pub fn keep_emoji(self) -> (b: Self)
        ensures
            b.config_spec() == (Config { emoji_action: EmojiAction::Keep, ..self.config_spec() }),
            b.synonyms_spec() == self.synonyms_spec(),
    {
        NormalizerBuilder { config: Config { emoji_action: EmojiAction::Keep, ..self.config }, synonyms: self.synonyms }
    }

    /// URLs are protected.
    pub fn protect_urls(self) -> (b: Self)
        ensures
            b.config_spec() == (Config {
                protect: ProtectConfig { urls: true, ..self.config_spec().protect },
                ..self.config_spec()
            }),
            b.synonyms_spec() == self.synonyms_spec(),
    {
        NormalizerBuilder { config: Config { protect: ProtectConfig { urls: true, ..self.config.protect }, ..self.config }, synonyms: self.synonyms }
    }

    /// E-mail addresses are protected.
    pub fn protect_emails(self) -> (b: Self)
        ensures
            b.config_spec() == (Config {
                protect: ProtectConfig { emails: true, ..self.config_spec().protect },
                ..self.config_spec()
            }),
            b.synonyms_spec() == self.synonyms_spec(),
    {
        NormalizerBuilder { config: Config { protect: ProtectConfig { emails: true, ..self.config.protect }, ..self.config }, synonyms: self.synonyms }
    }

    /// `@mention`s are protected.
    pub fn protect_mentions(self) -> (b: Self)
        ensures
            b.config_spec() == (Config {
                protect: ProtectConfig { mentions: true, ..self.config_spec().protect },
                ..self.config_spec()
            }),
            b.synonyms_spec() == self.synonyms_spec(),
    {
        NormalizerBuilder { config: Config { protect: ProtectConfig { mentions: true, ..self.config.protect }, ..self.config }, synonyms: self.synonyms }
    }

    /// `#hashtag`s are protected.
    pub fn protect_hashtags(self) -> (b: Self)
        ensures
            b.config_spec() == (Config {
                protect: ProtectConfig { hashtags: true, ..self.config_spec().protect },
                ..self.config_spec()
            }),
            b.synonyms_spec() == self.synonyms_spec(),
    {
        NormalizerBuilder { config: Config { protect: ProtectConfig { hashtags: true, ..self.config.protect }, ..self.config }, synonyms: self.synonyms }
    }
}

impl Default for NormalizerBuilder {
    fn default() -> (b: Self)
        ensures
            b.config_spec() == none_spec(),
            b.synonyms_spec() is None,
    {
        NormalizerBuilder::new()
    }
}

impl Default for Normalizer {
    fn default() -> (n: Self)
        ensures
            n.config_spec() == neologdn_compat_spec(),
            n.synonyms_spec() is None,
    {
        Normalizer::preset(Preset::NeologdnCompat)
    }
}

} // verus!
