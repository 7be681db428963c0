//! Settings addressed by name: [`Config::set`], [`Config::get`],
//! [`Config::entries`].
use vstd::prelude::*;
use crate::config::{Config, ConfigValue, ConfigError, ValueView, SetErrorView, value_view};
use crate::text::{str_eq, debug_str, debug_quoted, push_str, string_of};
use crate::l1_char::case::CaseAction;
use crate::l1_char::spacing::CjkSpacing;
use crate::l2_script::kana::KanaAction;
use crate::l4_extra::emoji::EmojiAction;
use crate::l4_extra::protect::ProtectConfig;

verus! {

/// The number of setting names.
pub open spec fn key_count() -> int {
    37
}

/// The name of setting `i` (in the order of [`Config::KEYS`]).
#[verifier::opaque]
pub open spec fn key_name(i: int) -> Seq<char> {
    if i == 0 {
        "normalize_newlines"@
    } else if i == 1 {
        "remove_zero_width"@
    } else if i == 2 {
        "remove_control"@
    } else if i == 3 {
        "remove_bidi_control"@
    } else if i == 4 {
        "kansuji_to_arabic"@
    } else if i == 5 {
        "arabic_to_kansuji"@
    } else if i == 6 {
        "canonicalize_numbers"@
    } else if i == 7 {
        "nfkc"@
    } else if i == 8 {
        "halfwidth_kana_to_fullwidth"@
    } else if i == 9 {
        "kana"@
    } else if i == 10 {
        "kyujitai_to_shinjitai"@
    } else if i == 11 {
        "unify_itaiji"@
    } else if i == 12 {
        "remove_variation_selectors"@
    } else if i == 13 {
        "expand_iteration_marks"@
    } else if i == 14 {
        "unify_loanword_kana"@
    } else if i == 15 {
        "strip_trailing_prolonged"@
    } else if i == 16 {
        "case"@
    } else if i == 17 {
        "cjk_spacing"@
    } else if i == 18 {
        "era_to_western"@
    } else if i == 19 {
        "unify_hyphens"@
    } else if i == 20 {
        "unify_tildes"@
    } else if i == 21 {
        "unify_prolonged"@
    } else if i == 22 {
        "collapse_prolonged_run"@
    } else if i == 23 {
        "repeat_limit"@
    } else if i == 24 {
        "collapse_spaces"@
    } else if i == 25 {
        "trim"@
    } else if i == 26 {
        "expand_cjk_compat"@
    } else if i == 27 {
        "remove_symbols"@
    } else if i == 28 {
        "remove_cjk_compat"@
    } else if i == 29 {
        "unify_quotes"@
    } else if i == 30 {
        "protect_urls"@
    } else if i == 31 {
        "protect_emails"@
    } else if i == 32 {
        "protect_mentions"@
    } else if i == 33 {
        "protect_hashtags"@
    } else if i == 34 {
        "emoji"@
    } else if i == 35 {
        "emoji_placeholder"@
    } else {
        "url_wrap"@
    }
}

pub fn key_str(i: usize) -> (r: &'static str)
    requires
        i < 37,
    ensures
        r@ == key_name(i as int),
{
    proof {
        reveal(key_name);
    }
    if i == 0 {
        "normalize_newlines"
    } else if i == 1 {
        "remove_zero_width"
    } else if i == 2 {
        "remove_control"
    } else if i == 3 {
        "remove_bidi_control"
    } else if i == 4 {
        "kansuji_to_arabic"
    } else if i == 5 {
        "arabic_to_kansuji"
    } else if i == 6 {
        "canonicalize_numbers"
    } else if i == 7 {
        "nfkc"
    } else if i == 8 {
        "halfwidth_kana_to_fullwidth"
    } else if i == 9 {
        "kana"
    } else if i == 10 {
        "kyujitai_to_shinjitai"
    } else if i == 11 {
        "unify_itaiji"
    } else if i == 12 {
        "remove_variation_selectors"
    } else if i == 13 {
        "expand_iteration_marks"
    } else if i == 14 {
        "unify_loanword_kana"
    } else if i == 15 {
        "strip_trailing_prolonged"
    } else if i == 16 {
        "case"
    } else if i == 17 {
        "cjk_spacing"
    } else if i == 18 {
        "era_to_western"
    } else if i == 19 {
        "unify_hyphens"
    } else if i == 20 {
        "unify_tildes"
    } else if i == 21 {
        "unify_prolonged"
    } else if i == 22 {
        "collapse_prolonged_run"
    } else if i == 23 {
        "repeat_limit"
    } else if i == 24 {
        "collapse_spaces"
    } else if i == 25 {
        "trim"
    } else if i == 26 {
        "expand_cjk_compat"
    } else if i == 27 {
        "remove_symbols"
    } else if i == 28 {
        "remove_cjk_compat"
    } else if i == 29 {
        "unify_quotes"
    } else if i == 30 {
        "protect_urls"
    } else if i == 31 {
        "protect_emails"
    } else if i == 32 {
        "protect_mentions"
    } else if i == 33 {
        "protect_hashtags"
    } else if i == 34 {
        "emoji"
    } else if i == 35 {
        "emoji_placeholder"
    } else {
        "url_wrap"
    }
}

/// The index of the first setting named `k` at `i` or later.
pub open spec fn key_index_from(k: Seq<char>, i: int) -> Option<int>
    decreases key_count() - i,
{
    if i < 0 || i >= key_count() {
        None
    } else if key_name(i) == k {
        Some(i)
    } else {
        key_index_from(k, i + 1)
    }
}

/// The index of the setting named `k`, if any.
pub open spec fn key_index(k: Seq<char>) -> Option<int> {
    key_index_from(k, 0)
}


/// A short fingerprint of a setting name: its length, its first
/// character and its ninth (a space where it is shorter).
pub open spec fn name_sig(s: Seq<char>) -> (int, char, char) {
    (
        s.len() as int,
        if s.len() > 0 {
            s[0]
        } else {
            ' '
        },
        if s.len() > 8 {
            s[8]
        } else {
            ' '
        },
    )
}

/// The setting whose name has the fingerprint `g`; -1 for none.
pub open spec fn key_of_sig(g: (int, char, char)) -> int {
    if g == (18int, 'n', 'e') {
        0
    } else if g == (17int, 'r', 'e') {
        1
    } else if g == (14int, 'r', 'o') {
        2
    } else if g == (19int, 'r', 'i') {
        3
    } else if g == (17int, 'k', 't') {
        4
    } else if g == (17int, 'a', 'o') {
        5
    } else if g == (20int, 'c', 'l') {
        6
    } else if g == (4int, 'n', ' ') {
        7
    } else if g == (27int, 'h', 'h') {
        8
    } else if g == (4int, 'k', ' ') {
        9
    } else if g == (21int, 'k', '_') {
        10
    } else if g == (12int, 'u', 'a') {
        11
    } else if g == (26int, 'r', 'a') {
        12
    } else if g == (22int, 'e', 't') {
        13
    } else if g == (19int, 'u', 'a') {
        14
    } else if g == (24int, 's', 'a') {
        15
    } else if g == (4int, 'c', ' ') {
        16
    } else if g == (11int, 'c', 'i') {
        17
    } else if g == (14int, 'e', 'e') {
        18
    } else if g == (13int, 'u', 'p') {
        19
    } else if g == (12int, 'u', 'l') {
        20
    } else if g == (15int, 'u', 'o') {
        21
    } else if g == (22int, 'c', '_') {
        22
    } else if g == (12int, 'r', 'i') {
        23
    } else if g == (15int, 'c', '_') {
        24
    } else if g == (4int, 't', ' ') {
        25
    } else if g == (17int, 'e', 'j') {
        26
    } else if g == (14int, 'r', 'y') {
        27
    } else if g == (17int, 'r', 'j') {
        28
    } else if g == (12int, 'u', 'o') {
        29
    } else if g == (12int, 'p', 'u') {
        30
    } else if g == (14int, 'p', 'e') {
        31
    } else if g == (16int, 'p', 'm') {
        32
    } else if g == (16int, 'p', 'h') {
        33
    } else if g == (5int, 'e', ' ') {
        34
    } else if g == (17int, 'e', 'a') {
        35
    } else if g == (8int, 'u', ' ') {
        36
    } else {
        -1
    }
}

/// Each setting is recovered from the fingerprint of its name.
proof fn lemma_key_sig(i: int)
    requires
        0 <= i < key_count(),
    ensures
        key_of_sig(name_sig(key_name(i))) == i,
{
    reveal(key_name);
    reveal_strlit("normalize_newlines");
    reveal_strlit("remove_zero_width");
    reveal_strlit("remove_control");
    reveal_strlit("remove_bidi_control");
    reveal_strlit("kansuji_to_arabic");
    reveal_strlit("arabic_to_kansuji");
    reveal_strlit("canonicalize_numbers");
    reveal_strlit("nfkc");
    reveal_strlit("halfwidth_kana_to_fullwidth");
    reveal_strlit("kana");
    reveal_strlit("kyujitai_to_shinjitai");
    reveal_strlit("unify_itaiji");
    reveal_strlit("remove_variation_selectors");
    reveal_strlit("expand_iteration_marks");
    reveal_strlit("unify_loanword_kana");
    reveal_strlit("strip_trailing_prolonged");
    reveal_strlit("case");
    reveal_strlit("cjk_spacing");
    reveal_strlit("era_to_western");
    reveal_strlit("unify_hyphens");
    reveal_strlit("unify_tildes");
    reveal_strlit("unify_prolonged");
    reveal_strlit("collapse_prolonged_run");
    reveal_strlit("repeat_limit");
    reveal_strlit("collapse_spaces");
    reveal_strlit("trim");
    reveal_strlit("expand_cjk_compat");
    reveal_strlit("remove_symbols");
    reveal_strlit("remove_cjk_compat");
    reveal_strlit("unify_quotes");
    reveal_strlit("protect_urls");
    reveal_strlit("protect_emails");
    reveal_strlit("protect_mentions");
    reveal_strlit("protect_hashtags");
    reveal_strlit("emoji");
    reveal_strlit("emoji_placeholder");
    reveal_strlit("url_wrap");
    if i == 0 {
        assert(key_name(0).len() == 18 && key_name(0)[0] == 'n' && key_name(0)[8] == 'e');
    } else if i == 1 {
        assert(key_name(1).len() == 17 && key_name(1)[0] == 'r' && key_name(1)[8] == 'e');
    } else if i == 2 {
        assert(key_name(2).len() == 14 && key_name(2)[0] == 'r' && key_name(2)[8] == 'o');
    } else if i == 3 {
        assert(key_name(3).len() == 19 && key_name(3)[0] == 'r' && key_name(3)[8] == 'i');
    } else if i == 4 {
        assert(key_name(4).len() == 17 && key_name(4)[0] == 'k' && key_name(4)[8] == 't');
    } else if i == 5 {
        assert(key_name(5).len() == 17 && key_name(5)[0] == 'a' && key_name(5)[8] == 'o');
    } else if i == 6 {
        assert(key_name(6).len() == 20 && key_name(6)[0] == 'c' && key_name(6)[8] == 'l');
    } else if i == 7 {
        assert(key_name(7).len() == 4 && key_name(7)[0] == 'n');
    } else if i == 8 {
        assert(key_name(8).len() == 27 && key_name(8)[0] == 'h' && key_name(8)[8] == 'h');
    } else if i == 9 {
        assert(key_name(9).len() == 4 && key_name(9)[0] == 'k');
    } else if i == 10 {
        assert(key_name(10).len() == 21 && key_name(10)[0] == 'k' && key_name(10)[8] == '_');
    } else if i == 11 {
        assert(key_name(11).len() == 12 && key_name(11)[0] == 'u' && key_name(11)[8] == 'a');
    } else if i == 12 {
        assert(key_name(12).len() == 26 && key_name(12)[0] == 'r' && key_name(12)[8] == 'a');
    } else if i == 13 {
        assert(key_name(13).len() == 22 && key_name(13)[0] == 'e' && key_name(13)[8] == 't');
    } else if i == 14 {
        assert(key_name(14).len() == 19 && key_name(14)[0] == 'u' && key_name(14)[8] == 'a');
    } else if i == 15 {
        assert(key_name(15).len() == 24 && key_name(15)[0] == 's' && key_name(15)[8] == 'a');
    } else if i == 16 {
        assert(key_name(16).len() == 4 && key_name(16)[0] == 'c');
    } else if i == 17 {
        assert(key_name(17).len() == 11 && key_name(17)[0] == 'c' && key_name(17)[8] == 'i');
    } else if i == 18 {
        assert(key_name(18).len() == 14 && key_name(18)[0] == 'e' && key_name(18)[8] == 'e');
    } else if i == 19 {
        assert(key_name(19).len() == 13 && key_name(19)[0] == 'u' && key_name(19)[8] == 'p');
    } else if i == 20 {
        assert(key_name(20).len() == 12 && key_name(20)[0] == 'u' && key_name(20)[8] == 'l');
    } else if i == 21 {
        assert(key_name(21).len() == 15 && key_name(21)[0] == 'u' && key_name(21)[8] == 'o');
    } else if i == 22 {
        assert(key_name(22).len() == 22 && key_name(22)[0] == 'c' && key_name(22)[8] == '_');
    } else if i == 23 {
        assert(key_name(23).len() == 12 && key_name(23)[0] == 'r' && key_name(23)[8] == 'i');
    } else if i == 24 {
        assert(key_name(24).len() == 15 && key_name(24)[0] == 'c' && key_name(24)[8] == '_');
    } else if i == 25 {
        assert(key_name(25).len() == 4 && key_name(25)[0] == 't');
    } else if i == 26 {
        assert(key_name(26).len() == 17 && key_name(26)[0] == 'e' && key_name(26)[8] == 'j');
    } else if i == 27 {
        assert(key_name(27).len() == 14 && key_name(27)[0] == 'r' && key_name(27)[8] == 'y');
    } else if i == 28 {
        assert(key_name(28).len() == 17 && key_name(28)[0] == 'r' && key_name(28)[8] == 'j');
    } else if i == 29 {
        assert(key_name(29).len() == 12 && key_name(29)[0] == 'u' && key_name(29)[8] == 'o');
    } else if i == 30 {
        assert(key_name(30).len() == 12 && key_name(30)[0] == 'p' && key_name(30)[8] == 'u');
    } else if i == 31 {
        assert(key_name(31).len() == 14 && key_name(31)[0] == 'p' && key_name(31)[8] == 'e');
    } else if i == 32 {
        assert(key_name(32).len() == 16 && key_name(32)[0] == 'p' && key_name(32)[8] == 'm');
    } else if i == 33 {
        assert(key_name(33).len() == 16 && key_name(33)[0] == 'p' && key_name(33)[8] == 'h');
    } else if i == 34 {
        assert(key_name(34).len() == 5 && key_name(34)[0] == 'e');
    } else if i == 35 {
        assert(key_name(35).len() == 17 && key_name(35)[0] == 'e' && key_name(35)[8] == 'a');
    } else if i == 36 {
        assert(key_name(36).len() == 8 && key_name(36)[0] == 'u');
    }
}

/// Distinct settings have distinct names.
pub proof fn lemma_key_names_distinct(m: int, i: int)
    requires
        0 <= m < key_count(),
        0 <= i < key_count(),
        m != i,
    ensures
        key_name(m) != key_name(i),
{
    lemma_key_sig(m);
    lemma_key_sig(i);
}

proof fn lemma_key_index_from_at(k: Seq<char>, j: int, i: int)
    requires
        0 <= j <= i < key_count(),
        key_name(i) == k,
        forall|m: int| j <= m < i ==> key_name(m) != k,
    ensures
        key_index_from(k, j) == Some(i),
    decreases i - j,
{
    if j < i {
        lemma_key_index_from_at(k, j + 1, i);
    }
}

/// Setting `i` is found by its name: the names are told apart.
pub proof fn lemma_key_index_of_name(i: int)
    requires
        0 <= i < key_count(),
    ensures
        key_index(key_name(i)) == Some(i),
{
    assert forall|m: int| 0 <= m < i implies key_name(m) != key_name(i) by {
        lemma_key_names_distinct(m, i);
    }
    lemma_key_index_from_at(key_name(i), 0, i);
}

pub(crate) fn find_key(key: &str) -> (r: Option<usize>)
    ensures
        r matches Some(i) ==> key_index(key@) == Some(i as int) && i < 37,
        r is None ==> key_index(key@) is None,
{
    let mut i: usize = 0;
    while i < 37
        invariant
            i <= 37,
            key_index_from(key@, i as int) == key_index(key@),
        decreases 37 - i,
    {
        if str_eq(key, key_str(i)) {
            return Some(i);
        }
        i = i + 1;
    }
    None
}

/// Whether setting `i` is a flag.
pub open spec fn is_bool_key(i: int) -> bool {
    i == 0 || i == 1 || i == 2 || i == 3 || i == 4 || i == 5 || i == 6 || i == 7 || i == 8 || i == 10 || i == 11 || i == 12 || i == 13 || i == 14 || i == 15 || i == 18 || i == 19 || i == 20 || i == 21 || i == 22 || i == 24 || i == 25 || i == 26 || i == 27 || i == 28 || i == 29 || i == 30 || i == 31 || i == 32 || i == 33
}

/// The flag of setting `i` (a flag setting).
pub open spec fn bool_field(c: Config, i: int) -> bool {
    if i == 0 {
        c.normalize_newlines
    } else if i == 1 {
        c.remove_zero_width
    } else if i == 2 {
        c.remove_control
    } else if i == 3 {
        c.remove_bidi_control
    } else if i == 4 {
        c.kansuji_to_arabic
    } else if i == 5 {
        c.arabic_to_kansuji
    } else if i == 6 {
        c.canonicalize_numbers
    } else if i == 7 {
        c.nfkc
    } else if i == 8 {
        c.halfwidth_kana_to_fullwidth
    } else if i == 10 {
        c.kyujitai_to_shinjitai
    } else if i == 11 {
        c.unify_itaiji
    } else if i == 12 {
        c.remove_variation_selectors
    } else if i == 13 {
        c.expand_iteration_marks
    } else if i == 14 {
        c.unify_loanword_kana
    } else if i == 15 {
        c.strip_trailing_prolonged
    } else if i == 18 {
        c.era_to_western
    } else if i == 19 {
        c.unify_hyphens
    } else if i == 20 {
        c.unify_tildes
    } else if i == 21 {
        c.unify_prolonged
    } else if i == 22 {
        c.collapse_prolonged_run
    } else if i == 24 {
        c.collapse_spaces
    } else if i == 25 {
        c.trim
    } else if i == 26 {
        c.expand_cjk_compat
    } else if i == 27 {
        c.remove_symbols
    } else if i == 28 {
        c.remove_cjk_compat
    } else if i == 29 {
        c.unify_quotes
    } else if i == 30 {
        c.protect.urls
    } else if i == 31 {
        c.protect.emails
    } else if i == 32 {
        c.protect.mentions
    } else {
        c.protect.hashtags
    }
}

pub(crate) fn get_bool(c: &Config, i: usize) -> (r: bool)
    requires
        is_bool_key(i as int),
    ensures
        r == bool_field(*c, i as int),
{
    if i == 0 {
        c.normalize_newlines
    } else if i == 1 {
        c.remove_zero_width
    } else if i == 2 {
        c.remove_control
    } else if i == 3 {
        c.remove_bidi_control
    } else if i == 4 {
        c.kansuji_to_arabic
    } else if i == 5 {
        c.arabic_to_kansuji
    } else if i == 6 {
        c.canonicalize_numbers
    } else if i == 7 {
        c.nfkc
    } else if i == 8 {
        c.halfwidth_kana_to_fullwidth
    } else if i == 10 {
        c.kyujitai_to_shinjitai
    } else if i == 11 {
        c.unify_itaiji
    } else if i == 12 {
        c.remove_variation_selectors
    } else if i == 13 {
        c.expand_iteration_marks
    } else if i == 14 {
        c.unify_loanword_kana
    } else if i == 15 {
        c.strip_trailing_prolonged
    } else if i == 18 {
        c.era_to_western
    } else if i == 19 {
        c.unify_hyphens
    } else if i == 20 {
        c.unify_tildes
    } else if i == 21 {
        c.unify_prolonged
    } else if i == 22 {
        c.collapse_prolonged_run
    } else if i == 24 {
        c.collapse_spaces
    } else if i == 25 {
        c.trim
    } else if i == 26 {
        c.expand_cjk_compat
    } else if i == 27 {
        c.remove_symbols
    } else if i == 28 {
        c.remove_cjk_compat
    } else if i == 29 {
        c.unify_quotes
    } else if i == 30 {
        c.protect.urls
    } else if i == 31 {
        c.protect.emails
    } else if i == 32 {
        c.protect.mentions
    } else {
        c.protect.hashtags
    }
}

// ---- named choices ----

/// The name of a kana action.
pub open spec fn kana_name(k: KanaAction) -> Seq<char> {
    match k {
        KanaAction::Keep => "keep"@,
        KanaAction::HiraToKata => "hira_to_kata"@,
        KanaAction::KataToHira => "kata_to_hira"@,
    }
}

/// The kana action named `s`.
pub open spec fn kana_named(s: Seq<char>) -> Option<KanaAction> {
    if s == kana_name(KanaAction::Keep) {
        Some(KanaAction::Keep)
    } else if s == kana_name(KanaAction::HiraToKata) {
        Some(KanaAction::HiraToKata)
    } else if s == kana_name(KanaAction::KataToHira) {
        Some(KanaAction::KataToHira)
    } else {
        None
    }
}

/// The name of a case action.
pub open spec fn case_name(k: CaseAction) -> Seq<char> {
    match k {
        CaseAction::Keep => "keep"@,
        CaseAction::Lower => "lower"@,
        CaseAction::Upper => "upper"@,
    }
}

/// The case action named `s`.
pub open spec fn case_named(s: Seq<char>) -> Option<CaseAction> {
    if s == case_name(CaseAction::Keep) {
        Some(CaseAction::Keep)
    } else if s == case_name(CaseAction::Lower) {
        Some(CaseAction::Lower)
    } else if s == case_name(CaseAction::Upper) {
        Some(CaseAction::Upper)
    } else {
        None
    }
}

/// The name of a spacing mode.
pub open spec fn spacing_name(k: CjkSpacing) -> Seq<char> {
    match k {
        CjkSpacing::Keep => "keep"@,
        CjkSpacing::Remove => "remove"@,
        CjkSpacing::Insert => "insert"@,
    }
}

/// The spacing mode named `s`.
pub open spec fn spacing_named(s: Seq<char>) -> Option<CjkSpacing> {
    if s == spacing_name(CjkSpacing::Keep) {
        Some(CjkSpacing::Keep)
    } else if s == spacing_name(CjkSpacing::Remove) {
        Some(CjkSpacing::Remove)
    } else if s == spacing_name(CjkSpacing::Insert) {
        Some(CjkSpacing::Insert)
    } else {
        None
    }
}

pub(crate) fn kana_str(k: KanaAction) -> (r: &'static str)
    ensures
        r@ == kana_name(k),
{
    match k {
        KanaAction::Keep => "keep",
        KanaAction::HiraToKata => "hira_to_kata",
        KanaAction::KataToHira => "kata_to_hira",
    }
}

pub(crate) fn case_str(k: CaseAction) -> (r: &'static str)
    ensures
        r@ == case_name(k),
{
    match k {
        CaseAction::Keep => "keep",
        CaseAction::Lower => "lower",
        CaseAction::Upper => "upper",
    }
}

pub(crate) fn spacing_str(k: CjkSpacing) -> (r: &'static str)
    ensures
        r@ == spacing_name(k),
{
    match k {
        CjkSpacing::Keep => "keep",
        CjkSpacing::Remove => "remove",
        CjkSpacing::Insert => "insert",
    }
}

pub(crate) fn kana_choice(s: &str) -> (r: Option<KanaAction>)
    ensures
        r == kana_named(s@),
{
    if str_eq(s, kana_str(KanaAction::Keep)) {
        Some(KanaAction::Keep)
    } else if str_eq(s, kana_str(KanaAction::HiraToKata)) {
        Some(KanaAction::HiraToKata)
    } else if str_eq(s, kana_str(KanaAction::KataToHira)) {
        Some(KanaAction::KataToHira)
    } else {
        None
    }
}

pub(crate) fn case_choice(s: &str) -> (r: Option<CaseAction>)
    ensures
        r == case_named(s@),
{
    if str_eq(s, case_str(CaseAction::Keep)) {
        Some(CaseAction::Keep)
    } else if str_eq(s, case_str(CaseAction::Lower)) {
        Some(CaseAction::Lower)
    } else if str_eq(s, case_str(CaseAction::Upper)) {
        Some(CaseAction::Upper)
    } else {
        None
    }
}

pub(crate) fn spacing_choice(s: &str) -> (r: Option<CjkSpacing>)
    ensures
        r == spacing_named(s@),
{
    if str_eq(s, spacing_str(CjkSpacing::Keep)) {
        Some(CjkSpacing::Keep)
    } else if str_eq(s, spacing_str(CjkSpacing::Remove)) {
        Some(CjkSpacing::Remove)
    } else if str_eq(s, spacing_str(CjkSpacing::Insert)) {
        Some(CjkSpacing::Insert)
    } else {
        None
    }
}

/// The message for a name `got` outside the choices `a`, `b`, `c`.
pub open spec fn choice_message(a: Seq<char>, b: Seq<char>, c: Seq<char>, got: Seq<char>) -> Seq<
    char,
> {
    "must be one of "@ + a + ", "@ + b + ", "@ + c + " (got "@ + debug_quoted(got) + ")"@
}

pub(crate) fn choice_message_exec(a: &str, b: &str, c: &str, got: &str) -> (r: String)
    ensures
        r@ == choice_message(a@, b@, c@, got@),
{
    let mut out: Vec<char> = Vec::new();
    push_str(&mut out, "must be one of ");
    push_str(&mut out, a);
    push_str(&mut out, ", ");
    push_str(&mut out, b);
    push_str(&mut out, ", ");
    push_str(&mut out, c);
    push_str(&mut out, " (got ");
    let q = debug_str(got);
    push_str(&mut out, q.as_str());
    push_str(&mut out, ")");
    proof {
        assert(out@ =~= choice_message(a@, b@, c@, got@));
    }
    string_of(&out)
}

/// The message for an `emoji` value `got` other than keep / remove.
pub open spec fn emoji_message(got: Seq<char>) -> Seq<char> {
    "must be keep or remove (got "@ + debug_quoted(got) + "); use emoji_placeholder to replace"@
}

pub(crate) fn emoji_message_exec(got: &str) -> (r: String)
    ensures
        r@ == emoji_message(got@),
{
    let mut out: Vec<char> = Vec::new();
    push_str(&mut out, "must be keep or remove (got ");
    let q = debug_str(got);
    push_str(&mut out, q.as_str());
    push_str(&mut out, "); use emoji_placeholder to replace");
    proof {
        assert(out@ =~= emoji_message(got@));
    }
    string_of(&out)
}

// ---- reading and writing settings by name ----

/// The value of setting `i` of `c`.
pub open spec fn get_view(c: Config, i: int) -> ValueView {
    if is_bool_key(i) {
        ValueView::Bool(bool_field(c, i))
    } else if i == 9 {
        ValueView::Str(kana_name(c.kana))
    } else if i == 16 {
        ValueView::Str(case_name(c.case))
    } else if i == 17 {
        ValueView::Str(spacing_name(c.cjk_spacing))
    } else if i == 23 {
        match c.repeat_limit {
            Some(n) => ValueView::Int(n),
            None => ValueView::Nothing,
        }
    } else if i == 34 {
        ValueView::Str(
            if c.emoji_action is Remove {
                "remove"@
            } else {
                "keep"@
            },
        )
    } else if i == 35 {
        match c.emoji_action {
            EmojiAction::Replace(s) => ValueView::Str(s@),
            _ => ValueView::Nothing,
        }
    } else {
        match c.url_wrap {
            Some((p, s)) => ValueView::Pair(p@, s@),
            None => ValueView::Nothing,
        }
    }
}

/// Whether a flag setting accepts `v`: a `Bool`.
#[verifier::opaque]
pub open spec fn flag_ok(v: ConfigValue) -> bool {
    v is Bool
}

/// Whether the named choice `i` (9 `kana`, 16 `case`, 17 `cjk_spacing`)
/// accepts `v`: one of its names.
#[verifier::opaque]
pub open spec fn choice_ok(i: int, v: ConfigValue) -> bool {
    v matches ConfigValue::Str(s) && if i == 9 {
        kana_named(s@) is Some
    } else if i == 16 {
        case_named(s@) is Some
    } else {
        spacing_named(s@) is Some
    }
}

/// Whether `repeat_limit` accepts `v`: no value, or a count of at least 1.
#[verifier::opaque]
pub open spec fn repeat_ok(v: ConfigValue) -> bool {
    v is Unset || (v matches ConfigValue::Int(n) && n > 0)
}

/// Whether `emoji` accepts `v`: `keep` or `remove`.
#[verifier::opaque]
pub open spec fn emoji_ok(v: ConfigValue) -> bool {
    v matches ConfigValue::Str(s) && (s@ == "keep"@ || s@ == "remove"@)
}

/// Whether `emoji_placeholder` accepts `v`: no value or a string.
#[verifier::opaque]
pub open spec fn placeholder_ok(v: ConfigValue) -> bool {
    v is Unset || v is Str
}

/// Whether `url_wrap` accepts `v`: no value or a pair.
#[verifier::opaque]
pub open spec fn url_wrap_ok(v: ConfigValue) -> bool {
    v is Unset || v is Pair
}

/// Whether setting `i` (a known name) accepts `v`.
#[verifier::opaque]
pub open spec fn set_ok(i: int, v: ConfigValue) -> bool {
    if is_bool_key(i) {
        flag_ok(v)
    } else if i == 9 || i == 16 || i == 17 {
        choice_ok(i, v)
    } else if i == 23 {
        repeat_ok(v)
    } else if i == 34 {
        emoji_ok(v)
    } else if i == 35 {
        placeholder_ok(v)
    } else {
        url_wrap_ok(v)
    }
}

/// The error of the named choice `i` for a refused `v`.
#[verifier::opaque]
pub open spec fn choice_error(i: int, v: ConfigValue) -> SetErrorView {
    if v is Str {
        SetErrorView::InvalidValue(
            if i == 9 {
                choice_message(
                    kana_name(KanaAction::Keep),
                    kana_name(KanaAction::HiraToKata),
                    kana_name(KanaAction::KataToHira),
                    v->Str_0@,
                )
            } else if i == 16 {
                choice_message(
                    case_name(CaseAction::Keep),
                    case_name(CaseAction::Lower),
                    case_name(CaseAction::Upper),
                    v->Str_0@,
                )
            } else {
                choice_message(
                    spacing_name(CjkSpacing::Keep),
                    spacing_name(CjkSpacing::Remove),
                    spacing_name(CjkSpacing::Insert),
                    v->Str_0@,
                )
            },
        )
    } else {
        SetErrorView::WrongType("str"@)
    }
}

/// The error of `repeat_limit` for a refused `v`.
#[verifier::opaque]
pub open spec fn repeat_error(v: ConfigValue) -> SetErrorView {
    if v is Int {
        SetErrorView::InvalidValue("must be >= 1 (use None to disable)"@)
    } else {
        SetErrorView::WrongType("int >= 1 or None"@)
    }
}

/// The error of `emoji` for a refused `v`.
#[verifier::opaque]
pub open spec fn emoji_error(v: ConfigValue) -> SetErrorView {
    if v is Str {
        SetErrorView::InvalidValue(emoji_message(v->Str_0@))
    } else {
        SetErrorView::WrongType("str"@)
    }
}

/// The error of a flag, `emoji_placeholder` or `url_wrap` for a refused
/// value: the expected type.
#[verifier::opaque]
pub open spec fn type_error(i: int) -> SetErrorView {
    if is_bool_key(i) {
        SetErrorView::WrongType("bool"@)
    } else if i == 35 {
        SetErrorView::WrongType("str or None"@)
    } else {
        SetErrorView::WrongType("a (prefix, suffix) pair or None"@)
    }
}

/// The error of setting `i` to a refused `v`.
#[verifier::opaque]
pub open spec fn set_error(i: int, v: ConfigValue) -> SetErrorView {
    if i == 9 || i == 16 || i == 17 {
        choice_error(i, v)
    } else if i == 23 {
        repeat_error(v)
    } else if i == 34 {
        emoji_error(v)
    } else {
        type_error(i)
    }
}

/// The settings after setting `emoji_placeholder` of `c` to the accepted `v`.
#[verifier::inline]
pub open spec fn placeholder_result(c: Config, v: ConfigValue) -> Config {
    Config {
        emoji_action: if v is Str {
            EmojiAction::Replace(v->Str_0)
        } else if c.emoji_action is Replace {
            EmojiAction::Keep
        } else {
            c.emoji_action
        },
        ..c
    }
}

/// The settings after setting `url_wrap` of `c` to the accepted `v`.
#[verifier::inline]
pub open spec fn url_wrap_result(c: Config, v: ConfigValue) -> Config {
    if v is Pair {
        Config {
            url_wrap: Some((v->Pair_0, v->Pair_1)),
            protect: ProtectConfig { urls: true, ..c.protect },
            ..c
        }
    } else {
        Config { url_wrap: None, ..c }
    }
}

/// `c` with flag setting `i` (see [`is_bool_key`]) changed to `b`.
#[verifier::opaque]
pub open spec fn with_flag(c: Config, i: int, b: bool) -> Config {
    Config {
        normalize_newlines: if i == 0 {
            b
        } else {
            c.normalize_newlines
        },
        remove_zero_width: if i == 1 {
            b
        } else {
            c.remove_zero_width
        },
        remove_control: if i == 2 {
            b
        } else {
            c.remove_control
        },
        remove_bidi_control: if i == 3 {
            b
        } else {
            c.remove_bidi_control
        },
        kansuji_to_arabic: if i == 4 {
            b
        } else {
            c.kansuji_to_arabic
        },
        arabic_to_kansuji: if i == 5 {
            b
        } else {
            c.arabic_to_kansuji
        },
        canonicalize_numbers: if i == 6 {
            b
        } else {
            c.canonicalize_numbers
        },
        nfkc: if i == 7 {
            b
        } else {
            c.nfkc
        },
        halfwidth_kana_to_fullwidth: if i == 8 {
            b
        } else {
            c.halfwidth_kana_to_fullwidth
        },
        kyujitai_to_shinjitai: if i == 10 {
            b
        } else {
            c.kyujitai_to_shinjitai
        },
        unify_itaiji: if i == 11 {
            b
        } else {
            c.unify_itaiji
        },
        remove_variation_selectors: if i == 12 {
            b
        } else {
            c.remove_variation_selectors
        },
        expand_iteration_marks: if i == 13 {
            b
        } else {
            c.expand_iteration_marks
        },
        unify_loanword_kana: if i == 14 {
            b
        } else {
            c.unify_loanword_kana
        },
        strip_trailing_prolonged: if i == 15 {
            b
        } else {
            c.strip_trailing_prolonged
        },
        era_to_western: if i == 18 {
            b
        } else {
            c.era_to_western
        },
        unify_hyphens: if i == 19 {
            b
        } else {
            c.unify_hyphens
        },
        unify_tildes: if i == 20 {
            b
        } else {
            c.unify_tildes
        },
        unify_prolonged: if i == 21 {
            b
        } else {
            c.unify_prolonged
        },
        collapse_prolonged_run: if i == 22 {
            b
        } else {
            c.collapse_prolonged_run
        },
        collapse_spaces: if i == 24 {
            b
        } else {
            c.collapse_spaces
        },
        trim: if i == 25 {
            b
        } else {
            c.trim
        },
        expand_cjk_compat: if i == 26 {
            b
        } else {
            c.expand_cjk_compat
        },
        remove_symbols: if i == 27 {
            b
        } else {
            c.remove_symbols
        },
        remove_cjk_compat: if i == 28 {
            b
        } else {
            c.remove_cjk_compat
        },
        unify_quotes: if i == 29 {
            b
        } else {
            c.unify_quotes
        },
        protect: ProtectConfig {
            urls: if i == 30 {
                b
            } else {
                c.protect.urls
            },
            emails: if i == 31 {
                b
            } else {
                c.protect.emails
            },
            mentions: if i == 32 {
                b
            } else {
                c.protect.mentions
            },
            hashtags: if i == 33 {
                b
            } else {
                c.protect.hashtags
            },
        },
        ..c
    }
}

/// `n` and `c` agree on every flag but flag `k`.
pub open spec fn flags_agree_but(n: Config, c: Config, k: int) -> bool {
    &&& (k == 0 || n.normalize_newlines == c.normalize_newlines)
    &&& (k == 1 || n.remove_zero_width == c.remove_zero_width)
    &&& (k == 2 || n.remove_control == c.remove_control)
    &&& (k == 3 || n.remove_bidi_control == c.remove_bidi_control)
    &&& (k == 4 || n.kansuji_to_arabic == c.kansuji_to_arabic)
    &&& (k == 5 || n.arabic_to_kansuji == c.arabic_to_kansuji)
    &&& (k == 6 || n.canonicalize_numbers == c.canonicalize_numbers)
    &&& (k == 7 || n.nfkc == c.nfkc)
    &&& (k == 8 || n.halfwidth_kana_to_fullwidth == c.halfwidth_kana_to_fullwidth)
    &&& (k == 10 || n.kyujitai_to_shinjitai == c.kyujitai_to_shinjitai)
    &&& (k == 11 || n.unify_itaiji == c.unify_itaiji)
    &&& (k == 12 || n.remove_variation_selectors == c.remove_variation_selectors)
    &&& (k == 13 || n.expand_iteration_marks == c.expand_iteration_marks)
    &&& (k == 14 || n.unify_loanword_kana == c.unify_loanword_kana)
    &&& (k == 15 || n.strip_trailing_prolonged == c.strip_trailing_prolonged)
    &&& (k == 18 || n.era_to_western == c.era_to_western)
    &&& (k == 19 || n.unify_hyphens == c.unify_hyphens)
    &&& (k == 20 || n.unify_tildes == c.unify_tildes)
    &&& (k == 21 || n.unify_prolonged == c.unify_prolonged)
    &&& (k == 22 || n.collapse_prolonged_run == c.collapse_prolonged_run)
    &&& (k == 24 || n.collapse_spaces == c.collapse_spaces)
    &&& (k == 25 || n.trim == c.trim)
    &&& (k == 26 || n.expand_cjk_compat == c.expand_cjk_compat)
    &&& (k == 27 || n.remove_symbols == c.remove_symbols)
    &&& (k == 28 || n.remove_cjk_compat == c.remove_cjk_compat)
    &&& (k == 29 || n.unify_quotes == c.unify_quotes)
    &&& (k == 30 || n.protect.urls == c.protect.urls)
    &&& (k == 31 || n.protect.emails == c.protect.emails)
    &&& (k == 32 || n.protect.mentions == c.protect.mentions)
    &&& (k == 33 || n.protect.hashtags == c.protect.hashtags)
}

proof fn lemma_flags_agree_but(n: Config, c: Config, k: int, j: int)
    requires
        flags_agree_but(n, c, k),
        is_bool_key(j),
        j != k,
    ensures
        bool_field(n, j) == bool_field(c, j),
{
}

/// Changing flag `i` leaves the other flags alone.
proof fn lemma_with_flag_others(c: Config, i: int, b: bool)
    ensures
        flags_agree_but(with_flag(c, i, b), c, i),
{
    reveal(with_flag);
}

/// Changing flag `i` to `b` makes it read `b`.
proof fn lemma_with_flag_own(c: Config, i: int, b: bool)
    requires
        is_bool_key(i),
    ensures
        bool_field(with_flag(c, i, b), i) == b,
{
    reveal(with_flag);
}

/// Changing a flag leaves the settings that are not flags alone.
proof fn lemma_with_flag_fields(c: Config, i: int, b: bool)
    requires
        is_bool_key(i),
    ensures
        ({
            let n = with_flag(c, i, b);
            &&& n.kana == c.kana && n.case == c.case && n.cjk_spacing == c.cjk_spacing
            &&& n.repeat_limit == c.repeat_limit && n.emoji_action == c.emoji_action
            &&& n.url_wrap == c.url_wrap
        }),
{
    let n = with_flag(c, i, b);
    assert(n.kana == c.kana && n.case == c.case && n.cjk_spacing == c.cjk_spacing
        && n.repeat_limit == c.repeat_limit && n.emoji_action == c.emoji_action
        && n.url_wrap == c.url_wrap) by {
        reveal(with_flag);
    }
}

/// Settings that agree on every field but the flags read the same on a
/// setting whose flag (if it is one) agrees.
proof fn lemma_get_view_frame(n: Config, c: Config, j: int)
    requires
        n.kana == c.kana && n.case == c.case && n.cjk_spacing == c.cjk_spacing,
        n.repeat_limit == c.repeat_limit && n.emoji_action == c.emoji_action,
        n.url_wrap == c.url_wrap,
        is_bool_key(j) ==> bool_field(n, j) == bool_field(c, j),
    ensures
        get_view(n, j) == get_view(c, j),
{
}

/// Changing flag `i` to `b`: reading it gives `b`, every other setting
/// reads as before.
pub proof fn lemma_with_flag(c: Config, i: int, b: bool)
    requires
        is_bool_key(i),
    ensures
        get_view(with_flag(c, i, b), i) == ValueView::Bool(b),
        forall|j: int| 0 <= j < 37 && j != i ==> #[trigger] get_view(with_flag(c, i, b), j) == get_view(c, j),
{
    lemma_with_flag_fields(c, i, b);
    lemma_with_flag_others(c, i, b);
    lemma_with_flag_own(c, i, b);
    let n = with_flag(c, i, b);
    assert forall|j: int| 0 <= j < 37 && j != i implies #[trigger] get_view(n, j) == get_view(c, j) by {
        if is_bool_key(j) {
            lemma_flags_agree_but(n, c, i, j);
        }
        lemma_get_view_frame(n, c, j);
    }
}

/// What [`Config::set`] does with a known key `i`: whether it succeeds, the
/// settings after a success (only that setting changes; `url_wrap` with a
/// pair also turns `protect.urls` on; `emoji_placeholder` with no value ends
/// a replacement and leaves keep / remove alone), the error otherwise, with
/// the settings unchanged.
#[verifier::opaque]
pub open spec fn set_post(
    old: Config,
    new: Config,
    r: Result<(), ConfigError>,
    i: int,
    v: ConfigValue,
) -> bool {
    &&& r is Ok <==> set_ok(i, v)
    &&& r is Err ==> new == old && is_set_error(r, i, set_error(i, v))
    &&& (is_bool_key(i) && r is Ok) ==> new == with_flag(old, i, v->Bool_0)
    &&& (i == 9 && r is Ok) ==> new == (Config { kana: kana_named(v->Str_0@)->0, ..old })
    &&& (i == 16 && r is Ok) ==> new == (Config { case: case_named(v->Str_0@)->0, ..old })
    &&& (i == 17 && r is Ok) ==> new == (Config { cjk_spacing: spacing_named(v->Str_0@)->0, ..old })
    &&& (i == 23 && r is Ok) ==> new == (Config {
        repeat_limit: if v is Unset {
            None
        } else {
            Some(v->Int_0)
        },
        ..old
    })
    &&& (i == 34 && r is Ok) ==> new == (Config {
        emoji_action: if v->Str_0@ == "keep"@ {
            EmojiAction::Keep
        } else {
            EmojiAction::Remove
        },
        ..old
    })
    &&& (i == 35 && r is Ok) ==> new == placeholder_result(old, v)
    &&& (i == 36 && r is Ok) ==> new == url_wrap_result(old, v)
}

/// Whether `r` is the error `e` for setting `i`.
pub open spec fn is_set_error(r: Result<(), ConfigError>, i: int, e: SetErrorView) -> bool {
    match e {
        SetErrorView::WrongType(x) => r matches Err(ConfigError::WrongType { key, expected })
            && key@ == key_name(i) && expected@ == x,
        SetErrorView::InvalidValue(m) => r matches Err(ConfigError::InvalidValue { key, message })
            && key@ == key_name(i) && message@ == m,
    }
}

/// The error of [`Config::validate`], if any: kanji-to-Arabic and
/// Arabic-to-kanji together.
pub open spec fn validate_fails(c: Config) -> bool {
    c.kansuji_to_arabic && c.arabic_to_kansuji
}

pub(crate) fn str_value(s: &str) -> (r: ConfigValue)
    ensures
        value_view(r) == ValueView::Str(s@),
{
    ConfigValue::Str(s.to_owned())
}

pub(crate) fn type_err(i: usize) -> (e: ConfigError)
    requires
        is_bool_key(i as int) || i == 35 || i == 36,
    ensures
        is_set_error(Err(e), i as int, type_error(i as int)),
{
    proof {
        reveal(type_error);
    }
    let k = key_str(i);
    if i == 35 {
        ConfigError::WrongType { key: k, expected: "str or None" }
    } else if i == 36 {
        ConfigError::WrongType { key: k, expected: "a (prefix, suffix) pair or None" }
    } else {
        ConfigError::WrongType { key: k, expected: "bool" }
    }
}

pub(crate) fn choice_err(i: usize, value: &ConfigValue) -> (e: ConfigError)
    requires
        i == 9 || i == 16 || i == 17,
    ensures
        is_set_error(Err(e), i as int, choice_error(i as int, *value)),
{
    proof {
        reveal(choice_error);
    }
    let k = key_str(i);
    match value {
        ConfigValue::Str(s) => {
            let message = if i == 9 {
                choice_message_exec(
                    kana_str(KanaAction::Keep),
                    kana_str(KanaAction::HiraToKata),
                    kana_str(KanaAction::KataToHira),
                    s.as_str(),
                )
            } else if i == 16 {
                choice_message_exec(
                    case_str(CaseAction::Keep),
                    case_str(CaseAction::Lower),
                    case_str(CaseAction::Upper),
                    s.as_str(),
                )
            } else {
                choice_message_exec(
                    spacing_str(CjkSpacing::Keep),
                    spacing_str(CjkSpacing::Remove),
                    spacing_str(CjkSpacing::Insert),
                    s.as_str(),
                )
            };
            ConfigError::InvalidValue { key: k, message }
        },
        _ => ConfigError::WrongType { key: k, expected: "str" },
    }
}

pub(crate) fn repeat_err(value: &ConfigValue) -> (e: ConfigError)
    ensures
        is_set_error(Err(e), 23, repeat_error(*value)),
{
    proof {
        reveal(repeat_error);
    }
    let k = key_str(23);
    match value {
        ConfigValue::Int(_) => ConfigError::InvalidValue {
            key: k,
            message: "must be >= 1 (use None to disable)".to_owned(),
        },
        _ => ConfigError::WrongType { key: k, expected: "int >= 1 or None" },
    }
}

pub(crate) fn emoji_err(value: &ConfigValue) -> (e: ConfigError)
    ensures
        is_set_error(Err(e), 34, emoji_error(*value)),
{
    proof {
        reveal(emoji_error);
    }
    let k = key_str(34);
    match value {
        ConfigValue::Str(s) => {
            let message = emoji_message_exec(s.as_str());
            ConfigError::InvalidValue { key: k, message }
        },
        _ => ConfigError::WrongType { key: k, expected: "str" },
    }
}

pub proof fn lemma_post_kana(old: Config, new: Config, r: Result<(), ConfigError>, v: ConfigValue)
    requires
        r is Ok <==> choice_ok(9, v),
        r is Err ==> new == old && is_set_error(r, 9, choice_error(9, v)),
        r is Ok ==> new == (Config { kana: kana_named(v->Str_0@)->0, ..old }),
    ensures
        set_post(old, new, r, 9, v),
{
    reveal(set_post);
    reveal(set_ok);
    reveal(set_error);
}

pub proof fn lemma_post_case(old: Config, new: Config, r: Result<(), ConfigError>, v: ConfigValue)
    requires
        r is Ok <==> choice_ok(16, v),
        r is Err ==> new == old && is_set_error(r, 16, choice_error(16, v)),
        r is Ok ==> new == (Config { case: case_named(v->Str_0@)->0, ..old }),
    ensures
        set_post(old, new, r, 16, v),
{
    reveal(set_post);
    reveal(set_ok);
    reveal(set_error);
}

pub proof fn lemma_post_spacing(old: Config, new: Config, r: Result<(), ConfigError>, v: ConfigValue)
    requires
        r is Ok <==> choice_ok(17, v),
        r is Err ==> new == old && is_set_error(r, 17, choice_error(17, v)),
        r is Ok ==> new == (Config { cjk_spacing: spacing_named(v->Str_0@)->0, ..old }),
    ensures
        set_post(old, new, r, 17, v),
{
    reveal(set_post);
    reveal(set_ok);
    reveal(set_error);
}

pub proof fn lemma_post_repeat(old: Config, new: Config, r: Result<(), ConfigError>, v: ConfigValue)
    requires
        r is Ok <==> repeat_ok(v),
        r is Err ==> new == old && is_set_error(r, 23, repeat_error(v)),
        r is Ok ==> new == (Config {
            repeat_limit: if v is Unset {
                None
            } else {
                Some(v->Int_0)
            },
            ..old
        }),
    ensures
        set_post(old, new, r, 23, v),
{
    reveal(set_post);
    reveal(set_ok);
    reveal(set_error);
}

pub proof fn lemma_post_emoji(old: Config, new: Config, r: Result<(), ConfigError>, v: ConfigValue)
    requires
        r is Ok <==> emoji_ok(v),
        r is Err ==> new == old && is_set_error(r, 34, emoji_error(v)),
        r is Ok ==> new == (Config {
            emoji_action: if v->Str_0@ == "keep"@ {
                EmojiAction::Keep
            } else {
                EmojiAction::Remove
            },
            ..old
        }),
    ensures
        set_post(old, new, r, 34, v),
{
    reveal(set_post);
    reveal(set_ok);
    reveal(set_error);
}

pub proof fn lemma_post_placeholder(old: Config, new: Config, r: Result<(), ConfigError>, v: ConfigValue)
    requires
        r is Ok <==> placeholder_ok(v),
        r is Err ==> new == old && is_set_error(r, 35, type_error(35)),
        r is Ok ==> new == placeholder_result(old, v),
    ensures
        set_post(old, new, r, 35, v),
{
    reveal(set_post);
    reveal(set_ok);
    reveal(set_error);
}

pub proof fn lemma_post_url_wrap(old: Config, new: Config, r: Result<(), ConfigError>, v: ConfigValue)
    requires
        r is Ok <==> url_wrap_ok(v),
        r is Err ==> new == old && is_set_error(r, 36, type_error(36)),
        r is Ok ==> new == url_wrap_result(old, v),
    ensures
        set_post(old, new, r, 36, v),
{
    reveal(set_post);
    reveal(set_ok);
    reveal(set_error);
}

pub(crate) fn kana_value(v: &ConfigValue) -> (r: Option<KanaAction>)
    ensures
        r == (if v is Str {
            kana_named(v->Str_0@)
        } else {
            None
        }),
{
    match v {
        ConfigValue::Str(s) => kana_choice(s.as_str()),
        _ => None,
    }
}

pub(crate) fn case_value(v: &ConfigValue) -> (r: Option<CaseAction>)
    ensures
        r == (if v is Str {
            case_named(v->Str_0@)
        } else {
            None
        }),
{
    match v {
        ConfigValue::Str(s) => case_choice(s.as_str()),
        _ => None,
    }
}

pub(crate) fn spacing_value(v: &ConfigValue) -> (r: Option<CjkSpacing>)
    ensures
        r == (if v is Str {
            spacing_named(v->Str_0@)
        } else {
            None
        }),
{
    match v {
        ConfigValue::Str(s) => spacing_choice(s.as_str()),
        _ => None,
    }
}

pub(crate) fn emoji_value(v: &ConfigValue) -> (r: Option<EmojiAction>)
    ensures
        r == (if v is Str && v->Str_0@ == "keep"@ {
            Some(EmojiAction::Keep)
        } else if v is Str && v->Str_0@ == "remove"@ {
            Some(EmojiAction::Remove)
        } else {
            None
        }),
{
    match v {
        ConfigValue::Str(s) => if str_eq(s.as_str(), "keep") {
            Some(EmojiAction::Keep)
        } else if str_eq(s.as_str(), "remove") {
            Some(EmojiAction::Remove)
        } else {
            None
        },
        _ => None,
    }
}

pub(crate) fn is_replace(a: &EmojiAction) -> (r: bool)
    ensures
        r == (*a is Replace),
{
    match a {
        EmojiAction::Replace(_) => true,
        _ => false,
    }
}

#[verifier::spinoff_prover]
proof fn lemma_get_after_set_choice(old: Config, new: Config, r: Result<(), ConfigError>, i: int, v: ConfigValue)
    requires
        i == 9 || i == 16 || i == 17,
        set_post(old, new, r, i, v),
        r is Ok,
    ensures
        get_view(new, i) == value_view(v),
{
    reveal(set_post);
    reveal(set_ok);
    reveal(choice_ok);
}

#[verifier::spinoff_prover]
proof fn lemma_get_after_set_repeat(old: Config, new: Config, r: Result<(), ConfigError>, i: int, v: ConfigValue)
    requires
        i == 23,
        set_post(old, new, r, i, v),
        r is Ok,
    ensures
        get_view(new, i) == value_view(v),
{
    reveal(set_post);
    reveal(set_ok);
    reveal(repeat_ok);
}

#[verifier::spinoff_prover]
proof fn lemma_get_after_set_emoji(old: Config, new: Config, r: Result<(), ConfigError>, i: int, v: ConfigValue)
    requires
        i == 34,
        set_post(old, new, r, i, v),
        r is Ok,
    ensures
        get_view(new, i) == value_view(v),
{
    reveal(set_post);
    reveal(set_ok);
    reveal(emoji_ok);
    reveal_strlit("keep");
    reveal_strlit("remove");
}

#[verifier::spinoff_prover]
proof fn lemma_get_after_set_placeholder(old: Config, new: Config, r: Result<(), ConfigError>, i: int, v: ConfigValue)
    requires
        i == 35,
        set_post(old, new, r, i, v),
        r is Ok,
    ensures
        get_view(new, i) == value_view(v),
{
    reveal(set_post);
    reveal(set_ok);
    reveal(placeholder_ok);
}

#[verifier::spinoff_prover]
proof fn lemma_get_after_set_url_wrap(old: Config, new: Config, r: Result<(), ConfigError>, i: int, v: ConfigValue)
    requires
        i == 36,
        set_post(old, new, r, i, v),
        r is Ok,
    ensures
        get_view(new, i) == value_view(v),
{
    reveal(set_post);
    reveal(set_ok);
    reveal(url_wrap_ok);
}

/// Reading a setting gives back the value just written to it: after a
/// successful [`Config::set`] of setting `i` to `v`, [`Config::get`] of
/// setting `i` returns `v`.
pub proof fn lemma_get_after_set(
    old: Config,
    new: Config,
    r: Result<(), ConfigError>,
    i: int,
    v: ConfigValue,
)
    requires
        0 <= i < 37,
        set_post(old, new, r, i, v),
        r is Ok,
    ensures
        get_view(new, i) == value_view(v),
{
    if is_bool_key(i) {
        reveal(set_post);
        reveal(set_ok);
        reveal(flag_ok);
        lemma_with_flag(old, i, v->Bool_0);
    } else if i == 9 || i == 16 || i == 17 {
        lemma_get_after_set_choice(old, new, r, i, v);
    } else if i == 23 {
        lemma_get_after_set_repeat(old, new, r, i, v);
    } else if i == 34 {
        lemma_get_after_set_emoji(old, new, r, i, v);
    } else if i == 35 {
        lemma_get_after_set_placeholder(old, new, r, i, v);
    } else if i == 36 {
        lemma_get_after_set_url_wrap(old, new, r, i, v);
    }
}

} // verus!
