//! Rebuilding settings from their entries.
use vstd::prelude::*;
use crate::config::{Config, ConfigValue, ConfigError, value_view};
use crate::config::keys::{
    get_view, set_post, set_ok, flag_ok, choice_ok, repeat_ok, emoji_ok, placeholder_ok,
    url_wrap_ok, is_bool_key, lemma_get_after_set, lemma_with_flag, kana_name, case_name, spacing_name,
};
use crate::l4_extra::emoji::EmojiAction;

verus! {

/// Setting `k` to the value `c` reads there is accepted (but a
/// `repeat_limit` of 0, which `set` refuses).
proof fn lemma_set_ok_of_view(c: Config, k: int, v: ConfigValue)
    requires
        0 <= k < 37,
        value_view(v) == get_view(c, k),
        c.repeat_limit != Some(0usize),
    ensures
        set_ok(k, v),
{
    reveal(set_ok);
    if is_bool_key(k) {
        reveal(flag_ok);
    } else if k == 9 || k == 16 || k == 17 {
        reveal(choice_ok);
    } else if k == 23 {
        reveal(repeat_ok);
    } else if k == 34 {
        reveal(emoji_ok);
    } else if k == 35 {
        reveal(placeholder_ok);
    } else {
        reveal(url_wrap_ok);
    }
}

#[verifier::spinoff_prover]
proof fn lemma_frame_kana(old: Config, new: Config, r: Result<(), ConfigError>, v: ConfigValue, j: int)
    requires
        set_post(old, new, r, 9, v),
        r is Ok,
        0 <= j < 37 && j != 9,
    ensures
        get_view(new, j) == get_view(old, j),
{
    reveal(set_post);
    reveal(set_ok);
}

#[verifier::spinoff_prover]
proof fn lemma_frame_case(old: Config, new: Config, r: Result<(), ConfigError>, v: ConfigValue, j: int)
    requires
        set_post(old, new, r, 16, v),
        r is Ok,
        0 <= j < 37 && j != 16,
    ensures
        get_view(new, j) == get_view(old, j),
{
    reveal(set_post);
    reveal(set_ok);
}

#[verifier::spinoff_prover]
proof fn lemma_frame_spacing(old: Config, new: Config, r: Result<(), ConfigError>, v: ConfigValue, j: int)
    requires
        set_post(old, new, r, 17, v),
        r is Ok,
        0 <= j < 37 && j != 17,
    ensures
        get_view(new, j) == get_view(old, j),
{
    reveal(set_post);
    reveal(set_ok);
}

#[verifier::spinoff_prover]
proof fn lemma_frame_repeat(old: Config, new: Config, r: Result<(), ConfigError>, v: ConfigValue, j: int)
    requires
        set_post(old, new, r, 23, v),
        r is Ok,
        0 <= j < 37 && j != 23,
    ensures
        get_view(new, j) == get_view(old, j),
{
    reveal(set_post);
    reveal(set_ok);
}

#[verifier::spinoff_prover]
proof fn lemma_frame_emoji(old: Config, new: Config, r: Result<(), ConfigError>, v: ConfigValue, j: int)
    requires
        set_post(old, new, r, 34, v),
        r is Ok,
        0 <= j < 37 && j != 34 && j != 35,
    ensures
        get_view(new, j) == get_view(old, j),
{
    reveal(set_post);
    reveal(set_ok);
}

#[verifier::spinoff_prover]
proof fn lemma_frame_placeholder(old: Config, new: Config, r: Result<(), ConfigError>, v: ConfigValue, j: int)
    requires
        set_post(old, new, r, 35, v),
        r is Ok,
        0 <= j < 37 && j != 35 && j != 34,
    ensures
        get_view(new, j) == get_view(old, j),
{
    reveal(set_post);
    reveal(set_ok);
}

#[verifier::spinoff_prover]
proof fn lemma_frame_url_wrap(old: Config, new: Config, r: Result<(), ConfigError>, v: ConfigValue, j: int)
    requires
        set_post(old, new, r, 36, v),
        r is Ok,
        0 <= j < 37 && j != 36 && j != 30,
    ensures
        get_view(new, j) == get_view(old, j),
{
    reveal(set_post);
    reveal(set_ok);
}

/// Setting `k` leaves every other setting as it was, but that a pair for
/// `url_wrap` turns `protect_urls` on and `emoji_placeholder` changes
/// `emoji`.
proof fn lemma_frame(old: Config, new: Config, r: Result<(), ConfigError>, k: int, v: ConfigValue, j: int)
    requires
        0 <= k < 37,
        set_post(old, new, r, k, v),
        r is Ok,
        0 <= j < 37,
        j != k,
        !(k == 36 && j == 30),
        !(k == 35 && j == 34),
        !(k == 34 && j == 35),
    ensures
        get_view(new, j) == get_view(old, j),
{
    if is_bool_key(k) {
        reveal(set_post);
        reveal(set_ok);
        reveal(flag_ok);
        lemma_with_flag(old, k, v->Bool_0);
    } else if k == 9 {
        lemma_frame_kana(old, new, r, v, j);
    } else if k == 16 {
        lemma_frame_case(old, new, r, v, j);
    } else if k == 17 {
        lemma_frame_spacing(old, new, r, v, j);
    } else if k == 23 {
        lemma_frame_repeat(old, new, r, v, j);
    } else if k == 34 {
        lemma_frame_emoji(old, new, r, v, j);
    } else if k == 35 {
        lemma_frame_placeholder(old, new, r, v, j);
    } else {
        lemma_frame_url_wrap(old, new, r, v, j);
    }
}

/// The settings `states` result from setting each key `k` of a state to
/// `vals[k]`, with the results `rs`.
pub open spec fn replayed(
    states: Seq<Config>,
    vals: Seq<ConfigValue>,
    rs: Seq<Result<(), ConfigError>>,
) -> bool {
    &&& states.len() == 38
    &&& vals.len() == 37
    &&& rs.len() == 37
    &&& forall|k: int|
        0 <= k < 37 ==> set_post(#[trigger] states[k], states[k + 1], rs[k], k, vals[k])
}

/// Steps `k..` leave setting `j` alone.
proof fn lemma_frame_range(
    states: Seq<Config>,
    vals: Seq<ConfigValue>,
    rs: Seq<Result<(), ConfigError>>,
    j: int,
    k: int,
    end: int,
)
    requires
        replayed(states, vals, rs),
        forall|x: int| 0 <= x < 37 ==> #[trigger] rs[x] is Ok,
        0 <= j < 37,
        j < k <= end <= 37,
        j == 30 ==> end <= 36,
        j == 34 ==> end <= 35,
        j == 35 ==> k >= 36,
    ensures
        get_view(states[end], j) == get_view(states[k], j),
    decreases end - k,
{
    if k < end {
        assert(set_post(states[k], states[k + 1], rs[k], k, vals[k]));
        lemma_frame(states[k], states[k + 1], rs[k], k, vals[k], j);
        lemma_frame_range(states, vals, rs, j, k + 1, end);
    }
}

/// Whether `a` and `b` hold the same settings: every field equal, strings
/// compared by their characters.
pub open spec fn same_settings(a: Config, b: Config) -> bool {
    &&& a.normalize_newlines == b.normalize_newlines
    &&& a.remove_zero_width == b.remove_zero_width
    &&& a.remove_control == b.remove_control
    &&& a.remove_bidi_control == b.remove_bidi_control
    &&& a.kansuji_to_arabic == b.kansuji_to_arabic
    &&& a.arabic_to_kansuji == b.arabic_to_kansuji
    &&& a.canonicalize_numbers == b.canonicalize_numbers
    &&& a.nfkc == b.nfkc
    &&& a.halfwidth_kana_to_fullwidth == b.halfwidth_kana_to_fullwidth
    &&& a.kyujitai_to_shinjitai == b.kyujitai_to_shinjitai
    &&& a.unify_itaiji == b.unify_itaiji
    &&& a.remove_variation_selectors == b.remove_variation_selectors
    &&& a.expand_iteration_marks == b.expand_iteration_marks
    &&& a.unify_loanword_kana == b.unify_loanword_kana
    &&& a.strip_trailing_prolonged == b.strip_trailing_prolonged
    &&& a.era_to_western == b.era_to_western
    &&& a.unify_hyphens == b.unify_hyphens
    &&& a.unify_tildes == b.unify_tildes
    &&& a.unify_prolonged == b.unify_prolonged
    &&& a.collapse_prolonged_run == b.collapse_prolonged_run
    &&& a.collapse_spaces == b.collapse_spaces
    &&& a.trim == b.trim
    &&& a.expand_cjk_compat == b.expand_cjk_compat
    &&& a.remove_symbols == b.remove_symbols
    &&& a.remove_cjk_compat == b.remove_cjk_compat
    &&& a.unify_quotes == b.unify_quotes
    &&& a.kana == b.kana
    &&& a.case == b.case
    &&& a.cjk_spacing == b.cjk_spacing
    &&& a.repeat_limit == b.repeat_limit
    &&& a.protect == b.protect
    &&& match (a.emoji_action, b.emoji_action) {
        (EmojiAction::Keep, EmojiAction::Keep) => true,
        (EmojiAction::Remove, EmojiAction::Remove) => true,
        (EmojiAction::Replace(x), EmojiAction::Replace(y)) => x@ == y@,
        _ => false,
    }
    &&& match (a.url_wrap, b.url_wrap) {
        (None, None) => true,
        (Some((p, q)), Some((p2, q2))) => p@ == p2@ && q@ == q2@,
        _ => false,
    }
}

/// Settings that read the same on every key are the same settings.
pub proof fn lemma_same_settings_of_views(a: Config, b: Config)
    requires
        forall|j: int| 0 <= j < 37 ==> #[trigger] get_view(a, j) == get_view(b, j),
    ensures
        same_settings(a, b),
{
    assert(get_view(a, 0) == get_view(b, 0));
    assert(get_view(a, 1) == get_view(b, 1));
    assert(get_view(a, 2) == get_view(b, 2));
    assert(get_view(a, 3) == get_view(b, 3));
    assert(get_view(a, 4) == get_view(b, 4));
    assert(get_view(a, 5) == get_view(b, 5));
    assert(get_view(a, 6) == get_view(b, 6));
    assert(get_view(a, 7) == get_view(b, 7));
    assert(get_view(a, 8) == get_view(b, 8));
    assert(get_view(a, 9) == get_view(b, 9));
    assert(get_view(a, 10) == get_view(b, 10));
    assert(get_view(a, 11) == get_view(b, 11));
    assert(get_view(a, 12) == get_view(b, 12));
    assert(get_view(a, 13) == get_view(b, 13));
    assert(get_view(a, 14) == get_view(b, 14));
    assert(get_view(a, 15) == get_view(b, 15));
    assert(get_view(a, 16) == get_view(b, 16));
    assert(get_view(a, 17) == get_view(b, 17));
    assert(get_view(a, 18) == get_view(b, 18));
    assert(get_view(a, 19) == get_view(b, 19));
    assert(get_view(a, 20) == get_view(b, 20));
    assert(get_view(a, 21) == get_view(b, 21));
    assert(get_view(a, 22) == get_view(b, 22));
    assert(get_view(a, 23) == get_view(b, 23));
    assert(get_view(a, 24) == get_view(b, 24));
    assert(get_view(a, 25) == get_view(b, 25));
    assert(get_view(a, 26) == get_view(b, 26));
    assert(get_view(a, 27) == get_view(b, 27));
    assert(get_view(a, 28) == get_view(b, 28));
    assert(get_view(a, 29) == get_view(b, 29));
    assert(get_view(a, 30) == get_view(b, 30));
    assert(get_view(a, 31) == get_view(b, 31));
    assert(get_view(a, 32) == get_view(b, 32));
    assert(get_view(a, 33) == get_view(b, 33));
    assert(get_view(a, 34) == get_view(b, 34));
    assert(get_view(a, 35) == get_view(b, 35));
    assert(get_view(a, 36) == get_view(b, 36));
    lemma_names_injective(a, b);
}

/// The names of the kana, case and spacing choices tell them apart.
proof fn lemma_names_injective(a: Config, b: Config)
    ensures
        kana_name(a.kana) == kana_name(b.kana) ==> a.kana == b.kana,
        case_name(a.case) == case_name(b.case) ==> a.case == b.case,
        spacing_name(a.cjk_spacing) == spacing_name(b.cjk_spacing) ==> a.cjk_spacing
            == b.cjk_spacing,
        "remove"@ != "keep"@,
{
    reveal_strlit("keep");
    reveal_strlit("remove");
    reveal_strlit("hira_to_kata");
    reveal_strlit("kata_to_hira");
    reveal_strlit("lower");
    reveal_strlit("upper");
    reveal_strlit("insert");
    assert("keep"@.len() == 4 && "keep"@[0] == 'k');
    assert("hira_to_kata"@.len() == 12 && "hira_to_kata"@[0] == 'h');
    assert("kata_to_hira"@.len() == 12 && "kata_to_hira"@[0] == 'k');
    assert("lower"@.len() == 5 && "lower"@[0] == 'l');
    assert("upper"@.len() == 5 && "upper"@[0] == 'u');
    assert("remove"@.len() == 6 && "remove"@[0] == 'r');
    assert("insert"@.len() == 6 && "insert"@[0] == 'i');
    if kana_name(a.kana) == kana_name(b.kana) {
        assert(kana_name(a.kana).len() == kana_name(b.kana).len());
        assert(kana_name(a.kana)[0] == kana_name(b.kana)[0]);
    }
    if case_name(a.case) == case_name(b.case) {
        assert(case_name(a.case).len() == case_name(b.case).len());
        assert(case_name(a.case)[0] == case_name(b.case)[0]);
    }
    if spacing_name(a.cjk_spacing) == spacing_name(b.cjk_spacing) {
        assert(spacing_name(a.cjk_spacing).len() == spacing_name(b.cjk_spacing).len());
        assert(spacing_name(a.cjk_spacing)[0] == spacing_name(b.cjk_spacing)[0]);
    }
}

/// Rebuilding settings from their entries: setting every entry of `c`
/// ([`Config::entries`]), in order, onto any settings succeeds at each step,
/// and the result reads the same as `c` on every key: it holds the same
/// settings as `c` (see [`same_settings`]). So
/// `Normalizer(**n.config)` copies a normalizer's settings. This holds of
/// every `c` but one with a `repeat_limit` of 0 (which `set` refuses) or a
/// `url_wrap` without `protect_urls` (setting `url_wrap` turns URL
/// protection on).
pub proof fn lemma_entries_rebuild(
    c: Config,
    states: Seq<Config>,
    vals: Seq<ConfigValue>,
    rs: Seq<Result<(), ConfigError>>,
)
    requires
        replayed(states, vals, rs),
        forall|k: int| 0 <= k < 37 ==> value_view(#[trigger] vals[k]) == get_view(c, k),
        c.repeat_limit != Some(0usize),
        c.url_wrap is Some ==> c.protect.urls,
    ensures
        forall|k: int| 0 <= k < 37 ==> #[trigger] rs[k] is Ok,
        forall|j: int| 0 <= j < 37 ==> #[trigger] get_view(states[37], j) == get_view(c, j),
        same_settings(states[37], c),
{
    assert forall|k: int| 0 <= k < 37 implies #[trigger] rs[k] is Ok by {
        assert(set_post(states[k], states[k + 1], rs[k], k, vals[k]));
        lemma_set_ok_of_view(c, k, vals[k]);
        reveal(set_post);
    }
    assert forall|j: int| 0 <= j < 37 implies #[trigger] get_view(states[37], j) == get_view(c, j) by {
        assert(set_post(states[j], states[j + 1], rs[j], j, vals[j]));
        assert(rs[j] is Ok);
        assert(set_post(states[36], states[37], rs[36], 36, vals[36]));
        lemma_get_after_set(states[j], states[j + 1], rs[j], j, vals[j]);
        if j == 30 {
            lemma_frame_range(states, vals, rs, j, j + 1, 36);
            lemma_last_url_step(c, states[36], states[37], rs[36], vals[36]);
        } else if j == 34 {
            assert(set_post(states[35], states[36], rs[35], 35, vals[35]));
            lemma_emoji_steps(c, states[34], states[35], states[36], rs[34], rs[35], vals[34], vals[35]);
            assert(set_post(states[36], states[37], rs[36], 36, vals[36]));
            lemma_frame(states[36], states[37], rs[36], 36, vals[36], 34);
        } else if j < 36 {
            lemma_frame_range(states, vals, rs, j, j + 1, 37);
        }
    }
    lemma_same_settings_of_views(states[37], c);
}

/// The last step (`url_wrap`) leaves `protect_urls` reading as in `c`.
proof fn lemma_last_url_step(c: Config, old: Config, new: Config, r: Result<(), ConfigError>, v: ConfigValue)
    requires
        set_post(old, new, r, 36, v),
        r is Ok,
        value_view(v) == get_view(c, 36),
        get_view(old, 30) == get_view(c, 30),
        c.url_wrap is Some ==> c.protect.urls,
    ensures
        get_view(new, 30) == get_view(c, 30),
{
    reveal(set_post);
    reveal(set_ok);
}

/// Setting `emoji`, then `emoji_placeholder`, as `c` reads leaves `emoji`
/// reading as in `c`.
proof fn lemma_emoji_steps(
    c: Config,
    s34: Config,
    s35: Config,
    s36: Config,
    r34: Result<(), ConfigError>,
    r35: Result<(), ConfigError>,
    v34: ConfigValue,
    v35: ConfigValue,
)
    requires
        set_post(s34, s35, r34, 34, v34),
        set_post(s35, s36, r35, 35, v35),
        r34 is Ok,
        r35 is Ok,
        value_view(v34) == get_view(c, 34),
        value_view(v35) == get_view(c, 35),
    ensures
        get_view(s36, 34) == get_view(c, 34),
{
    reveal(set_post);
    reveal(set_ok);
    reveal(emoji_ok);
    reveal(placeholder_ok);
    reveal_strlit("keep");
    reveal_strlit("remove");
}

} // verus!
