//! Reading and writing settings by name.
use vstd::prelude::*;
use crate::config::{Config, ConfigValue, ConfigError};
use crate::config::keys::{
    key_count, key_name, key_str, key_index, find_key, lemma_key_index_of_name, is_bool_key, get_bool, get_view, set_post,
    flag_ok, choice_ok, repeat_ok, emoji_ok, placeholder_ok, url_wrap_ok, set_ok, set_error,
    choice_error, repeat_error, emoji_error, type_error, is_set_error, placeholder_result,
    url_wrap_result, validate_fails, kana_named, case_named, spacing_named, kana_str, case_str,
    spacing_str, kana_choice, case_choice, spacing_choice, str_value, type_err, choice_err,
    repeat_err, emoji_err, kana_value, case_value, spacing_value, emoji_value, is_replace,
    lemma_post_kana, lemma_post_case, lemma_post_spacing, lemma_post_repeat, lemma_post_emoji,
    lemma_post_placeholder, lemma_post_url_wrap, with_flag,
};
use crate::config::value_view;
use crate::text::str_eq;
use crate::l1_char::case::CaseAction;
use crate::l1_char::spacing::CjkSpacing;
use crate::l2_script::kana::KanaAction;
use crate::l4_extra::emoji::EmojiAction;
use crate::l4_extra::protect::ProtectConfig;

verus! {

/// Setting `i` (a known name) of `c` to `value`, by value: the new settings
/// and the outcome (see [`set_post`]).
fn set_owned(c: Config, i: usize, value: ConfigValue) -> (out: (Config, Result<(), ConfigError>))
    requires
        i < 37,
    ensures
        set_post(c, out.0, out.1, i as int, value),
{
    if is_bool_key_exec(i) {
        set_flag_value(c, i, value)
    } else {
        set_named_value(c, i, value)
    }
}

/// Setting the flag `i` of `c` to `value`, by value.
#[verifier::spinoff_prover]
fn set_flag_value(c: Config, i: usize, value: ConfigValue) -> (out: (Config, Result<(), ConfigError>))
    requires
        is_bool_key(i as int),
    ensures
        set_post(c, out.0, out.1, i as int, value),
{
    proof {
        reveal(set_post);
        reveal(set_ok);
        reveal(set_error);
        reveal(flag_ok);
    }
    match value {
        ConfigValue::Bool(b) => (with_flag_exec(c, i, b), Ok(())),
        _ => {
            let e = type_err(i);
            (c, Err(e))
        },
    }
}

/// `c` with the flag `i` changed to `b`.
#[verifier::spinoff_prover]
fn with_flag_exec(c: Config, i: usize, b: bool) -> (r: Config)
    requires
        is_bool_key(i as int),
    ensures
        r == with_flag(c, i as int, b),
{
    proof {
        reveal(with_flag);
    }
    Config {
        normalize_newlines: if i == 0 {
            b
        } else {
            c.normalize_newlines
        },
        remove_zero_width: if i == 1 {
            b
        } else {
            c.remove_zero_width
        },
        remove_control: if i == 2 {
            b
        } else {
            c.remove_control
        },
        remove_bidi_control: if i == 3 {
            b
        } else {
            c.remove_bidi_control
        },
        kansuji_to_arabic: if i == 4 {
            b
        } else {
            c.kansuji_to_arabic
        },
        arabic_to_kansuji: if i == 5 {
            b
        } else {
            c.arabic_to_kansuji
        },
        canonicalize_numbers: if i == 6 {
            b
        } else {
            c.canonicalize_numbers
        },
        nfkc: if i == 7 {
            b
        } else {
            c.nfkc
        },
        halfwidth_kana_to_fullwidth: if i == 8 {
            b
        } else {
            c.halfwidth_kana_to_fullwidth
        },
        kyujitai_to_shinjitai: if i == 10 {
            b
        } else {
            c.kyujitai_to_shinjitai
        },
        unify_itaiji: if i == 11 {
            b
        } else {
            c.unify_itaiji
        },
        remove_variation_selectors: if i == 12 {
            b
        } else {
            c.remove_variation_selectors
        },
        expand_iteration_marks: if i == 13 {
            b
        } else {
            c.expand_iteration_marks
        },
        unify_loanword_kana: if i == 14 {
            b
        } else {
            c.unify_loanword_kana
        },
        strip_trailing_prolonged: if i == 15 {
            b
        } else {
            c.strip_trailing_prolonged
        },
        era_to_western: if i == 18 {
            b
        } else {
            c.era_to_western
        },
        unify_hyphens: if i == 19 {
            b
        } else {
            c.unify_hyphens
        },
        unify_tildes: if i == 20 {
            b
        } else {
            c.unify_tildes
        },
        unify_prolonged: if i == 21 {
            b
        } else {
            c.unify_prolonged
        },
        collapse_prolonged_run: if i == 22 {
            b
        } else {
            c.collapse_prolonged_run
        },
        collapse_spaces: if i == 24 {
            b
        } else {
            c.collapse_spaces
        },
        trim: if i == 25 {
            b
        } else {
            c.trim
        },
        expand_cjk_compat: if i == 26 {
            b
        } else {
            c.expand_cjk_compat
        },
        remove_symbols: if i == 27 {
            b
        } else {
            c.remove_symbols
        },
        remove_cjk_compat: if i == 28 {
            b
        } else {
            c.remove_cjk_compat
        },
        unify_quotes: if i == 29 {
            b
        } else {
            c.unify_quotes
        },
        protect: ProtectConfig {
            urls: if i == 30 {
                b
            } else {
                c.protect.urls
            },
            emails: if i == 31 {
                b
            } else {
                c.protect.emails
            },
            mentions: if i == 32 {
                b
            } else {
                c.protect.mentions
            },
            hashtags: if i == 33 {
                b
            } else {
                c.protect.hashtags
            },
        },
        ..c
    }
}

/// Setting a setting `i` other than a flag of `c` to `value`, by value.
#[verifier::spinoff_prover]
fn set_named_value(c: Config, i: usize, value: ConfigValue) -> (out: (Config, Result<(), ConfigError>))
    requires
        i == 9 || i == 16 || i == 17 || i == 23 || i == 34 || i == 35 || i == 36,
    ensures
        set_post(c, out.0, out.1, i as int, value),
{
    if i == 9 {
        let out = set_kana_post(c, value);
        return out;
    }
    if i == 16 {
        let out = set_case_post(c, value);
        return out;
    }
    if i == 17 {
        let out = set_spacing_post(c, value);
        return out;
    }
    if i == 23 {
        let out = set_repeat_limit_post(c, value);
        return out;
    }
    if i == 34 {
        let out = set_emoji_post(c, value);
        return out;
    }
    if i == 35 {
        let out = set_emoji_placeholder_post(c, value);
        return out;
    }
    let out = set_url_wrap_post(c, value);
    out
}

#[verifier::spinoff_prover]
fn set_kana_post(c: Config, value: ConfigValue) -> (out: (Config, Result<(), ConfigError>))
    ensures
        set_post(c, out.0, out.1, 9, value),
{
    let ghost v = value;
    let out = set_kana(c, value);
    proof {
        lemma_post_kana(c, out.0, out.1, v);
    }
    out
}

#[verifier::spinoff_prover]
fn set_case_post(c: Config, value: ConfigValue) -> (out: (Config, Result<(), ConfigError>))
    ensures
        set_post(c, out.0, out.1, 16, value),
{
    let ghost v = value;
    let out = set_case(c, value);
    proof {
        lemma_post_case(c, out.0, out.1, v);
    }
    out
}

#[verifier::spinoff_prover]
fn set_spacing_post(c: Config, value: ConfigValue) -> (out: (Config, Result<(), ConfigError>))
    ensures
        set_post(c, out.0, out.1, 17, value),
{
    let ghost v = value;
    let out = set_spacing(c, value);
    proof {
        lemma_post_spacing(c, out.0, out.1, v);
    }
    out
}

#[verifier::spinoff_prover]
fn set_repeat_limit_post(c: Config, value: ConfigValue) -> (out: (Config, Result<(), ConfigError>))
    ensures
        set_post(c, out.0, out.1, 23, value),
{
    let ghost v = value;
    let out = set_repeat_limit(c, value);
    proof {
        lemma_post_repeat(c, out.0, out.1, v);
    }
    out
}

#[verifier::spinoff_prover]
fn set_emoji_post(c: Config, value: ConfigValue) -> (out: (Config, Result<(), ConfigError>))
    ensures
        set_post(c, out.0, out.1, 34, value),
{
    let ghost v = value;
    let out = set_emoji(c, value);
    proof {
        lemma_post_emoji(c, out.0, out.1, v);
    }
    out
}

#[verifier::spinoff_prover]
fn set_emoji_placeholder_post(c: Config, value: ConfigValue) -> (out: (Config, Result<(), ConfigError>))
    ensures
        set_post(c, out.0, out.1, 35, value),
{
    let ghost v = value;
    let out = set_emoji_placeholder(c, value);
    proof {
        lemma_post_placeholder(c, out.0, out.1, v);
    }
    out
}

#[verifier::spinoff_prover]
fn set_url_wrap_post(c: Config, value: ConfigValue) -> (out: (Config, Result<(), ConfigError>))
    ensures
        set_post(c, out.0, out.1, 36, value),
{
    let ghost v = value;
    let out = set_url_wrap(c, value);
    proof {
        lemma_post_url_wrap(c, out.0, out.1, v);
    }
    out
}

fn is_bool_key_exec(i: usize) -> (b: bool)
    requires
        i < 37,
    ensures
        b == is_bool_key(i as int),
{
    !(i == 9 || i == 16 || i == 17 || i == 23 || i == 34 || i == 35 || i == 36)
}

fn set_kana(c: Config, value: ConfigValue) -> (out: (Config, Result<(), ConfigError>))
    ensures
        out.1 is Ok <==> choice_ok(9, value),
        out.1 is Err ==> out.0 == c && is_set_error(out.1, 9, choice_error(9, value)),
        out.1 is Ok ==> out.0 == (Config { kana: kana_named(value->Str_0@)->0, ..c }),
{
    proof {
        reveal(choice_ok);
    }
    match kana_value(&value) {
        Some(a) => (Config { kana: a, ..c }, Ok(())),
        None => {
            let e = choice_err(9, &value);
            (c, Err(e))
        },
    }
}

fn set_case(c: Config, value: ConfigValue) -> (out: (Config, Result<(), ConfigError>))
    ensures
        out.1 is Ok <==> choice_ok(16, value),
        out.1 is Err ==> out.0 == c && is_set_error(out.1, 16, choice_error(16, value)),
        out.1 is Ok ==> out.0 == (Config { case: case_named(value->Str_0@)->0, ..c }),
{
    proof {
        reveal(choice_ok);
    }
    match case_value(&value) {
        Some(a) => (Config { case: a, ..c }, Ok(())),
        None => {
            let e = choice_err(16, &value);
            (c, Err(e))
        },
    }
}

fn set_spacing(c: Config, value: ConfigValue) -> (out: (Config, Result<(), ConfigError>))
    ensures
        out.1 is Ok <==> choice_ok(17, value),
        out.1 is Err ==> out.0 == c && is_set_error(out.1, 17, choice_error(17, value)),
        out.1 is Ok ==> out.0 == (Config { cjk_spacing: spacing_named(value->Str_0@)->0, ..c }),
{
    proof {
        reveal(choice_ok);
    }
    match spacing_value(&value) {
        Some(a) => (Config { cjk_spacing: a, ..c }, Ok(())),
        None => {
            let e = choice_err(17, &value);
            (c, Err(e))
        },
    }
}

fn set_repeat_limit(c: Config, value: ConfigValue) -> (out: (Config, Result<(), ConfigError>))
    ensures
        out.1 is Ok <==> repeat_ok(value),
        out.1 is Err ==> out.0 == c && is_set_error(out.1, 23, repeat_error(value)),
        out.1 is Ok ==> out.0 == (Config {
            repeat_limit: if value is Unset {
                None
            } else {
                Some(value->Int_0)
            },
            ..c
        }),
{
    proof {
        reveal(repeat_ok);
    }
    match value {
        ConfigValue::Unset => (Config { repeat_limit: None, ..c }, Ok(())),
        ConfigValue::Int(n) => {
            if n == 0 {
                let e = repeat_err(&value);
                (c, Err(e))
            } else {
                (Config { repeat_limit: Some(n), ..c }, Ok(()))
            }
        },
        _ => {
            let e = repeat_err(&value);
            (c, Err(e))
        },
    }
}

fn set_emoji(c: Config, value: ConfigValue) -> (out: (Config, Result<(), ConfigError>))
    ensures
        out.1 is Ok <==> emoji_ok(value),
        out.1 is Err ==> out.0 == c && is_set_error(out.1, 34, emoji_error(value)),
        out.1 is Ok ==> out.0 == (Config {
            emoji_action: if value->Str_0@ == "keep"@ {
                EmojiAction::Keep
            } else {
                EmojiAction::Remove
            },
            ..c
        }),
{
    proof {
        reveal(emoji_ok);
    }
    match emoji_value(&value) {
        Some(a) => (Config { emoji_action: a, ..c }, Ok(())),
        None => {
            let e = emoji_err(&value);
            (c, Err(e))
        },
    }
}

fn set_emoji_placeholder(c: Config, value: ConfigValue) -> (out: (Config, Result<(), ConfigError>))
    ensures
        out.1 is Ok <==> placeholder_ok(value),
        out.1 is Err ==> out.0 == c && is_set_error(out.1, 35, type_error(35)),
        out.1 is Ok ==> out.0 == placeholder_result(c, value),
{
    proof {
        reveal(placeholder_ok);
    }
    let replacing = is_replace(&c.emoji_action);
    match value {
        ConfigValue::Unset => {
            if replacing {
                (Config { emoji_action: EmojiAction::Keep, ..c }, Ok(()))
            } else {
                (c, Ok(()))
            }
        },
        ConfigValue::Str(s) => (Config { emoji_action: EmojiAction::Replace(s), ..c }, Ok(())),
        _ => (c, Err(type_err(35))),
    }
}

fn set_url_wrap(c: Config, value: ConfigValue) -> (out: (Config, Result<(), ConfigError>))
    ensures
        out.1 is Ok <==> url_wrap_ok(value),
        out.1 is Err ==> out.0 == c && is_set_error(out.1, 36, type_error(36)),
        out.1 is Ok ==> out.0 == url_wrap_result(c, value),
{
    proof {
        reveal(url_wrap_ok);
    }
    match value {
        ConfigValue::Unset => (Config { url_wrap: None, ..c }, Ok(())),
        ConfigValue::Pair(p, s) => {
            let protect = ProtectConfig { urls: true, ..c.protect };
            (Config { url_wrap: Some((p, s)), protect, ..c }, Ok(()))
        },
        _ => (c, Err(type_err(36))),
    }
}

impl Config {
    /// Every setting name accepted by [`set`](Self::set) / [`get`](Self::get).
    pub const KEYS: [&'static str; 37] = [
        "normalize_newlines",
        "remove_zero_width",
        "remove_control",
        "remove_bidi_control",
        "kansuji_to_arabic",
        "arabic_to_kansuji",
        "canonicalize_numbers",
        "nfkc",
        "halfwidth_kana_to_fullwidth",
        "kana",
        "kyujitai_to_shinjitai",
        "unify_itaiji",
        "remove_variation_selectors",
        "expand_iteration_marks",
        "unify_loanword_kana",
        "strip_trailing_prolonged",
        "case",
        "cjk_spacing",
        "era_to_western",
        "unify_hyphens",
        "unify_tildes",
        "unify_prolonged",
        "collapse_prolonged_run",
        "repeat_limit",
        "collapse_spaces",
        "trim",
        "expand_cjk_compat",
        "remove_symbols",
        "remove_cjk_compat",
        "unify_quotes",
        "protect_urls",
        "protect_emails",
        "protect_mentions",
        "protect_hashtags",
        "emoji",
        "emoji_placeholder",
        "url_wrap",
    ];

    /// Changes the setting named `key` to `value`.
    ///
    /// Setting `url_wrap` to a pair also turns `protect_urls` on. `emoji`
    /// takes `"keep"` / `"remove"`; `emoji_placeholder` a replacement string
    /// (`None` ends the replacement). On an error nothing changes.
    pub fn set(&mut self, key: &str, value: ConfigValue) -> (r: Result<(), ConfigError>)
        ensures
            match key_index(key@) {
                None => r matches Err(ConfigError::UnknownKey(k)) && k@ == key@ && *final(self)
                    == *old(self),
                Some(i) => set_post(*old(self), *final(self), r, i, value),
            },
    {
        let i = match find_key(key) {
            Some(i) => i,
            None => {
                return Err(ConfigError::UnknownKey(key.to_owned()));
            },
        };
        let mut c = Config::none();
        std::mem::swap(&mut c, self);
        let (c2, r) = set_owned(c, i, value);
        *self = c2;
        r
    }

    fn get_at(&self, i: usize) -> (r: ConfigValue)
        requires
            i < 37,
        ensures
            value_view(r) == get_view(*self, i as int),
    {
        if i == 9 {
            str_value(kana_str(self.kana))
        } else if i == 16 {
            str_value(case_str(self.case))
        } else if i == 17 {
            str_value(spacing_str(self.cjk_spacing))
        } else if i == 23 {
            match self.repeat_limit {
                Some(n) => ConfigValue::Int(n),
                None => ConfigValue::Unset,
            }
        } else if i == 34 {
            match self.emoji_action {
                EmojiAction::Remove => str_value("remove"),
                _ => str_value("keep"),
            }
        } else if i == 35 {
            match &self.emoji_action {
                EmojiAction::Replace(s) => ConfigValue::Str(s.clone()),
                _ => ConfigValue::Unset,
            }
        } else if i == 36 {
            match &self.url_wrap {
                Some((p, s)) => ConfigValue::Pair(p.clone(), s.clone()),
                None => ConfigValue::Unset,
            }
        } else {
            ConfigValue::Bool(get_bool(self, i))
        }
    }

    /// The value of the setting named `key`; `None` for an unknown name.
    pub fn get(&self, key: &str) -> (r: Option<ConfigValue>)
        ensures
            match key_index(key@) {
                None => r is None,
                Some(i) => r matches Some(v) && value_view(v) == get_view(*self, i),
            },
    {
        match find_key(key) {
            Some(i) => Some(self.get_at(i)),
            None => None,
        }
    }

    /// Every setting name with its value, in the order of [`KEYS`](Self::KEYS).
    /// Each name is found as its own setting, so [`get`](Self::get) on it
    /// gives the value listed with it.
    pub fn entries(&self) -> (r: Vec<(&'static str, ConfigValue)>)
        ensures
            r@.len() == key_count(),
            forall|i: int|
                0 <= i < key_count() ==> (#[trigger] r@[i]).0@ == key_name(i) && value_view(
                    r@[i].1,
                ) == get_view(*self, i),
            forall|i: int| 0 <= i < key_count() ==> key_index((#[trigger] r@[i]).0@) == Some(i),
    {
        proof {
            assert forall|i: int| 0 <= i < key_count() implies key_index(#[trigger] key_name(i))
                == Some(i) by {
                lemma_key_index_of_name(i);
            }
        }
        let mut r: Vec<(&'static str, ConfigValue)> = Vec::new();
        let mut i: usize = 0;
        while i < 37
            invariant
                i <= 37,
                r@.len() == i,
                forall|j: int|
                    0 <= j < i ==> (#[trigger] r@[j]).0@ == key_name(j) && value_view(r@[j].1)
                        == get_view(*self, j),
            decreases 37 - i,
        {
            r.push((key_str(i), self.get_at(i)));
            i = i + 1;
        }
        r
    }

    /// Checks that the settings do not contradict each other.
    pub fn validate(&self) -> (r: Result<(), ConfigError>)
        ensures
            r is Ok <==> !validate_fails(*self),
            r is Err ==> (r matches Err(ConfigError::InvalidValue { key, message }) && key@
                == "arabic_to_kansuji"@ && message@
                == "kansuji_to_arabic and arabic_to_kansuji cannot both be enabled"@),
    {
        if self.kansuji_to_arabic && self.arabic_to_kansuji {
            return Err(
                ConfigError::InvalidValue {
                    key: "arabic_to_kansuji",
                    message: "kansuji_to_arabic and arabic_to_kansuji cannot both be enabled".to_owned(),
                },
            );
        }
        Ok(())
    }
}

} // verus!
