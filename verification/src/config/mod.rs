//! Normalization settings and presets.
use vstd::prelude::*;
use std::str::FromStr;
use crate::text::{str_eq, debug_str, debug_quoted, push_str, string_of};
use crate::l1_char::case::CaseAction;
use crate::l1_char::spacing::CjkSpacing;
use crate::l2_script::kana::KanaAction;
use crate::l4_extra::emoji::EmojiAction;
use crate::l4_extra::protect::ProtectConfig;

pub mod access;
pub mod keys;
pub mod presets;
pub mod rebuild;

verus! {


/// A named normalization preset. Names convert with [`Preset::as_str`] and
/// [`FromStr`] (for the bindings).
#[derive(Debug, Clone, Copy, PartialEq, Eq, Hash, Structural)]
pub enum Preset {
    /// Changes nothing (a base for the builder); named `none`.
    Noop,
    /// Close to neologdn: the usual character-level normalization.
    NeologdnCompat,
    /// For search indexes: aggressive unification.
    ForSearch,
    /// For display: the least that keeps the look.
    ForDisplay,
    /// For comparison and duplicate detection: the most information dropped.
    ForCompare,
}

/// The name of a preset, in snake_case.
pub open spec fn preset_name(p: Preset) -> Seq<char> {
    match p {
        Preset::Noop => "none"@,
        Preset::NeologdnCompat => "neologdn_compat"@,
        Preset::ForSearch => "for_search"@,
        Preset::ForDisplay => "for_display"@,
        Preset::ForCompare => "for_compare"@,
    }
}

/// The preset named `s`, if any.
pub open spec fn preset_named(s: Seq<char>) -> Option<Preset> {
    if s == preset_name(Preset::Noop) {
        Some(Preset::Noop)
    } else if s == preset_name(Preset::NeologdnCompat) {
        Some(Preset::NeologdnCompat)
    } else if s == preset_name(Preset::ForSearch) {
        Some(Preset::ForSearch)
    } else if s == preset_name(Preset::ForDisplay) {
        Some(Preset::ForDisplay)
    } else if s == preset_name(Preset::ForCompare) {
        Some(Preset::ForCompare)
    } else {
        None
    }
}

impl Preset {
    /// Every preset, in declaration order.
    pub const ALL: [Preset; 5] = [
        Preset::Noop,
        Preset::NeologdnCompat,
        Preset::ForSearch,
        Preset::ForDisplay,
        Preset::ForCompare,
    ];

    /// The preset's name in snake_case.
    pub fn as_str(self) -> (r: &'static str)
        ensures
            r@ == preset_name(self),
    {
        match self {
            Preset::Noop => "none",
            Preset::NeologdnCompat => "neologdn_compat",
            Preset::ForSearch => "for_search",
            Preset::ForDisplay => "for_display",
            Preset::ForCompare => "for_compare",
        }
    }

    /// The preset's name (what `Display` shows).
    pub fn to_string(&self) -> (r: String)
        ensures
            r@ == preset_name(*self),
    {
        self.as_str().to_owned()
    }

    /// The preset named `s`; an error carrying `s` for an unknown name.
    pub fn parse(s: &str) -> (r: Result<Preset, ParsePresetError>)
        ensures
            match r {
                Ok(p) => preset_named(s@) == Some(p),
                Err(e) => preset_named(s@) is None && e.name_view() == s@,
            },
    {
        let all = [
            Preset::Noop,
            Preset::NeologdnCompat,
            Preset::ForSearch,
            Preset::ForDisplay,
            Preset::ForCompare,
        ];
        if str_eq(s, Preset::Noop.as_str()) {
            return Ok(Preset::Noop);
        }
        if str_eq(s, Preset::NeologdnCompat.as_str()) {
            return Ok(Preset::NeologdnCompat);
        }
        if str_eq(s, Preset::ForSearch.as_str()) {
            return Ok(Preset::ForSearch);
        }
        if str_eq(s, Preset::ForDisplay.as_str()) {
            return Ok(Preset::ForDisplay);
        }
        if str_eq(s, Preset::ForCompare.as_str()) {
            return Ok(Preset::ForCompare);
        }
        Err(ParsePresetError { name: s.to_owned() })
    }
}

impl FromStr for Preset {
    type Err = ParsePresetError;

    fn from_str(s: &str) -> (r: Result<Self, Self::Err>)
        ensures
            match r {
                Ok(p) => preset_named(s@) == Some(p),
                Err(e) => preset_named(s@) is None && e.name_view() == s@,
            },
    {
        Preset::parse(s)
    }
}

/// An unknown preset name.
#[derive(Debug, Clone, PartialEq, Eq)]
pub struct ParsePresetError {
    name: String,
}

/// The message of a [`ParsePresetError`] for the name `name`.
pub open spec fn parse_preset_message(name: Seq<char>) -> Seq<char> {
    "unknown preset: "@ + debug_quoted(name) + " (valid: "@ + preset_name(Preset::Noop) + ", "@
        + preset_name(Preset::NeologdnCompat) + ", "@ + preset_name(Preset::ForSearch) + ", "@
        + preset_name(Preset::ForDisplay) + ", "@ + preset_name(Preset::ForCompare) + ")"@
}

impl ParsePresetError {
    /// The (unknown) name that was given, as characters.
    pub closed spec fn name_view(&self) -> Seq<char> {
        self.name@
    }

    /// The (unknown) name that was given.
    pub fn name(&self) -> (r: &str)
        ensures
            r@ == self.name_view(),
    {
        self.name.as_str()
    }

    /// The error's message (what `Display` shows).
    pub fn to_string(&self) -> (r: String)
        ensures
            r@ == parse_preset_message(self.name_view()),
    {
        let mut out: Vec<char> = Vec::new();
        push_str(&mut out, "unknown preset: ");
        let q = debug_str(self.name.as_str());
        push_str(&mut out, q.as_str());
        push_str(&mut out, " (valid: ");
        push_str(&mut out, Preset::Noop.as_str());
        push_str(&mut out, ", ");
        push_str(&mut out, Preset::NeologdnCompat.as_str());
        push_str(&mut out, ", ");
        push_str(&mut out, Preset::ForSearch.as_str());
        push_str(&mut out, ", ");
        push_str(&mut out, Preset::ForDisplay.as_str());
        push_str(&mut out, ", ");
        push_str(&mut out, Preset::ForCompare.as_str());
        push_str(&mut out, ")");
        proof {
            assert(out@ =~= parse_preset_message(self.name_view()));
        }
        string_of(&out)
    }
}

/// Normalization settings: one flag per step.
///
/// Start from a preset (`Config::for_search()`, …) and change the fields
/// needed. Fields may be added in minor versions.
#[derive(Debug, Clone, PartialEq, Eq)]
pub struct Config {
    /// Line breaks (CRLF / CR / NEL / LS / PS) become LF.
    pub normalize_newlines: bool,
    /// Zero-width characters and the BOM are removed (ZWJ is kept for emoji).
    pub remove_zero_width: bool,
    /// Control characters (C0 / C1, DEL) are removed; `\t` and `\n` are kept.
    pub remove_control: bool,
    /// Bidi control characters are removed (against Trojan Source text).
    pub remove_bidi_control: bool,
    /// Kanji numerals become Arabic digits (一千二百三十四 → 1234).
    pub kansuji_to_arabic: bool,
    /// Arabic digits become kanji numerals. Not together with `kansuji_to_arabic`.
    pub arabic_to_kansuji: bool,
    /// Number tokens are put in canonical form (1,200 / 1200.00 → 1200), for comparison.
    pub canonicalize_numbers: bool,
    /// Unicode NFKC is applied.
    pub nfkc: bool,
    /// Half-width katakana become full-width.
    pub halfwidth_kana_to_fullwidth: bool,
    /// Hiragana / katakana unification (after half-width kana are widened).
    pub kana: KanaAction,
    /// Old character forms become the new ones (國 → 国, 體 → 体).
    pub kyujitai_to_shinjitai: bool,
    /// Variant characters frequent in names become their usual form (髙 → 高, 﨑 → 崎, 濵 → 浜).
    pub unify_itaiji: bool,
    /// Variation selectors (IVS / VS) are removed.
    pub remove_variation_selectors: bool,
    /// Iteration marks (々ゝゞヽヾ) are expanded (人々 → 人人, いすゞ → いすず).
    pub expand_iteration_marks: bool,
    /// Spelling variants of katakana loanwords are unified (ヴァ → バ, ウェ → ウエ, ティ → テイ).
    pub unify_loanword_kana: bool,
    /// The final long-vowel mark of katakana words of four or more characters is dropped (コンピューター → コンピュータ).
    pub strip_trailing_prolonged: bool,
    /// Letter case.
    pub case: CaseAction,
    /// Spaces between Japanese and alphanumerics.
    pub cjk_spacing: CjkSpacing,
    /// Japanese era years become Western years (令和6年 → 2024年).
    pub era_to_western: bool,
    /// Hyphens, minus signs and dashes become `-`.
    pub unify_hyphens: bool,
    /// Tildes and wave dashes become `〜`.
    pub unify_tildes: bool,
    /// Long-vowel mark variants become `ー`.
    pub unify_prolonged: bool,
    /// Runs of long-vowel marks (`ー`, `〜`) fold into one (as neologdn does).
    pub collapse_prolonged_run: bool,
    /// The most repetitions kept of one character (`None`: off).
    pub repeat_limit: Option<usize>,
    /// Runs of spaces fold into one space.
    pub collapse_spaces: bool,
    /// Leading and trailing white space is removed.
    pub trim: bool,
    /// Compatibility characters (㈱①髙㌔ …) are expanded.
    pub expand_cjk_compat: bool,
    /// Symbols (punctuation and the like) are removed.
    pub remove_symbols: bool,
    /// Compatibility characters are removed (not expanded).
    pub remove_cjk_compat: bool,
    /// Curly quotes become straight quotes.
    pub unify_quotes: bool,
    /// Regions left alone (URL / e-mail / mention / hashtag).
    pub protect: ProtectConfig,
    /// What is done with emoji.
    pub emoji_action: EmojiAction,
    /// A prefix and suffix put around URLs; only with `protect.urls`.
    pub url_wrap: Option<(String, String)>,
}

/// A setting's value for [`Config::set`] / [`Config::get`], for settings
/// addressed by name (bindings, command lines, setting files). The names are
/// in [`Config::KEYS`].
#[derive(Debug, Clone, PartialEq, Eq)]
pub enum ConfigValue {
    /// A flag.
    Bool(bool),
    /// A count (`repeat_limit`).
    Int(usize),
    /// A string (`kana`, `case`, `cjk_spacing`, `emoji`, `emoji_placeholder`).
    Str(String),
    /// A pair of strings (the prefix and suffix of `url_wrap`).
    Pair(String, String),
    /// Not set (`repeat_limit`, `emoji_placeholder`, `url_wrap` off).
    Unset,
}

impl From<bool> for ConfigValue {
    fn from(v: bool) -> (r: Self) {
        ConfigValue::Bool(v)
    }
}

impl vstd::std_specs::convert::FromSpecImpl<bool> for ConfigValue {
    open spec fn obeys_from_spec() -> bool {
        true
    }

    open spec fn from_spec(v: bool) -> Self {
        ConfigValue::Bool(v)
    }
}

impl From<usize> for ConfigValue {
    fn from(v: usize) -> (r: Self) {
        ConfigValue::Int(v)
    }
}

impl vstd::std_specs::convert::FromSpecImpl<usize> for ConfigValue {
    open spec fn obeys_from_spec() -> bool {
        true
    }

    open spec fn from_spec(v: usize) -> Self {
        ConfigValue::Int(v)
    }
}

impl From<String> for ConfigValue {
    fn from(v: String) -> (r: Self) {
        ConfigValue::Str(v)
    }
}

impl vstd::std_specs::convert::FromSpecImpl<String> for ConfigValue {
    open spec fn obeys_from_spec() -> bool {
        true
    }

    open spec fn from_spec(v: String) -> Self {
        ConfigValue::Str(v)
    }
}

/// A string value (see [`ConfigValue::from_str_value`]).
impl<'a> From<&'a str> for ConfigValue {
    fn from(v: &'a str) -> (r: Self) {
        ConfigValue::from_str_value(v)
    }
}

/// A `String` cannot be named in a specification by its characters, so the
/// conversion from `&str` states nothing here; [`ConfigValue::from_str_value`]
/// states what it returns.
impl<'a> vstd::std_specs::convert::FromSpecImpl<&'a str> for ConfigValue {
    open spec fn obeys_from_spec() -> bool {
        false
    }

    open spec fn from_spec(v: &'a str) -> Self {
        ConfigValue::Unset
    }
}

impl ConfigValue {
    /// A [`ConfigValue::Str`] holding the characters of `v`.
    pub fn from_str_value(v: &str) -> (r: Self)
        ensures
            r matches ConfigValue::Str(s) && s@ == v@,
    {
        ConfigValue::Str(v.to_owned())
    }
}

/// A setting's value as plain values (strings by their characters).
pub enum ValueView {
    /// A flag.
    Bool(bool),
    /// A count.
    Int(usize),
    /// A string.
    Str(Seq<char>),
    /// A pair of strings.
    Pair(Seq<char>, Seq<char>),
    /// Not set.
    Nothing,
}

/// The plain-value view of a setting's value.
pub open spec fn value_view(v: ConfigValue) -> ValueView {
    match v {
        ConfigValue::Bool(b) => ValueView::Bool(b),
        ConfigValue::Int(n) => ValueView::Int(n),
        ConfigValue::Str(s) => ValueView::Str(s@),
        ConfigValue::Pair(p, s) => ValueView::Pair(p@, s@),
        ConfigValue::Unset => ValueView::Nothing,
    }
}

/// An error of [`Config::set`] / [`Config::validate`].
#[derive(Debug, Clone, PartialEq, Eq)]
#[non_exhaustive]
pub enum ConfigError {
    /// No setting has this name.
    UnknownKey(String),
    /// The value has the wrong type.
    WrongType {
        /// The setting's name.
        key: &'static str,
        /// What type is expected.
        expected: &'static str,
    },
    /// The type is right but the value is not, or settings contradict each other.
    InvalidValue {
        /// The setting's name.
        key: &'static str,
        /// What is wrong.
        message: String,
    },
}

/// An error of [`Config::set`] for a known key, as plain values: the
/// expected type, or what is wrong with the value.
pub enum SetErrorView {
    /// The value has the wrong type; the expected type.
    WrongType(Seq<char>),
    /// The value is not accepted; the message.
    InvalidValue(Seq<char>),
}

/// The message of a [`ConfigError`].
pub open spec fn config_error_message(e: ConfigError) -> Seq<char> {
    match e {
        ConfigError::UnknownKey(k) => "unknown option "@ + debug_quoted(k@),
        ConfigError::WrongType { key, expected } => "option "@ + debug_quoted(key@)
            + " must be "@ + expected@,
        ConfigError::InvalidValue { key, message } => "option "@ + debug_quoted(key@) + ": "@
            + message@,
    }
}

impl ConfigError {
    /// The error's message (what `Display` shows).
    pub fn to_string(&self) -> (r: String)
        ensures
            r@ == config_error_message(*self),
    {
        let mut out: Vec<char> = Vec::new();
        match self {
            ConfigError::UnknownKey(k) => {
                push_str(&mut out, "unknown option ");
                let q = debug_str(k.as_str());
                push_str(&mut out, q.as_str());
            },
            ConfigError::WrongType { key, expected } => {
                push_str(&mut out, "option ");
                let q = debug_str(key);
                push_str(&mut out, q.as_str());
                push_str(&mut out, " must be ");
                push_str(&mut out, expected);
            },
            ConfigError::InvalidValue { key, message } => {
                push_str(&mut out, "option ");
                let q = debug_str(key);
                push_str(&mut out, q.as_str());
                push_str(&mut out, ": ");
                push_str(&mut out, message.as_str());
            },
        }
        proof {
            assert(out@ =~= config_error_message(*self));
        }
        string_of(&out)
    }
}

/// A preset's name reads back as that preset: `name.parse::<Preset>()` gives
/// the preset whose `as_str()` it was.
pub proof fn lemma_preset_name_roundtrip(p: Preset)
    ensures
        preset_named(preset_name(p)) == Some(p),
{
    reveal_strlit("none");
    reveal_strlit("neologdn_compat");
    reveal_strlit("for_search");
    reveal_strlit("for_display");
    reveal_strlit("for_compare");
    assert("none"@.len() == 4);
    assert("neologdn_compat"@.len() == 15);
    assert("for_search"@.len() == 10);
    assert("for_display"@.len() == 11);
    assert("for_compare"@.len() == 11);
    assert("for_display"@[4] != "for_compare"@[4]);
}

} // verus!
