//! The named presets.
use vstd::prelude::*;
use crate::config::{Config, Preset};
use crate::l1_char::case::CaseAction;
use crate::l1_char::spacing::CjkSpacing;
use crate::l2_script::kana::KanaAction;
use crate::l4_extra::emoji::EmojiAction;
use crate::l4_extra::protect::ProtectConfig;

verus! {

/// The `none` settings: changes nothing.
pub open spec fn none_spec() -> Config {
    Config {
        normalize_newlines: false,
        remove_zero_width: false,
        remove_control: false,
        remove_bidi_control: false,
        kansuji_to_arabic: false,
        arabic_to_kansuji: false,
        canonicalize_numbers: false,
        nfkc: false,
        halfwidth_kana_to_fullwidth: false,
        kana: KanaAction::Keep,
        kyujitai_to_shinjitai: false,
        unify_itaiji: false,
        remove_variation_selectors: false,
        expand_iteration_marks: false,
        unify_loanword_kana: false,
        strip_trailing_prolonged: false,
        case: CaseAction::Keep,
        cjk_spacing: CjkSpacing::Keep,
        era_to_western: false,
        unify_hyphens: false,
        unify_tildes: false,
        unify_prolonged: false,
        collapse_prolonged_run: false,
        repeat_limit: None,
        collapse_spaces: false,
        trim: false,
        expand_cjk_compat: false,
        remove_symbols: false,
        remove_cjk_compat: false,
        unify_quotes: false,
        protect: ProtectConfig { urls: false, emails: false, mentions: false, hashtags: false },
        emoji_action: EmojiAction::Keep,
        url_wrap: None,
    }
}

/// The `neologdn_compat` settings: close to neologdn: the usual character-level normalization.
pub open spec fn neologdn_compat_spec() -> Config {
    Config {
        normalize_newlines: true,
        remove_zero_width: true,
        remove_control: true,
        remove_bidi_control: true,
        kansuji_to_arabic: false,
        arabic_to_kansuji: false,
        canonicalize_numbers: false,
        nfkc: true,
        halfwidth_kana_to_fullwidth: true,
        kana: KanaAction::Keep,
        kyujitai_to_shinjitai: false,
        unify_itaiji: false,
        remove_variation_selectors: false,
        expand_iteration_marks: false,
        unify_loanword_kana: false,
        strip_trailing_prolonged: false,
        case: CaseAction::Keep,
        cjk_spacing: CjkSpacing::Keep,
        era_to_western: false,
        unify_hyphens: true,
        unify_tildes: true,
        unify_prolonged: true,
        collapse_prolonged_run: true,
        repeat_limit: None,
        collapse_spaces: true,
        trim: true,
        expand_cjk_compat: false,
        remove_symbols: false,
        remove_cjk_compat: false,
        unify_quotes: false,
        protect: ProtectConfig { urls: false, emails: false, mentions: false, hashtags: false },
        emoji_action: EmojiAction::Keep,
        url_wrap: None,
    }
}

/// The `for_search` settings: for search indexes: NFKC and aggressive unification.
pub open spec fn for_search_spec() -> Config {
    Config {
        normalize_newlines: true,
        remove_zero_width: true,
        remove_control: true,
        remove_bidi_control: true,
        kansuji_to_arabic: false,
        arabic_to_kansuji: false,
        canonicalize_numbers: false,
        nfkc: true,
        halfwidth_kana_to_fullwidth: true,
        kana: KanaAction::Keep,
        kyujitai_to_shinjitai: true,
        unify_itaiji: true,
        remove_variation_selectors: true,
        expand_iteration_marks: true,
        unify_loanword_kana: true,
        strip_trailing_prolonged: true,
        case: CaseAction::Lower,
        cjk_spacing: CjkSpacing::Keep,
        era_to_western: true,
        unify_hyphens: true,
        unify_tildes: true,
        unify_prolonged: true,
        collapse_prolonged_run: true,
        repeat_limit: Some(2),
        collapse_spaces: true,
        trim: true,
        expand_cjk_compat: true,
        remove_symbols: false,
        remove_cjk_compat: false,
        unify_quotes: true,
        protect: ProtectConfig { urls: true, emails: true, mentions: true, hashtags: true },
        emoji_action: EmojiAction::Remove,
        url_wrap: None,
    }
}

/// The `for_display` settings: for display: the least that does not change how the text looks.
pub open spec fn for_display_spec() -> Config {
    Config {
        normalize_newlines: false,
        remove_zero_width: false,
        remove_control: false,
        remove_bidi_control: false,
        kansuji_to_arabic: false,
        arabic_to_kansuji: false,
        canonicalize_numbers: false,
        nfkc: false,
        halfwidth_kana_to_fullwidth: true,
        kana: KanaAction::Keep,
        kyujitai_to_shinjitai: false,
        unify_itaiji: false,
        remove_variation_selectors: false,
        expand_iteration_marks: false,
        unify_loanword_kana: false,
        strip_trailing_prolonged: false,
        case: CaseAction::Keep,
        cjk_spacing: CjkSpacing::Keep,
        era_to_western: false,
        unify_hyphens: false,
        unify_tildes: false,
        unify_prolonged: true,
        collapse_prolonged_run: false,
        repeat_limit: None,
        collapse_spaces: false,
        trim: true,
        expand_cjk_compat: false,
        remove_symbols: false,
        remove_cjk_compat: false,
        unify_quotes: false,
        protect: ProtectConfig { urls: false, emails: false, mentions: false, hashtags: false },
        emoji_action: EmojiAction::Keep,
        url_wrap: None,
    }
}

/// The `for_compare` settings: for comparison and duplicate detection: `for_search` and more information dropped to make equal texts equal (kanji numerals to digits, symbols and compatibility characters removed, no URL protection).
pub open spec fn for_compare_spec() -> Config {
    Config {
        normalize_newlines: true,
        remove_zero_width: true,
        remove_control: true,
        remove_bidi_control: true,
        kansuji_to_arabic: true,
        arabic_to_kansuji: false,
        canonicalize_numbers: true,
        nfkc: true,
        halfwidth_kana_to_fullwidth: true,
        kana: KanaAction::Keep,
        kyujitai_to_shinjitai: true,
        unify_itaiji: true,
        remove_variation_selectors: true,
        expand_iteration_marks: true,
        unify_loanword_kana: true,
        strip_trailing_prolonged: true,
        case: CaseAction::Lower,
        cjk_spacing: CjkSpacing::Remove,
        era_to_western: true,
        unify_hyphens: true,
        unify_tildes: true,
        unify_prolonged: true,
        collapse_prolonged_run: true,
        repeat_limit: Some(1),
        collapse_spaces: true,
        trim: true,
        expand_cjk_compat: true,
        remove_symbols: true,
        remove_cjk_compat: true,
        unify_quotes: true,
        protect: ProtectConfig { urls: false, emails: false, mentions: false, hashtags: false },
        emoji_action: EmojiAction::Remove,
        url_wrap: None,
    }
}

/// The settings of a preset.
pub open spec fn preset_spec(p: Preset) -> Config {
    match p {
        Preset::Noop => none_spec(),
        Preset::NeologdnCompat => neologdn_compat_spec(),
        Preset::ForSearch => for_search_spec(),
        Preset::ForDisplay => for_display_spec(),
        Preset::ForCompare => for_compare_spec(),
    }
}

impl Config {
    /// Changes nothing.
    pub fn none() -> (r: Self)
        ensures
            r == none_spec(),
    {
        Config {
            normalize_newlines: false,
            remove_zero_width: false,
            remove_control: false,
            remove_bidi_control: false,
            kansuji_to_arabic: false,
            arabic_to_kansuji: false,
            canonicalize_numbers: false,
            nfkc: false,
            halfwidth_kana_to_fullwidth: false,
            kana: KanaAction::Keep,
            kyujitai_to_shinjitai: false,
            unify_itaiji: false,
            remove_variation_selectors: false,
            expand_iteration_marks: false,
            unify_loanword_kana: false,
            strip_trailing_prolonged: false,
            case: CaseAction::Keep,
            cjk_spacing: CjkSpacing::Keep,
            era_to_western: false,
            unify_hyphens: false,
            unify_tildes: false,
            unify_prolonged: false,
            collapse_prolonged_run: false,
            repeat_limit: None,
            collapse_spaces: false,
            trim: false,
            expand_cjk_compat: false,
            remove_symbols: false,
            remove_cjk_compat: false,
            unify_quotes: false,
            protect: ProtectConfig::none(),
            emoji_action: EmojiAction::Keep,
            url_wrap: None,
        }
    }

    /// Close to neologdn: the usual character-level normalization.
    pub fn neologdn_compat() -> (r: Self)
        ensures
            r == neologdn_compat_spec(),
    {
        Config {
            normalize_newlines: true,
            remove_zero_width: true,
            remove_control: true,
            remove_bidi_control: true,
            kansuji_to_arabic: false,
            arabic_to_kansuji: false,
            canonicalize_numbers: false,
            nfkc: true,
            halfwidth_kana_to_fullwidth: true,
            kana: KanaAction::Keep,
            kyujitai_to_shinjitai: false,
            unify_itaiji: false,
            remove_variation_selectors: false,
            expand_iteration_marks: false,
            unify_loanword_kana: false,
            strip_trailing_prolonged: false,
            case: CaseAction::Keep,
            cjk_spacing: CjkSpacing::Keep,
            era_to_western: false,
            unify_hyphens: true,
            unify_tildes: true,
            unify_prolonged: true,
            collapse_prolonged_run: true,
            repeat_limit: None,
            collapse_spaces: true,
            trim: true,
            expand_cjk_compat: false,
            remove_symbols: false,
            remove_cjk_compat: false,
            unify_quotes: false,
            protect: ProtectConfig::none(),
            emoji_action: EmojiAction::Keep,
            url_wrap: None,
        }
    }

    /// For search indexes: NFKC and aggressive unification.
    pub fn for_search() -> (r: Self)
        ensures
            r == for_search_spec(),
    {
        Config {
            normalize_newlines: true,
            remove_zero_width: true,
            remove_control: true,
            remove_bidi_control: true,
            kansuji_to_arabic: false,
            arabic_to_kansuji: false,
            canonicalize_numbers: false,
            nfkc: true,
            halfwidth_kana_to_fullwidth: true,
            kana: KanaAction::Keep,
            kyujitai_to_shinjitai: true,
            unify_itaiji: true,
            remove_variation_selectors: true,
            expand_iteration_marks: true,
            unify_loanword_kana: true,
            strip_trailing_prolonged: true,
            case: CaseAction::Lower,
            cjk_spacing: CjkSpacing::Keep,
            era_to_western: true,
            unify_hyphens: true,
            unify_tildes: true,
            unify_prolonged: true,
            collapse_prolonged_run: true,
            repeat_limit: Some(2),
            collapse_spaces: true,
            trim: true,
            expand_cjk_compat: true,
            remove_symbols: false,
            remove_cjk_compat: false,
            unify_quotes: true,
            protect: ProtectConfig::all(),
            emoji_action: EmojiAction::Remove,
            url_wrap: None,
        }
    }

    /// For display: the least that does not change how the text looks.
    pub fn for_display() -> (r: Self)
        ensures
            r == for_display_spec(),
    {
        Config {
            normalize_newlines: false,
            remove_zero_width: false,
            remove_control: false,
            remove_bidi_control: false,
            kansuji_to_arabic: false,
            arabic_to_kansuji: false,
            canonicalize_numbers: false,
            nfkc: false,
            halfwidth_kana_to_fullwidth: true,
            kana: KanaAction::Keep,
            kyujitai_to_shinjitai: false,
            unify_itaiji: false,
            remove_variation_selectors: false,
            expand_iteration_marks: false,
            unify_loanword_kana: false,
            strip_trailing_prolonged: false,
            case: CaseAction::Keep,
            cjk_spacing: CjkSpacing::Keep,
            era_to_western: false,
            unify_hyphens: false,
            unify_tildes: false,
            unify_prolonged: true,
            collapse_prolonged_run: false,
            repeat_limit: None,
            collapse_spaces: false,
            trim: true,
            expand_cjk_compat: false,
            remove_symbols: false,
            remove_cjk_compat: false,
            unify_quotes: false,
            protect: ProtectConfig::none(),
            emoji_action: EmojiAction::Keep,
            url_wrap: None,
        }
    }

    /// For comparison and duplicate detection: `for_search` and more information dropped to make equal texts equal (kanji numerals to digits, symbols and compatibility characters removed, no URL protection).
    pub fn for_compare() -> (r: Self)
        ensures
            r == for_compare_spec(),
    {
        Config {
            normalize_newlines: true,
            remove_zero_width: true,
            remove_control: true,
            remove_bidi_control: true,
            kansuji_to_arabic: true,
            arabic_to_kansuji: false,
            canonicalize_numbers: true,
            nfkc: true,
            halfwidth_kana_to_fullwidth: true,
            kana: KanaAction::Keep,
            kyujitai_to_shinjitai: true,
            unify_itaiji: true,
            remove_variation_selectors: true,
            expand_iteration_marks: true,
            unify_loanword_kana: true,
            strip_trailing_prolonged: true,
            case: CaseAction::Lower,
            cjk_spacing: CjkSpacing::Remove,
            era_to_western: true,
            unify_hyphens: true,
            unify_tildes: true,
            unify_prolonged: true,
            collapse_prolonged_run: true,
            repeat_limit: Some(1),
            collapse_spaces: true,
            trim: true,
            expand_cjk_compat: true,
            remove_symbols: true,
            remove_cjk_compat: true,
            unify_quotes: true,
            protect: ProtectConfig::none(),
            emoji_action: EmojiAction::Remove,
            url_wrap: None,
        }
    }

    /// The settings of `preset`.
    pub fn from_preset(preset: Preset) -> (r: Self)
        ensures
            r == preset_spec(preset),
    {
        match preset {
            Preset::Noop => Self::none(),
            Preset::NeologdnCompat => Self::neologdn_compat(),
            Preset::ForSearch => Self::for_search(),
            Preset::ForDisplay => Self::for_display(),
            Preset::ForCompare => Self::for_compare(),
        }
    }
}

impl Default for Config {
    fn default() -> (r: Self)
        ensures
            r == neologdn_compat_spec(),
    {
        Self::neologdn_compat()
    }
}

} // verus!
