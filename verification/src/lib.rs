//! jpnorm — Japanese text normalization: a pipeline of character,
//! script, lexical and extra steps, configured by presets and flags.
//!
//! Start from a preset ([`Normalizer::preset`]) or a builder
//! ([`Normalizer::builder`]) and call [`Normalizer::normalize`]; with the
//! `for_search` preset, `ﾊﾝｶｸｶﾅ　と  全角  ！！` becomes `ハンカクカナ と 全角 !!`.
use vstd::prelude::*;

pub mod config;
pub mod dict;
pub mod distance;
pub mod l1_char;
pub mod l2_script;
pub mod l3_lexical;
pub mod l4_extra;
pub mod pipeline;
pub mod text;

pub use config::{Config, ConfigError, ConfigValue, ParsePresetError, Preset};
pub use dict::{load_sudachi_synonyms, SudachiParseError};
pub use l1_char::case::CaseAction;
pub use l1_char::spacing::CjkSpacing;
pub use l2_script::kana::KanaAction;
pub use l3_lexical::{SynonymDict, SynonymDictError};
pub use l4_extra::emoji::EmojiAction;
pub use l4_extra::protect::{Kind as ProtectKind, ProtectConfig};
pub use pipeline::{NormalizedText, Normalizer, NormalizerBuilder, Segment};
