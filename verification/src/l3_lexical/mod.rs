//! L3: lexical normalization.
//!
//! Spelling variants, abbreviations and old / new forms are resolved with a
//! dictionary of variant → canonical pairs. [`SynonymDict`] replaces them
//! leftmost-longest with an Aho-Corasick automaton (daachorse).
pub mod json;
pub mod synonym;

pub use synonym::{SynonymDict, SynonymDictError};
