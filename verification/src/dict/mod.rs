//! Dictionary loaders.
//!
//! For now, a reader of Sudachi's synonym dictionary (`synonyms.txt`), whose
//! data is obtained from SudachiDict (Apache-2.0).
pub mod sudachi;

pub use sudachi::{load_sudachi_synonyms, SudachiParseError};
