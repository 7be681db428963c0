pub mod era;
pub mod iteration;
pub mod kana;
pub mod loanword;
pub mod numbers;
pub mod numeral_laws;
pub mod numerals;
