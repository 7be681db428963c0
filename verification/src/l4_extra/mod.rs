pub mod emoji;
pub mod protect;
