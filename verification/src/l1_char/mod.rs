pub mod case;
pub mod cjk_compat;
pub mod cleanup;
pub mod prolonged;
pub mod quotes;
pub mod repeat;
pub mod spaces;
pub mod spacing;
pub mod strip;
pub mod symbols;
pub mod unicode;
pub mod width;
