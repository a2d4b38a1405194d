//! Pipeline steps over raw and RGB images.

pub mod cfa;
pub mod opcodes;
pub mod tonemap;
