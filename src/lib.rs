//! Turns JSON with comments into plain JSON: line comments, block comments
//! and redundant commas are removed, everything else is kept byte for byte.

pub mod convert;
pub mod merge;
pub mod policy;
pub mod token;

pub use convert::{jsonc_to_json, jsonc_to_json_into, jsonc_to_json_iter};
pub use merge::JsonCToJsonIter;
pub use token::{Token, TokenKind};
