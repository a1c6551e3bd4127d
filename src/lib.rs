//! Semantic Versioning 2.0.0: parsing version text, precedence, and canonical formatting.
pub mod text;
pub mod version;
pub mod grammar;
mod parser;
pub mod format;
pub mod laws;

pub use grammar::ParseError;
pub use version::{Identifier, Ordering, Version};
