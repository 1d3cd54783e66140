//! Range types over text offsets.

pub mod range;

pub use range::{TextRange, TextRange1};
