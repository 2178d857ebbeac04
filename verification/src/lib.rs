//! A word filter that reports the first listed word a phrase holds as a whole word.

pub mod filter;
pub mod text;
pub mod types;
