//! Operations on text, stated over sequences of characters.

pub mod chars;
pub mod number;
pub mod pieces;
pub mod search;
pub mod trim;
pub mod unicode;
