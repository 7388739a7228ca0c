//! The ways in which decoding a text can fail.

use vstd::prelude::*;

verus! {

/// Why an encoded text has no decoded form.
#[derive(Debug, Clone, Copy, PartialEq, Eq, Structural)]
pub enum DecodeError {
    /// An encoded word does not have its three fields.
    Syntax,
    /// The encoding of an encoded word is neither B nor Q.
    Encoding,
    /// The two bytes after an equals sign are not text.
    Escape,
    /// The bytes do not come in pairs.
    OddLength,
    /// A surrogate stands without its partner.
    Surrogate,
    /// The bytes are too many for the character set's decoder.
    TooLong,
}

} // verus!
