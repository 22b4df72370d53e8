//! The ways in which a synchronisation can go wrong.

use vstd::prelude::*;

verus! {

/// Why a payload was refused.
#[derive(Debug, Clone, Copy, PartialEq, Eq, Structural)]
pub enum ParseError {
    /// The text is no JSON document, or its outer shape is not the expected
    /// container.
    Document,
    /// The card at this position of the payload has no usable identifier.
    CardId(usize),
}

/// Why a cache file was refused.
#[derive(Debug, Clone, Copy, PartialEq, Eq, Structural)]
pub enum DecodeError {
    /// The bytes end before the catalog does.
    Truncated,
    /// A byte that marks an optional field is neither 0 nor 1.
    BadTag,
    /// The bytes of a string are not UTF-8.
    BadText,
    /// Bytes are left over after the catalog.
    Trailing,
}

/// What stopped a step of a synchronisation.
#[derive(Debug, Clone, Copy, PartialEq, Eq, Structural)]
pub enum Error {
    /// A request failed, or was answered without success.
    Network,
    /// A payload did not have the expected shape.
    Parse(ParseError),
    /// A file could not be read, written, copied or renamed.
    Io,
}

} // verus!
