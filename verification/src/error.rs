use vstd::prelude::*;

verus! {

/// The ways a bencoding decode (or a typed read of a decoded value) can fail.
///
/// Every failure of the codec is terminal for the current call; no partial
/// value is returned alongside an error.
#[derive(Clone, Debug, PartialEq, Eq)]
pub enum Error {
    /// A failure outside the wire grammar, described in words: a
    /// required record field that the input does not bind, for one.
    Message(String),
    /// The input ended before a complete value was read.
    Eof,
    /// The lookahead byte announces no bencoding shape.
    Syntax,
    /// A complete value was decoded but bytes remain after it.
    TrailingCharacters,
    /// An integer token was expected and not found, or its digits are absent,
    /// or its value does not fit the requested width.
    ExpectedInteger,
    /// An integer token was not closed by `e`.
    ExpectedIntegerEnd,
    /// A byte-string token was expected, or its `:` separator is missing.
    ExpectedByteString,
    /// A byte string was read where exactly one character was expected.
    ExpectedChar,
    /// A byte string was expected, or its contents are not valid UTF-8.
    ExpectedString,
    /// A list token was expected and not found.
    ExpectedList,
    /// A dictionary token was expected and not found.
    ExpectedMap,
    /// A dictionary was not closed by `e`.
    ExpectedMapEnd,
    /// A list was not closed by `e`.
    ExpectedArrayEnd,
    /// A tagged-union value was expected: neither a byte string nor a
    /// dictionary starts at the current position.
    ExpectedEnum,
    /// A list or byte string was expected.
    ExpectedSequence,
}

} // verus!
