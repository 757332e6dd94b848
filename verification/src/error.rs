//! The errors that the library reports.

use vstd::prelude::*;

verus! {

/// Why a text could not be decoded as hexadecimal digits.
#[derive(Clone, Copy, Debug, PartialEq, Eq)]
pub enum HexError {
    /// The byte `c` at position `index` is not a hexadecimal digit.
    InvalidHexCharacter { c: char, index: usize },
    /// The text has an odd number of bytes.
    OddLength,
    /// The text does not fill a container of fixed size.
    InvalidStringLength,
}

/// Why a byte string could not be read as a multihash.
#[derive(Clone, Copy, Debug, PartialEq, Eq)]
pub enum MultihashError {
    /// The hash function is known but not supported.
    UnsupportedType,
    /// The input is empty, or its length does not fit its hash function.
    BadInputLength,
    /// The first byte names no known hash function.
    UnknownCode,
}

/// Why the address of the store's API could not be used.
#[derive(Clone, Copy, Debug, PartialEq, Eq)]
pub enum ApiError {
    /// The address is not of the form `/ip4/<ip>/tcp/<port>`.
    MalformedAddress,
    /// No data directory is configured and no home directory is known.
    NoHomeDirectory,
    /// No URL can be made of the base URL, the command and the parameters
    /// of a request.
    InvalidUrl,
}

/// An error of the synchronisation engine.
#[derive(Clone, Debug, PartialEq, Eq)]
pub enum Error {
    /// The store's API could not be addressed.
    ApiError(ApiError),
    /// A digest given as text is not hexadecimal.
    FromHexError(HexError),
    /// A link does not hold a multihash.
    MultihashError(MultihashError),
    /// A digest does not have the length of an object identifier; the value
    /// is the length found.
    InvalidDigestLength(usize),
    /// An object could not be compressed.
    CompressionFailed,
    /// A command line is not part of the protocol; the value is the line.
    InvalidCommand(String),
    /// A state machine was resumed with an event that does not answer the
    /// action it had handed out.
    UnexpectedEvent,
}

/// The mathematical form of an [`Error`]: a command line is the sequence of
/// its characters.
pub enum ErrorView {
    ApiError(ApiError),
    FromHexError(HexError),
    MultihashError(MultihashError),
    InvalidDigestLength(usize),
    CompressionFailed,
    InvalidCommand(Seq<char>),
    UnexpectedEvent,
}

impl View for Error {
    type V = ErrorView;

    open spec fn view(&self) -> ErrorView {
        match self {
            Error::ApiError(e) => ErrorView::ApiError(*e),
            Error::FromHexError(e) => ErrorView::FromHexError(*e),
            Error::MultihashError(e) => ErrorView::MultihashError(*e),
            Error::InvalidDigestLength(n) => ErrorView::InvalidDigestLength(*n),
            Error::CompressionFailed => ErrorView::CompressionFailed,
            Error::InvalidCommand(line) => ErrorView::InvalidCommand(line@),
            Error::UnexpectedEvent => ErrorView::UnexpectedEvent,
        }
    }
}

} // verus!
