//! The ways in which the bytes of a connection can fail to be a request.

use vstd::prelude::*;

verus! {

/// Why a request could not be read.
#[derive(Debug, PartialEq, Eq)]
pub enum ParseError {
    /// The request line has fewer than three tokens.
    MalformedRequestLine,
    /// The first token of the request line, as sent, names no known method.
    UnknownMethod(Vec<u8>),
    /// A header line holds no `": "`.
    MissingHeaderSeparator,
    /// The `content-length` value is no number that fits in `usize`, or the
    /// request announces a transfer encoding without a content length.
    InvalidContentLength,
    /// The stream ended before the announced body length was reached.
    TruncatedBody,
}

/// The mathematical value of a `ParseError`.
pub ghost enum ParseFailure {
    MalformedRequestLine,
    UnknownMethod(Seq<u8>),
    MissingHeaderSeparator,
    InvalidContentLength,
    TruncatedBody,
}

impl View for ParseError {
    type V = ParseFailure;

    open spec fn view(&self) -> ParseFailure {
        match self {
            ParseError::MalformedRequestLine => ParseFailure::MalformedRequestLine,
            ParseError::UnknownMethod(text) => ParseFailure::UnknownMethod(text@),
            ParseError::MissingHeaderSeparator => ParseFailure::MissingHeaderSeparator,
            ParseError::InvalidContentLength => ParseFailure::InvalidContentLength,
            ParseError::TruncatedBody => ParseFailure::TruncatedBody,
        }
    }
}

} // verus!
