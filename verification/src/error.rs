//! The errors a decode or encode step can surface.
//!
//! All of them are recoverable: a caller maps them to an error response
//! (or closes the connection) rather than crashing.  Variants carry the
//! offending raw text where there is one, so a diagnostic can be built.

use vstd::prelude::*;

verus! {

/// Why a request could not be decoded, or a body not be framed.
#[derive(Debug)]
pub enum HttpError {
    /// The request-line method token is not a supported verb.
    InvalidMethod(String),
    /// The request line is empty or does not hold exactly three tokens.
    MalformedRequestLine(String),
    /// The version token does not name an `HTTP/1.x` version.
    InvalidVersion(String),
    /// Both `Content-Length` and `Transfer-Encoding` are present; the
    /// message is rejected rather than guessing which one frames the body.
    AmbiguousFraming,
    /// `Transfer-Encoding` is present with a value other than `chunked`.
    UnsupportedEncoding(String),
    /// `Transfer-Encoding: chunked` was asked for; chunked bodies are an
    /// explicitly unsupported capability.
    NotImplemented,
    /// The `Content-Length` value is not a decimal non-negative integer.
    InvalidContentLength(String),
    /// Fewer body bytes are available than `Content-Length` declares.
    TruncatedBody,
    /// The head of the message is not valid UTF-8 text.
    Utf8Decode,
    /// The underlying transport failed; raised by the transport glue, never
    /// by the decoder itself.
    Io(String),
}

} // verus!
