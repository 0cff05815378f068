//! The body-framing decision: given the decoded headers and the bytes that
//! follow the head, decide whether a body follows and read it.
//!
//! The decision mirrors the message-framing rules of RFC 7230: a message
//! carrying both `Content-Length` and `Transfer-Encoding` is rejected
//! outright to rule out request-smuggling ambiguity; `Transfer-Encoding`
//! alone is either the unsupported `chunked` mode or an unknown coding;
//! `Content-Length` alone reads exactly that many bytes.

use vstd::prelude::*;
use vstd::slice::{slice_subrange, slice_to_vec};
use crate::error::HttpError;
use crate::num::{parse_usize, spec_parse_usize};
use crate::strmap::StrMap;
use crate::text::{lower, str_eq_ignore_case};

verus! {

/// Whether the headers carry a `Content-Length` entry.
pub open spec fn has_content_length(h: Map<Seq<char>, Seq<char>>) -> bool {
    h.contains_key("Content-Length"@)
}

/// Whether the headers carry a `Transfer-Encoding` entry.
pub open spec fn has_transfer_encoding(h: Map<Seq<char>, Seq<char>>) -> bool {
    h.contains_key("Transfer-Encoding"@)
}

/// Whether the `Transfer-Encoding` value names the chunked coding,
/// compared without regard to ASCII case.
pub open spec fn te_is_chunked(h: Map<Seq<char>, Seq<char>>) -> bool {
    lower(h["Transfer-Encoding"@]) == "chunked"@
}

/// The declared body length: the `Content-Length` value read as a decimal
/// non-negative integer, `None` when it does not parse.
pub open spec fn content_length_value(h: Map<Seq<char>, Seq<char>>) -> Option<usize> {
    spec_parse_usize(h["Content-Length"@])
}

/// Decide the body framing and read the body from `rest`, the bytes that
/// arrived after the blank line.  `Ok(None)` means the message has no
/// body; `Ok(Some(b))` is exactly the first `Content-Length` bytes of
/// `rest`; every rejected header combination has its own error.
pub fn resolve_body(headers: &StrMap, rest: &[u8]) -> (r: Result<Option<Vec<u8>>, HttpError>)
    ensures
        !has_content_length(headers@) && !has_transfer_encoding(headers@)
            ==> (r matches Ok(b) && b is None),
        has_content_length(headers@) && has_transfer_encoding(headers@)
            ==> r matches Err(HttpError::AmbiguousFraming),
        !has_content_length(headers@) && has_transfer_encoding(headers@) && te_is_chunked(headers@)
            ==> r matches Err(HttpError::NotImplemented),
        !has_content_length(headers@) && has_transfer_encoding(headers@) && !te_is_chunked(headers@)
            ==> (r matches Err(HttpError::UnsupportedEncoding(t))
                && t@ == headers@["Transfer-Encoding"@]),
        has_content_length(headers@) && !has_transfer_encoding(headers@)
            ==> match content_length_value(headers@) {
                None => r matches Err(HttpError::InvalidContentLength(t))
                    && t@ == headers@["Content-Length"@],
                Some(n) => if n > rest@.len() {
                    r matches Err(HttpError::TruncatedBody)
                } else {
                    r matches Ok(b) && b matches Some(body) && body@ == rest@.take(n as int)
                },
            },
{
    let cl = headers.get("Content-Length");
    let te = headers.get("Transfer-Encoding");
    match (cl, te) {
        (None, None) => Ok(None),
        (Some(_), Some(_)) => Err(HttpError::AmbiguousFraming),
        (None, Some(encoding)) => {
            proof {
                reveal_strlit("chunked");
                assert(lower("chunked"@) =~= "chunked"@);
            }
            if str_eq_ignore_case(encoding, "chunked") {
                Err(HttpError::NotImplemented)
            } else {
                Err(HttpError::UnsupportedEncoding(encoding.to_owned()))
            }
        },
        (Some(raw_length), None) => {
            match parse_usize(raw_length) {
                None => Err(HttpError::InvalidContentLength(raw_length.to_owned())),
                Some(length) => {
                    if length > rest.len() {
                        Err(HttpError::TruncatedBody)
                    } else {
                        let body = slice_to_vec(slice_subrange(rest, 0, length));
                        proof {
                            assert(body@ =~= rest@.take(length as int));
                        }
                        Ok(Some(body))
                    }
                },
            }
        },
    }
}

} // verus!
