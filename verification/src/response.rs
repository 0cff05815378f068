//! Response encoding: a status line, the headers in insertion order, a
//! blank line, then the body bytes verbatim.
//!
//! No `Content-Length` header is added and no header content is checked:
//! a caller that needs the header sets it before encoding.

use vstd::prelude::*;
use vstd::utf8::{encode_utf8, is_ascii_chars, is_ascii_chars_encode_utf8};
use crate::num::{dec_str, u64_to_string};
use crate::strmap::StrMap;
use crate::wire::{extract_body, lemma_terminator_pos_unique, terminator_at};

verus! {

/// An outgoing response.  Mutable until serialized; serialization
/// consumes it.
#[derive(Debug)]
pub struct Response {
    /// The status code put on the status line, 0 through 599 expected.
    pub status_code: u16,
    /// The headers, serialized in insertion order.
    pub headers: StrMap,
    /// The body bytes, appended verbatim.
    pub body: Vec<u8>,
}

/// The reason phrase of a status code; codes outside the fixed table get
/// `No Reason Phrase`.
pub open spec fn reason_chars(code: u16) -> Seq<char> {
    if code == 200 {
        "OK"@
    } else if code == 400 {
        "Bad Request"@
    } else if code == 401 {
        "Unauthorized"@
    } else if code == 403 {
        "Forbidden"@
    } else if code == 404 {
        "Not Found"@
    } else if code == 500 {
        "Internal Server Error"@
    } else {
        "No Reason Phrase"@
    }
}

/// The status line: `HTTP/1.1`, the code in decimal, its reason phrase,
/// then CR LF.
pub open spec fn status_line_chars(code: u16) -> Seq<char> {
    "HTTP/1.1 "@ + dec_str(code as nat) + " "@ + reason_chars(code) + "\r\n"@
}

/// One serialized header line: `key: value` then CR LF.
pub open spec fn header_line_chars(p: (Seq<char>, Seq<char>)) -> Seq<char> {
    p.0 + ": "@ + p.1 + "\r\n"@
}

/// The serialized header block, one line per entry, in order.
pub open spec fn header_block_chars(ps: Seq<(Seq<char>, Seq<char>)>) -> Seq<char>
    decreases ps.len(),
{
    if ps.len() == 0 {
        Seq::empty()
    } else {
        header_block_chars(ps.drop_last()) + header_line_chars(ps.last())
    }
}

/// The whole encoded response: the UTF-8 bytes of status line, header
/// block and blank line, then the body bytes verbatim.
pub open spec fn spec_encode_response(
    code: u16,
    ps: Seq<(Seq<char>, Seq<char>)>,
    body: Seq<u8>,
) -> Seq<u8> {
    encode_utf8(status_line_chars(code) + header_block_chars(ps) + "\r\n"@) + body
}

impl Response {
    /// A response with the given status code, no headers and an empty body.
    pub fn from(status_code: u16) -> (r: Response)
        ensures
            r.status_code == status_code,
            r.headers@ == Map::<Seq<char>, Seq<char>>::empty(),
            r.headers.pair_seq() == Seq::<(Seq<char>, Seq<char>)>::empty(),
            r.body@ == Seq::<u8>::empty(),
    {
        Response { status_code, headers: StrMap::new(), body: Vec::new() }
    }

    /// The reason phrase of a status code.
    pub fn reason_phrase(status_code: u16) -> (r: String)
        ensures
            r@ == reason_chars(status_code),
    {
        if status_code == 200 {
            String::from_str("OK")
        } else if status_code == 400 {
            String::from_str("Bad Request")
        } else if status_code == 401 {
            String::from_str("Unauthorized")
        } else if status_code == 403 {
            String::from_str("Forbidden")
        } else if status_code == 404 {
            String::from_str("Not Found")
        } else if status_code == 500 {
            String::from_str("Internal Server Error")
        } else {
            String::from_str("No Reason Phrase")
        }
    }

    /// Serialize the response into its wire bytes.  Nothing about the
    /// contents is checked: headers or codes that make no sense on the
    /// wire are encoded as given.
    pub fn into_bytes(self) -> (r: Vec<u8>)
        ensures
            r@ == spec_encode_response(self.status_code, self.headers.pair_seq(), self.body@),
    {
        let Response { status_code, headers, body } = self;
        let mut head = String::from_str("HTTP/1.1 ");
        let code_str = u64_to_string(status_code as u64);
        head.append(code_str.as_str());
        head.append(" ");
        let reason = Response::reason_phrase(status_code);
        head.append(reason.as_str());
        head.append("\r\n");
        proof {
            assert(head@ =~= status_line_chars(status_code));
        }
        let ghost ps = headers.pair_seq();
        let n = headers.len();
        let mut i: usize = 0;
        proof {
            assert(ps.take(0) =~= Seq::<(Seq<char>, Seq<char>)>::empty());
        }
        while i < n
            invariant
                i <= n,
                n == ps.len(),
                ps == headers.pair_seq(),
                head@ == status_line_chars(status_code) + header_block_chars(
                    ps.take(i as int)),
            decreases n - i,
        {
            head.append(headers.key_at(i));
            head.append(": ");
            head.append(headers.val_at(i));
            head.append("\r\n");
            proof {
                assert(ps.take(i + 1).drop_last() =~= ps.take(i as int));
                assert(ps.take(i + 1).last() == ps[i as int]);
                assert(head@ =~= status_line_chars(status_code) + header_block_chars(
                    ps.take(i + 1)));
            }
            i += 1;
        }
        head.append("\r\n");
        proof {
            assert(ps.take(n as int) =~= ps);
        }
        let mut out = head.as_str().as_bytes_vec();
        let mut tail = body;
        out.append(&mut tail);
        proof {
            assert(out@ =~= spec_encode_response(status_code, ps, body@));
        }
        out
    }
}

/// Encoding a response with empty headers and then taking the bytes past
/// the first blank-line terminator of the encoding reproduces the body
/// exactly, byte for byte, whatever bytes the body holds.
pub proof fn lemma_encode_extract_round_trip(body: Seq<u8>)
    ensures
        extract_body(spec_encode_response(200, Seq::empty(), body)) == Some(body),
{
    reveal_strlit("HTTP/1.1 ");
    reveal_strlit(" ");
    reveal_strlit("OK");
    reveal_strlit("\r\n");
    let head = status_line_chars(200) + header_block_chars(Seq::empty()) + "\r\n"@;
    assert(dec_str(2) =~= seq!['2']);
    assert(dec_str(20) =~= seq!['2', '0']);
    assert(dec_str(200) =~= seq!['2', '0', '0']);
    assert(head =~= seq![
        'H', 'T', 'T', 'P', '/', '1', '.', '1', ' ', '2', '0', '0', ' ', 'O', 'K', '\r', '\n',
        '\r', '\n',
    ]);
    assert(is_ascii_chars(head));
    is_ascii_chars_encode_utf8(head);
    let e = spec_encode_response(200, Seq::empty(), body);
    assert(e.len() == 19 + body.len());
    assert(forall|idx: int| 0 <= idx < 19 ==> e[idx] == head[idx] as u8);
    assert(terminator_at(e, 15));
    assert forall|j: int| 0 <= j < 15 implies !terminator_at(e, j) by {
        assert(e[j] == head[j] as u8);
        assert(e[j + 1] == head[j + 1] as u8);
    }
    lemma_terminator_pos_unique(e, 15);
    assert(e.skip(19) =~= body);
}

} // verus!
