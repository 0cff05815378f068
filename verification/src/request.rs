//! Request decoding: the request line, the URL and its query string, the
//! version token, the header block, and the assembly of a whole [`Request`]
//! from head lines and the bytes that follow them.

use vstd::prelude::*;
use vstd::slice::slice_subrange;
use vstd::utf8::{decode_utf8, encode_utf8_decode_utf8, valid_utf8};
use crate::error::HttpError;
use crate::framing::{
    content_length_value, has_content_length, has_transfer_encoding, resolve_body, te_is_chunked,
};
use crate::headers::{header_pairs, lemma_header_pairs_take_to_blank, parse_headers,
    spec_header_map};
use crate::method::Method;
use crate::num::{digit_val, is_digit};
use crate::query::{parse_query, spec_query_map};
use crate::strmap::StrMap;
use crate::text::{bytes_as_str, find_char_from, split_crlf, split_crlf_exec, split_first_at,
    split_whitespace_exec, str_eq, ws_tokens};
use crate::wire::{find_terminator, lemma_terminator_pos, terminator_pos};

verus! {

/// A decoded request.  Built whole by one decode call and never partially
/// valid: a failing decode hands back an error, not a half-filled value.
#[derive(Debug)]
pub struct Request {
    /// The body bytes, when the framing headers declared a body.
    pub body: Option<Vec<u8>>,
    /// The header mapping, keys exactly as they arrived.
    pub headers: StrMap,
    /// The query-string mapping from the request target.
    pub query: StrMap,
    /// The path part of the request target; never empty.
    pub path: String,
    /// The request verb.
    pub method: Method,
    /// The minor version `x` of `HTTP/1.x`.
    pub http_ver: u8,
}

/// The target split at its first `?`: `(path part, query part)`.  A target
/// without `?` is all path; the query part is then empty.
pub open spec fn spec_url_split(s: Seq<char>) -> (Seq<char>, Seq<char>) {
    match split_first_at(s, '?') {
        Some(p) => p,
        None => (s, Seq::empty()),
    }
}

/// The path of a target: the part before the first `?`, with an empty path
/// standing in for `/`.
pub open spec fn spec_url_path(s: Seq<char>) -> Seq<char> {
    let p = spec_url_split(s).0;
    if p.len() == 0 {
        "/"@
    } else {
        p
    }
}

/// The raw query string of a target: the part after the first `?`.
pub open spec fn spec_url_query(s: Seq<char>) -> Seq<char> {
    spec_url_split(s).1
}

/// The minor version a version token denotes: the token must start with
/// the literal `HTTP/1.` and its final character must be a decimal digit,
/// which alone is the version.  (`HTTP/1.10` thus reads as minor version
/// `0`; the quirk is deliberate and tested.)  `None` for every other token.
pub open spec fn spec_version(s: Seq<char>) -> Option<u8> {
    if s.len() >= 7 && s.take(7) == "HTTP/1."@ && is_digit(s.last()) {
        Some(digit_val(s.last()) as u8)
    } else {
        None
    }
}

/// The head bytes of a received buffer: everything before the first
/// blank-line terminator, or the whole buffer if it has none.
pub open spec fn spec_head_bytes(buf: Seq<u8>) -> Seq<u8> {
    buf.take(terminator_pos(buf) as int)
}

/// The bytes of a received buffer after the blank-line terminator; empty
/// if the buffer has no terminator.
pub open spec fn spec_rest_bytes(buf: Seq<u8>) -> Seq<u8> {
    if terminator_pos(buf) + 4 <= buf.len() {
        buf.skip(terminator_pos(buf) as int + 4)
    } else {
        Seq::empty()
    }
}

/// The request line: the first of the head lines, empty if there is none.
pub open spec fn first_line(lv: Seq<Seq<char>>) -> Seq<char> {
    if lv.len() > 0 {
        lv[0]
    } else {
        Seq::empty()
    }
}

/// Whether the request line is present and holds exactly three
/// whitespace-separated tokens.
pub open spec fn head_shape_ok(lv: Seq<Seq<char>>) -> bool {
    first_line(lv).len() > 0 && ws_tokens(first_line(lv)).len() == 3
}

/// Whether the whole head parses: shape, method and version.
pub open spec fn head_ok(lv: Seq<Seq<char>>) -> bool {
    let toks = ws_tokens(first_line(lv));
    head_shape_ok(lv) && Method::spec_of(toks[0]) is Some && spec_version(toks[2]) is Some
}

/// Whether `req` holds exactly what the head lines say: the method and
/// version of the request line, the split target, and the header block.
pub open spec fn req_matches_head(req: Request, lv: Seq<Seq<char>>) -> bool {
    let toks = ws_tokens(first_line(lv));
    &&& Method::spec_of(toks[0]) == Some(req.method)
    &&& req.path@ == spec_url_path(toks[1])
    &&& req.query@ == spec_query_map(spec_url_query(toks[1]))
    &&& spec_version(toks[2]) == Some(req.http_ver)
    &&& req.headers@ == spec_header_map(lv.skip(1))
}

/// What decoding head lines `lv` with trailing bytes `rest` must return:
/// each rejected input with its error, and each accepted input with the
/// request it denotes.  The cases cover every input.
pub open spec fn decode_ensures(
    lv: Seq<Seq<char>>,
    rest: Seq<u8>,
    r: Result<Request, HttpError>,
) -> bool {
    let line0 = first_line(lv);
    let toks = ws_tokens(line0);
    let hm = spec_header_map(lv.skip(1));
    &&& (line0.len() == 0
        ==> (r matches Err(HttpError::MalformedRequestLine(t)) && t@ == line0))
    &&& (line0.len() > 0 && toks.len() != 3
        ==> (r matches Err(HttpError::MalformedRequestLine(t)) && t@ == line0))
    &&& (head_shape_ok(lv) && Method::spec_of(toks[0]) is None
        ==> (r matches Err(HttpError::InvalidMethod(t)) && t@ == toks[0]))
    &&& (head_shape_ok(lv) && Method::spec_of(toks[0]) is Some && spec_version(toks[2]) is None
        ==> (r matches Err(HttpError::InvalidVersion(t)) && t@ == toks[2]))
    &&& (head_ok(lv) && !has_content_length(hm) && !has_transfer_encoding(hm)
        ==> (r matches Ok(req) && req_matches_head(req, lv) && req.body is None))
    &&& (head_ok(lv) && has_content_length(hm) && has_transfer_encoding(hm)
        ==> r matches Err(HttpError::AmbiguousFraming))
    &&& (head_ok(lv) && !has_content_length(hm) && has_transfer_encoding(hm) && te_is_chunked(hm)
        ==> r matches Err(HttpError::NotImplemented))
    &&& (head_ok(lv) && !has_content_length(hm) && has_transfer_encoding(hm) && !te_is_chunked(hm)
        ==> (r matches Err(HttpError::UnsupportedEncoding(t)) && t@ == hm["Transfer-Encoding"@]))
    &&& (head_ok(lv) && has_content_length(hm) && !has_transfer_encoding(hm)
        ==> match content_length_value(hm) {
            None => r matches Err(HttpError::InvalidContentLength(t))
                && t@ == hm["Content-Length"@],
            Some(n) => if n > rest.len() {
                r matches Err(HttpError::TruncatedBody)
            } else {
                r matches Ok(req) && req_matches_head(req, lv) && (req.body matches Some(b)
                    && b@ == rest.take(n as int))
            },
        })
}

impl Request {
    /// Parse a method token; any ASCII case is accepted and nothing is
    /// trimmed.
    pub fn parse_method(method_str: &str) -> (r: Result<Method, HttpError>)
        ensures
            match Method::spec_of(method_str@) {
                Some(m) => r == Ok::<Method, HttpError>(m),
                None => r matches Err(HttpError::InvalidMethod(t)) && t@ == method_str@,
            },
    {
        Method::try_from(method_str)
    }

    /// Split a request target into its path and its raw query string.  An
    /// empty path reads as `/`.
    pub fn parse_url<'a>(url_string: &'a str) -> (r: (&'a str, &'a str))
        ensures
            r.0@ == spec_url_path(url_string@),
            r.1@ == spec_url_query(url_string@),
    {
        let len = url_string.unicode_len();
        let q = find_char_from(url_string, 0, '?');
        proof {
            assert(url_string@.skip(0) =~= url_string@);
        }
        let (raw_path, raw_params): (&str, &str) = if q < len {
            let p = url_string.substring_char(0, q);
            let rest = url_string.substring_char(q + 1, len);
            proof {
                assert(p@ =~= url_string@.take(q as int));
                assert(rest@ =~= url_string@.skip(q as int + 1));
            }
            (p, rest)
        } else {
            proof {
                reveal_strlit("");
                assert(""@ =~= Seq::<char>::empty());
            }
            (url_string, "")
        };
        if raw_path.is_empty() {
            ("/", raw_params)
        } else {
            (raw_path, raw_params)
        }
    }

    /// Decode a raw query string into its mapping.  Never fails: candidates
    /// without `=` are dropped, of duplicate keys the last wins, and the
    /// worst input yields an empty mapping.
    pub fn parse_query_string(query_params: &str) -> (r: StrMap)
        ensures
            r@ == spec_query_map(query_params@),
    {
        parse_query(query_params)
    }

    /// Parse a version token: it must start with the literal `HTTP/1.`, and
    /// its final character alone, a decimal digit, is the minor version.
    pub fn parse_http_ver(http_ver_str: &str) -> (r: Result<u8, HttpError>)
        ensures
            match spec_version(http_ver_str@) {
                Some(v) => r == Ok::<u8, HttpError>(v),
                None => r matches Err(HttpError::InvalidVersion(t)) && t@ == http_ver_str@,
            },
    {
        let len = http_ver_str.unicode_len();
        if len < 7 {
            return Err(HttpError::InvalidVersion(http_ver_str.to_owned()));
        }
        let prefix = http_ver_str.substring_char(0, 7);
        proof {
            assert(prefix@ =~= http_ver_str@.take(7));
        }
        if !str_eq(prefix, "HTTP/1.") {
            return Err(HttpError::InvalidVersion(http_ver_str.to_owned()));
        }
        let last = http_ver_str.get_char(len - 1);
        if '0' <= last && last <= '9' {
            Ok((last as u8) - 48)
        } else {
            Err(HttpError::InvalidVersion(http_ver_str.to_owned()))
        }
    }

    /// Decode a header block: one entry per line with a `:`, the value's
    /// leading whitespace dropped, the last of duplicate keys winning.
    /// Lines at and after the first blank line are ignored.
    pub fn parse_head(headers_as_lines: &Vec<&str>) -> (r: StrMap)
        ensures
            r@ == spec_header_map(headers_as_lines.deep_view()),
    {
        parse_headers(headers_as_lines)
    }

    /// Decode a whole request from its head lines and the bytes that
    /// followed the blank line.  The head lines are the request line and
    /// the header lines, without the blank terminator; `rest` is read for
    /// the body exactly as the framing headers direct.
    pub fn try_from(lines: &Vec<&str>, rest: &[u8]) -> (r: Result<Request, HttpError>)
        ensures
            decode_ensures(lines.deep_view(), rest@, r),
    {
        let ghost lv = lines.deep_view();
        let first: &str = if lines.len() > 0 {
            lines[0]
        } else {
            ""
        };
        proof {
            reveal_strlit("");
            assert(""@ =~= Seq::<char>::empty());
            if lines.len() > 0 {
                assert(lv[0] == lines@[0]@);
            }
            assert(first@ == first_line(lv));
        }
        if first.is_empty() {
            return Err(HttpError::MalformedRequestLine(first.to_owned()));
        }
        let tokens = split_whitespace_exec(first);
        proof {
            assert(tokens.deep_view().len() == tokens@.len());
        }
        if tokens.len() != 3 {
            return Err(HttpError::MalformedRequestLine(first.to_owned()));
        }
        let ghost toks = ws_tokens(first_line(lv));
        proof {
            assert(tokens@[0]@ == toks[0]);
            assert(tokens@[1]@ == toks[1]);
            assert(tokens@[2]@ == toks[2]);
        }
        let method = match Self::parse_method(tokens[0]) {
            Ok(m) => m,
            Err(e) => {
                return Err(e);
            },
        };
        let (raw_path, raw_query_string) = Self::parse_url(tokens[1]);
        let query_params = Self::parse_query_string(raw_query_string);
        let http_sub_ver = match Self::parse_http_ver(tokens[2]) {
            Ok(v) => v,
            Err(e) => {
                return Err(e);
            },
        };
        let mut raw_headers: Vec<&str> = Vec::new();
        let mut i: usize = 1;
        proof {
            assert(raw_headers.deep_view() =~= lv.skip(1).take(0));
        }
        while i < lines.len() && !lines[i].is_empty()
            invariant
                1 <= i <= lines.len(),
                lv == lines.deep_view(),
                lv.len() == lines.len(),
                raw_headers.deep_view() == lv.skip(1).take(i - 1),
                forall|j: int| 0 <= j < i - 1 ==> lv.skip(1)[j].len() > 0,
            decreases lines.len() - i,
        {
            let line = lines[i];
            proof {
                assert(line@ == lv[i as int]);
                assert(lv.skip(1)[i - 1] == lv[i as int]);
                assert(raw_headers.deep_view().len() == i - 1);
                assert(forall|j: int| 0 <= j < i - 1
                    ==> raw_headers.deep_view()[j] == raw_headers@[j]@);
            }
            let ghost prev = raw_headers@;
            raw_headers.push(line);
            proof {
                assert(raw_headers@ == prev.push(line));
                assert(raw_headers.deep_view() =~= lv.skip(1).take(i as int));
            }
            i += 1;
        }
        proof {
            if i < lines.len() {
                assert(lv.skip(1)[i - 1] == lv[i as int]);
                assert(lv[i as int] == lines@[i as int]@);
            }
            lemma_header_pairs_take_to_blank(lv.skip(1), i - 1);
            assert(header_pairs(raw_headers.deep_view()) == header_pairs(lv.skip(1)));
        }
        let headers = Self::parse_head(&raw_headers);
        let raw_body = match resolve_body(&headers, rest) {
            Ok(b) => b,
            Err(e) => {
                return Err(e);
            },
        };
        Ok(Request {
            body: raw_body,
            headers,
            query: query_params,
            path: raw_path.to_owned(),
            method,
            http_ver: http_sub_ver,
        })
    }

    /// Decode a whole request from one received buffer.  The head — the
    /// bytes before the first blank-line terminator — must be UTF-8 text;
    /// it is split into lines and decoded, and the bytes after the
    /// terminator are read for the body as the framing headers direct.
    pub fn try_from_bytes(value: &Vec<u8>) -> (r: Result<Request, HttpError>)
        ensures
            !valid_utf8(spec_head_bytes(value@)) ==> r matches Err(HttpError::Utf8Decode),
            valid_utf8(spec_head_bytes(value@)) ==> decode_ensures(
                split_crlf(decode_utf8(spec_head_bytes(value@))),
                spec_rest_bytes(value@),
                r,
            ),
    {
        let len = value.len();
        let p = find_terminator(value);
        proof {
            lemma_terminator_pos(value@);
        }
        let head_slice = slice_subrange(value.as_slice(), 0, p);
        proof {
            assert(head_slice@ =~= spec_head_bytes(value@));
        }
        let rest_start = if len - p >= 4 {
            p + 4
        } else {
            len
        };
        let rest = slice_subrange(value.as_slice(), rest_start, len);
        proof {
            assert(rest@ =~= spec_rest_bytes(value@));
        }
        let head_str = match bytes_as_str(head_slice) {
            Some(s) => s,
            None => {
                return Err(HttpError::Utf8Decode);
            },
        };
        proof {
            encode_utf8_decode_utf8(head_str@);
            assert(decode_utf8(spec_head_bytes(value@)) == head_str@);
        }
        let lines = split_crlf_exec(head_str);
        Self::try_from(&lines, rest)
    }
}

} // verus!
