//! The echo server's route decisions: which page or transformation each
//! method and path gets, applied to the body the transport collected.
//! The transport loop performs the reads and writes; everything decided
//! about a request is here.

use vstd::prelude::*;
use vstd::utf8::encode_utf8;
use crate::method::Method;

verus! {

/// ASCII upper-casing of one byte, as `u8::to_ascii_uppercase` maps it.
pub open spec fn upper_byte(b: u8) -> u8 {
    if 97 <= b && b <= 122 {
        (b - 32) as u8
    } else {
        b
    }
}

/// ASCII upper-casing of a byte sequence.
pub open spec fn spec_upper(bs: Seq<u8>) -> Seq<u8> {
    bs.map_values(|b: u8| upper_byte(b))
}

/// The instructions shown on the front page.
pub open spec fn instructions_chars() -> Seq<char> {
    "Try POSTing data to /echo such as: `curl localhost:3000/echo -XPOST -d 'hello world'`"@
}

/// The status code and body bytes each route answers with: instructions
/// on the front page, the body echoed, upper-cased or reversed on the
/// echo pages, and an empty not-found answer for everything else.
pub open spec fn route_answer(m: Method, path: Seq<char>, body: Seq<u8>) -> (u16, Seq<u8>) {
    if m is Get && path == "/"@ {
        (200u16, encode_utf8(instructions_chars()))
    } else if m is Post && path == "/echo"@ {
        (200u16, body)
    } else if m is Post && path == "/echo/uppercase"@ {
        (200u16, spec_upper(body))
    } else if m is Post && path == "/echo/reversed"@ {
        (200u16, body.reverse())
    } else {
        (404u16, Seq::empty())
    }
}

/// ASCII upper-casing of a byte vector.
fn to_upper(body: &Vec<u8>) -> (r: Vec<u8>)
    ensures
        r@ == spec_upper(body@),
{
    let mut out: Vec<u8> = Vec::new();
    let n = body.len();
    let mut i: usize = 0;
    while i < n
        invariant
            i <= n,
            n == body@.len(),
            out@.len() == i,
            forall|j: int| 0 <= j < i ==> out@[j] == upper_byte(body@[j]),
        decreases n - i,
    {
        let b = body[i];
        if 97 <= b && b <= 122 {
            out.push(b - 32);
        } else {
            out.push(b);
        }
        i += 1;
    }
    proof {
        assert(out@ =~= spec_upper(body@));
    }
    out
}

/// The byte vector reversed.
fn to_reversed(body: &Vec<u8>) -> (r: Vec<u8>)
    ensures
        r@ == body@.reverse(),
{
    let mut out: Vec<u8> = Vec::new();
    let n = body.len();
    let mut i: usize = 0;
    while i < n
        invariant
            i <= n,
            n == body@.len(),
            out@.len() == i,
            forall|j: int| 0 <= j < i ==> out@[j] == body@[n - 1 - j],
        decreases n - i,
    {
        out.push(body[n - 1 - i]);
        i += 1;
    }
    proof {
        assert(out@ =~= body@.reverse());
    }
    out
}

/// Decide one request: the status code and body bytes the route owes,
/// given the method, the path and the body the transport collected.
pub fn route_request(method: &Method, path: &str, body: &Vec<u8>) -> (r: (u16, Vec<u8>))
    ensures
        (r.0, r.1@) == route_answer(*method, path@, body@),
{
    match method {
        Method::Get => {
            if crate::text::str_eq(path, "/") {
                let text = "Try POSTing data to /echo such as: `curl localhost:3000/echo -XPOST -d 'hello world'`";
                return (200, text.as_bytes_vec());
            }
        },
        Method::Post => {
            if crate::text::str_eq(path, "/echo") {
                let mut out: Vec<u8> = Vec::new();
                out.extend_from_slice(body.as_slice());
                proof {
                    assert(out@ =~= body@);
                }
                return (200, out);
            }
            if crate::text::str_eq(path, "/echo/uppercase") {
                return (200, to_upper(body));
            }
            if crate::text::str_eq(path, "/echo/reversed") {
                return (200, to_reversed(body));
            }
        },
        _ => {},
    }
    (404, Vec::new())
}

} // verus!
