//! The counting demonstration service: a fixed set of pages, each
//! answering with a greeting and the number of requests seen so far.
//! The transport loop hands `call` the request path and sends the text
//! back; everything the service decides is here.

use vstd::prelude::*;
use crate::num::{dec_str_signed, i32_to_string};
use crate::text::str_eq;

verus! {

/// The text a known path answers with: its greeting and the counter as it
/// stood when the request arrived.  `None` for every other path.
pub open spec fn svc_message(path: Seq<char>, counter: int) -> Option<Seq<char>> {
    if path == "/"@ {
        Some("home! counter = "@ + dec_str_signed(counter))
    } else if path == "/posts"@ {
        Some("posts, of course! counter = "@ + dec_str_signed(counter))
    } else if path == "/authors"@ {
        Some("authors extraordinare! counter = "@ + dec_str_signed(counter))
    } else {
        None
    }
}

/// The demonstration service's state.
#[derive(Debug)]
pub struct Svc {
    /// How many known-page requests have been answered.
    pub counter: i32,
    /// A non-`Copy` field carried along to keep the state from being
    /// trivially copyable.
    pub string: String,
}

impl Svc {
    /// The service in its starting state.
    pub fn new() -> (r: Svc)
        ensures
            r.counter == 123,
            r.string@ == "dskfjaklfjdas;lfkj"@,
    {
        Svc { counter: 123, string: String::from_str("dskfjaklfjdas;lfkj") }
    }

    /// Answer one request: a known path gets its greeting with the counter
    /// before the bump, and the counter moves up by one; any other path
    /// gets the not-found text and leaves the counter alone.
    pub fn call(&mut self, path: &str) -> (r: String)
        requires
            old(self).counter < i32::MAX,
        ensures
            match svc_message(path@, old(self).counter as int) {
                Some(msg) => r@ == msg && final(self).counter == old(self).counter + 1,
                None => r@ == "oh no! not found"@ && final(self).counter == old(self).counter,
            },
            final(self).string == old(self).string,
    {
        let mut msg: String;
        if str_eq(path, "/") {
            msg = String::from_str("home! counter = ");
        } else if str_eq(path, "/posts") {
            msg = String::from_str("posts, of course! counter = ");
        } else if str_eq(path, "/authors") {
            msg = String::from_str("authors extraordinare! counter = ");
        } else {
            return String::from_str("oh no! not found");
        }
        let digits = i32_to_string(self.counter);
        msg.append(digits.as_str());
        self.counter = self.counter + 1;
        msg
    }
}

} // verus!
