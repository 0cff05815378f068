//! The closed set of supported request verbs.

use vstd::prelude::*;
use crate::error::HttpError;
use crate::text::{lower, str_eq_ignore_case};

verus! {

/// A supported HTTP method.
#[derive(Debug, Clone, Copy, PartialEq, Eq, Structural)]
pub enum Method {
    Post,
    Get,
    Put,
    Delete,
}

impl Method {
    /// The method a token denotes, compared without regard to ASCII case;
    /// `None` for every other token.
    pub open spec fn spec_of(s: Seq<char>) -> Option<Method> {
        if lower(s) == "post"@ {
            Some(Method::Post)
        } else if lower(s) == "get"@ {
            Some(Method::Get)
        } else if lower(s) == "put"@ {
            Some(Method::Put)
        } else if lower(s) == "delete"@ {
            Some(Method::Delete)
        } else {
            None
        }
    }

    /// Parse a method token.  Any ASCII case is accepted; whitespace is not
    /// trimmed, so a token with surrounding blanks fails.
    pub fn try_from(value: &str) -> (r: Result<Method, HttpError>)
        ensures
            match Method::spec_of(value@) {
                Some(m) => r == Ok::<Method, HttpError>(m),
                None => r matches Err(HttpError::InvalidMethod(t)) && t@ == value@,
            },
    {
        proof {
            reveal_strlit("post");
            reveal_strlit("get");
            reveal_strlit("put");
            reveal_strlit("delete");
            assert(lower("post"@) =~= "post"@);
            assert(lower("get"@) =~= "get"@);
            assert(lower("put"@) =~= "put"@);
            assert(lower("delete"@) =~= "delete"@);
        }
        if str_eq_ignore_case(value, "post") {
            Ok(Method::Post)
        } else if str_eq_ignore_case(value, "get") {
            Ok(Method::Get)
        } else if str_eq_ignore_case(value, "put") {
            Ok(Method::Put)
        } else if str_eq_ignore_case(value, "delete") {
            Ok(Method::Delete)
        } else {
            Err(HttpError::InvalidMethod(value.to_owned()))
        }
    }
}

} // verus!
