//! A raw query string parsed once into its mapping.

use vstd::prelude::*;
use crate::query::{parse_query, spec_query_map};
use crate::strmap::StrMap;

verus! {

/// A query string's decoded parameters.  Parsing happens once, in `new`;
/// repeated and malformed candidates are dropped by the usual rules, so
/// the wrapper never fails and never panics.
#[derive(Debug)]
pub struct QueryString {
    param_map: StrMap,
}

impl View for QueryString {
    type V = Map<Seq<char>, Seq<char>>;

    closed spec fn view(&self) -> Map<Seq<char>, Seq<char>> {
        self.param_map@
    }
}

impl QueryString {
    /// Parse a raw query string into its mapping.
    pub fn new(query_string: &str) -> (r: QueryString)
        ensures
            r@ == spec_query_map(query_string@),
    {
        QueryString { param_map: parse_query(query_string) }
    }

    /// The parsed mapping.
    pub fn query_params(&self) -> (r: &StrMap)
        ensures
            r@ == self@,
    {
        &self.param_map
    }
}

} // verus!
