//! The router shell the server hands requests to.  Route registration has
//! never been filled in; only construction is offered.

use vstd::prelude::*;

verus! {

/// A router holding nothing but its request counter.
#[derive(Debug)]
pub struct FedoraRouter {
    /// How many requests the router has seen.
    pub counter: i32,
}

impl FedoraRouter {
    /// A fresh router that has seen no requests.
    pub fn new() -> (r: FedoraRouter)
        ensures
            r.counter == 0,
    {
        FedoraRouter { counter: 0 }
    }
}

} // verus!
