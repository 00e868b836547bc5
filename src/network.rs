//! Network requests: what an update of the routing table reports.
use vstd::prelude::*;
use crate::error::AgentError;

verus! {

/// The routes reported after an update: those the update applied, or,
/// when it failed, the routes that were in place before it. A failed
/// update is not reported as an error.
pub fn routes_after_update<R>(before: Vec<R>, updated: Result<Vec<R>, AgentError>) -> (r: Vec<R>)
    ensures
        updated matches Ok(v) ==> r@ == v@,
        updated is Err ==> r@ == before@,
{
    match updated {
        Ok(v) => v,
        Err(_) => before,
    }
}

} // verus!
