//! What a traced request carries with it.
use std::time::Instant;
use vstd::prelude::*;

verus! {

/// The identifier of a request.
#[derive(Debug)]
pub struct RequestId(pub String);

impl Clone for RequestId {
    fn clone(&self) -> (copy: RequestId)
        ensures
            copy == *self,
    {
        RequestId(self.0.clone())
    }
}

/// When a request came in.
#[derive(Clone, Copy, Debug)]
pub struct RequestStart(pub Instant);

} // verus!
