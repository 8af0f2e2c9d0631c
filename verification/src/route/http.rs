//! HTTP messages produced by a lapp.

use vstd::prelude::*;

verus! {

/// An HTTP message produced by a lapp.
pub struct Message {
    pub body: String,
}

impl Message {
    pub fn new(body: String) -> (r: Self)
        ensures
            r.body == body,
    {
        Message { body }
    }
}

} // verus!
