//! The one way in which growing a vector can fail.

use vstd::prelude::*;

verus! {

/// The allocator refused a request for more room.
#[derive(Clone, Copy, Debug, PartialEq, Eq, Structural)]
pub enum AllocError {
    /// No memory could be had for the requested capacity.
    OutOfMemory,
}

impl AllocError {
    /// A short name for the failure, for messages.
    pub fn describe(&self) -> (s: &'static str)
        ensures
            s@ == "out of memory"@,
    {
        "out of memory"
    }
}

} // verus!
