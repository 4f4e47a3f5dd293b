//! Where everything starts.
use vstd::prelude::*;

verus! {

/// Reports whether you are ready to start.
pub fn ready() -> (r: bool)
    ensures
        r,
{
    true
}

} // verus!
