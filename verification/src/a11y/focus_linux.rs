//! Focus tracking on Linux, which has no backend: it is never active.
use vstd::prelude::*;

verus! {

/// Focus tracking is never active on Linux.
pub fn is_active() -> (b: bool)
    ensures
        !b,
{
    false
}

} // verus!
