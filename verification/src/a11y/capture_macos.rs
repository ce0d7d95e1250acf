//! Tree capture through the macOS accessibility API, on a build for another
//! platform: an empty tree labelled "macos".
use vstd::prelude::*;

use crate::a11y::{owned, NormalizedTree};

verus! {

/// An empty tree labelled "macos".
pub fn capture() -> (r: Result<NormalizedTree, String>)
    ensures
        r matches Ok(t) && t.platform@ == "macos"@ && t.window_title@.len() == 0 && t.process_name@.len() == 0
            && t.element_count == 0 && t.elements@.len() == 0,
{
    Ok(
        NormalizedTree {
            window_title: String::new(),
            process_name: String::new(),
            platform: owned("macos"),
            element_count: 0,
            elements: Vec::new(),
        },
    )
}

} // verus!
