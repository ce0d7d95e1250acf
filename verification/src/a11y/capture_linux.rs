//! Tree capture on Linux. There is no AT-SPI backend, so a capture is an
//! empty tree labelled with the platform.
use vstd::prelude::*;

use crate::a11y::{owned, NormalizedTree};

verus! {

/// An empty tree labelled "linux".
pub fn capture() -> (r: Result<NormalizedTree, String>)
    ensures
        r matches Ok(t) && t.platform@ == "linux"@ && t.window_title@.len() == 0 && t.process_name@.len() == 0
            && t.element_count == 0 && t.elements@.len() == 0,
{
    Ok(
        NormalizedTree {
            window_title: String::new(),
            process_name: String::new(),
            platform: owned("linux"),
            element_count: 0,
            elements: Vec::new(),
        },
    )
}

} // verus!
