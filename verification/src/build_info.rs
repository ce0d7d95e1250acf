//! Build identification: the short form of the commit hash the app was
//! built from.
use vstd::prelude::*;

use crate::timefmt::bytes_of;

verus! {

/// The first seven bytes of a commit hash (all of it when shorter).
pub fn short_sha(sha: &str) -> (r: &str)
    requires
        bytes_of(sha).len() >= 7 ==> vstd::utf8::is_char_boundary(bytes_of(sha), 7),
    ensures
        bytes_of(r) == if bytes_of(sha).len() >= 7 {
            bytes_of(sha).take(7)
        } else {
            bytes_of(sha)
        },
{
    let n = sha.as_bytes().len();
    if n >= 7 {
        let (head, _) = sha.split_at(7);
        assert(bytes_of(head) =~= bytes_of(sha).take(7));
        head
    } else {
        sha
    }
}

} // verus!
