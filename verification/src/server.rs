//! The decision of the accept loop: when the server stops.

use vstd::prelude::*;

verus! {

/// Whether a change seen on the shutdown channel stops the server: it does
/// when the channel is closed (`changed_ok` false) or the flag it carries is set.
pub fn shutdown_requested(changed_ok: bool, flag: bool) -> (r: bool)
    ensures
        r == (!changed_ok || flag),
{
    if changed_ok {
        flag
    } else {
        true
    }
}

} // verus!
