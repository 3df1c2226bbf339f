//! Creating the TUN adapter needs administrator rights. Whether this
//! instance may go on, or must hand over to an elevated relaunch, is
//! decided here; the check and the relaunch themselves are done by the
//! app.

use vstd::prelude::*;

verus! {

/// Whether this instance should keep running: only when it already is
/// elevated (the app relaunches itself elevated and exits otherwise). On a
/// platform without elevation the app passes `true`.
pub fn ensure_elevated(is_elevated: bool) -> (proceed: bool)
    ensures
        proceed == is_elevated,
{
    is_elevated
}

} // verus!
