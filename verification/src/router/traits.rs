//! When a reader of a ring buffer stops waiting for messages.
use vstd::prelude::*;

verus! {

/// Spins a reader waits on an empty buffer before it checks whether the
/// writer is gone.
pub const PATIENCE_SPINS: u64 = 1000;

/// A reader that has spun `spins` times on an empty buffer gives up once it has
/// spun more than `PATIENCE_SPINS` times and the writer is gone.
pub fn gives_up(spins: u64, abandoned: bool) -> (res: bool)
    ensures
        res == (spins > PATIENCE_SPINS && abandoned),
{
    spins > PATIENCE_SPINS && abandoned
}

} // verus!
