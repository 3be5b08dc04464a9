use vstd::prelude::*;

verus! {

/// Waiting on a spawned peer, typically a forked child process; the
/// surrounding application implements it for its process ids.
pub trait Wait {
    fn wait(self);
}

} // verus!
