use vstd::prelude::*;

verus! {

/// Whether a sender must keep waiting before passing a message into a channel limited by memory:
/// only while what the channel holds, not counting the message itself, is over the capacity. So a
/// message is always let through once the channel was within its capacity before it, however
/// large the message is, and a large message never waits forever.
pub fn must_wait(usage_before_message: usize, capacity: usize) -> (r: bool)
    ensures
        r == (usage_before_message > capacity),
{
    usage_before_message > capacity
}

} // verus!
