//! The count of connected WebSocket clients.
use vstd::prelude::*;

verus! {

/// The count after a client subscribes: one more, wrapping around at the
/// top as `AtomicU32::fetch_add` does.
pub open spec fn subscribed(count: u32) -> u32 {
    if count == u32::MAX {
        0
    } else {
        (count + 1) as u32
    }
}

/// The count after a client disconnects: one less, never below zero.
pub open spec fn unsubscribed(count: u32) -> u32 {
    if count > 0 {
        (count - 1) as u32
    } else {
        0
    }
}

/// The client count after a client subscribes.
pub fn clients_after_subscribe(count: u32) -> (r: u32)
    ensures
        r == subscribed(count),
{
    if count == u32::MAX {
        0
    } else {
        count + 1
    }
}

/// The client count after a client disconnects.
pub fn clients_after_unsubscribe(count: u32) -> (r: u32)
    ensures
        r == unsubscribed(count),
{
    if count > 0 {
        count - 1
    } else {
        0
    }
}

/// A disconnect lowers the count by one and never below zero (with no
/// clients it stays zero); a subscribe followed by a disconnect leaves the
/// count as it was (below the wrap-around point).
pub proof fn law_subscribe_unsubscribe(count: u32)
    ensures
        unsubscribed(count) == (if count > 0 {
            count - 1
        } else {
            0
        }),
        unsubscribed(0) == 0,
        count < u32::MAX ==> unsubscribed(subscribed(count)) == count,
{
}

} // verus!
