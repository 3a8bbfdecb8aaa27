//! Escrow for a sender that a launched component hands to its embedder.
//!
//! The slot holds at most one deposit. A second deposit overwrites the first, and a deposit is
//! handed to exactly one taker.

use vstd::prelude::*;

verus! {

/// Deposits a sender. A sender that was there before is dropped.
pub fn deposit<S>(slot: &mut Option<S>, sender: S)
    ensures
        *final(slot) == Some(sender),
{
    *slot = Some(sender);
}

/// Takes the deposited sender as a value of the type that the taker asks for, which `downcast`
/// gives if the sender is of that type.
///
/// The result is `None` if nothing is deposited or the type does not match. The deposit is gone
/// afterwards in any case.
pub fn take<S, T, F: FnOnce(S) -> Option<T>>(slot: &mut Option<S>, downcast: F) -> (taken: Option<T>)
    requires
        *old(slot) matches Some(sender) ==> downcast.requires((sender,)),
    ensures
        *final(slot) is None,
        match *old(slot) {
            Some(sender) => downcast.ensures((sender,), taken),
            None => taken is None,
        },
{
    match slot.take() {
        Some(sender) => downcast(sender),
        None => None,
    }
}

} // verus!
