//! The observer capability: the contract a type must offer to receive
//! broadcast events.

use vstd::prelude::*;

verus! {

/// An entity that can receive broadcast events of type `M`.
///
/// An observer may carry a stable numeric identity.  The identity is the only
/// means by which a subject can remove the observer explicitly; an observer
/// without one leaves a subject's list only when its owner drops it and a
/// later broadcast sweeps the stale handle.  By default no identity is
/// carried.
///
/// Nothing is promised of `notify`: what an observer does with an event is
/// its own concern, and the subject never inspects the outcome.
pub trait Observer<M: Clone> {
    /// The observer's stable identity, if it has one.  An observer that
    /// does not override the provided body has no identity, and so can never
    /// be removed through the identity-based path.
    fn id(&self) -> (r: Option<usize>)
        default_ensures
            r is None,
    {
        None
    }

    /// Receive one broadcast event.
    fn notify(&self, event: M);
}

} // verus!
