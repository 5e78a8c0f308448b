//! Non-owning subscription handles.
//!
//! Whether a handle still resolves depends on reference counts held outside
//! the library, a fact the verifier cannot see.  Everything here is therefore
//! a thin trusted layer: each item names the std function it relies on, and
//! the verified sweep logic is written to hold for every outcome a
//! resolution can have.

use vstd::prelude::*;
use std::rc::Rc;
use std::rc::Weak;

verus! {

/// A non-owning subscription handle to an observer of type `O`.
///
/// Wraps `std::rc::Weak<O>`.  The handle does not keep its target alive: it
/// resolves to an owning reference only while some `Rc` clone of the target
/// still exists, and resolution yields nothing afterwards.
#[verifier::external_body]
#[verifier::reject_recursive_types(O)]
pub struct WeakObs<O> {
    weak: Weak<O>,
}

impl<O> WeakObs<O> {
    /// Relies on std's `Rc::downgrade`: the result is a non-owning handle to
    /// the allocation behind `rc`, resolvable exactly while that allocation
    /// still has a strong owner.
    #[verifier::external_body]
    pub fn of(rc: &Rc<O>) -> (r: WeakObs<O>) {
        WeakObs { weak: Rc::downgrade(rc) }
    }

    /// Relies on std's `Weak::clone`: the clone refers to the same
    /// allocation as `self`, so it stands for the same subscription.
    #[verifier::external_body]
    pub(crate) fn duplicate(&self) -> (r: WeakObs<O>)
        ensures
            r == *self,
    {
        WeakObs { weak: self.weak.clone() }
    }

    /// Relies on std's `Weak::upgrade`: the result is an owning reference to
    /// the target while the target is still alive, and `None` once the last
    /// owner has released it.  Which of the two happens depends on state
    /// outside the library, so nothing is promised of the outcome.
    #[verifier::external_body]
    pub(crate) fn upgrade(&self) -> (r: Option<Rc<O>>) {
        self.weak.upgrade()
    }
}

} // verus!
