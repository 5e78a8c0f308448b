//! The identity-tracked registration extension.
//!
//! An observer owned through `dependent_view`'s `DependentRc` can be
//! registered from its owning handle and later removed explicitly, by the
//! identity it carries, instead of only by being dropped and swept.  The
//! core subject machinery in [`crate::subject`] does not depend on this
//! module.

use vstd::prelude::*;
use std::rc::Rc;
use dependent_view::rc::DependentRc;
use crate::handle::WeakObs;
use crate::observer::Observer;
use crate::subject::ObservableMixin;
use crate::subject::keep_on_deregister;
use crate::sweep::select;

verus! {

/// `dependent_view::rc::DependentRc` is the owning handle of the
/// identity-tracked registration path; the declaration lets it appear in
/// signatures.  Its values stay opaque to the verifier.
#[verifier::external_type_specification]
#[verifier::external_body]
#[verifier::reject_recursive_types(T)]
pub struct ExDependentRc<T>(dependent_view::rc::DependentRc<T>);

/// Relies on `DependentRc`'s `AsRef` impl: it hands out a reference to the
/// `Rc` the handle owns.  Nothing further can be stated of an opaque value.
pub assume_specification<T>[ <dependent_view::rc::DependentRc<T> as core::convert::AsRef<
    Rc<T>,
>>::as_ref ](d: &dependent_view::rc::DependentRc<T>) -> &Rc<T>;

/// What an identity-based removal leaves of `before`, given the target
/// identity (`None` when the targeted observer carries none, in which case
/// nothing changes) and what each entry's resolution showed.
pub open spec fn deregister_outcome<O>(
    before: Seq<WeakObs<O>>,
    target: Option<usize>,
    seen: Seq<Option<Option<usize>>>,
) -> Seq<WeakObs<O>> {
    match target {
        None => before,
        Some(t) => select(
            before,
            seen.map_values(|s: Option<Option<usize>>| keep_on_deregister(s, t)),
        ),
    }
}

impl<O> ObservableMixin<O> {
    /// Derive a non-owning subscription handle from an identity-tracked
    /// owning handle and append it, through the same path as
    /// [`ObservableMixin::register`].
    pub fn register_dependable<M: Clone>(&mut self, dependable: &mut DependentRc<O>) where
        O: Observer<M>,

        ensures
            exists|h: WeakObs<O>|
                final (self).obs_seq() == old(self).obs_seq().push(h),
    {
        let h = WeakObs::of(<DependentRc<O> as AsRef<Rc<O>>>::as_ref(dependable));
        self.register(h);
    }

    /// Remove entries by the identity of `dependable`'s observer.
    ///
    /// When that observer has no identity, nothing happens: untagged
    /// observers leave the container only when their owner drops them and a
    /// later broadcast sweeps the stale handle.  Otherwise every entry is
    /// resolved once: entries that no longer resolve are dropped, entries
    /// whose observer carries the target identity are dropped, and all other
    /// entries stay, in their original order.  Removal goes by identity
    /// value, so every entry sharing the target identity is removed by one
    /// call.
    pub fn deregister_dependable<M: Clone>(&mut self, dependable: &DependentRc<O>) where
        O: Observer<M>,

        ensures
            exists|target: Option<usize>, seen: Seq<Option<Option<usize>>>|
                seen.len() == old(self).obs_seq().len() && final (self).obs_seq()
                    == #[trigger] deregister_outcome(old(self).obs_seq(), target, seen),
            final (self).obs_seq().len() <= old(self).obs_seq().len(),
    {
        let target = <DependentRc<O> as AsRef<Rc<O>>>::as_ref(dependable).id();
        match target {
            None => {
                proof {
                    let seen = Seq::<Option<Option<usize>>>::new(
                        old(self).obs_seq().len(),
                        |i: int| None::<Option<usize>>,
                    );
                    assert(seen.len() == old(self).obs_seq().len() && self.obs_seq()
                        == deregister_outcome(old(self).obs_seq(), None::<usize>, seen));
                }
            },
            Some(t) => {
                self.deregister_by_id(t);
                proof {
                    let seen = choose|seen: Seq<Option<Option<usize>>>|
                        seen.len() == old(self).obs_seq().len() && self.obs_seq() == select(
                            old(self).obs_seq(),
                            seen.map_values(|s: Option<Option<usize>>| keep_on_deregister(s, t)),
                        );
                    assert(seen.len() == old(self).obs_seq().len() && self.obs_seq()
                        == deregister_outcome(old(self).obs_seq(), Some(t), seen));
                }
            },
        }
    }
}

} // verus!
