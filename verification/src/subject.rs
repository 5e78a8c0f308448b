//! The subject side: the state container of subscription handles, the
//! broadcast/sweep algorithm, and identity-based removal.

use vstd::prelude::*;
use crate::handle::WeakObs;
use crate::observer::Observer;
use crate::sweep::select;
use crate::sweep::kept_indices;
use crate::sweep::lemma_select_step;
use crate::sweep::lemma_kept_indices_iff;

verus! {

/// Verdict of the identity-based removal scan for one entry, given what the
/// entry's resolution showed: `None` when the handle no longer resolved,
/// `Some(id)` when it resolved to an observer whose identity is `id`.
///
/// An entry that no longer resolves is dropped opportunistically.  A live
/// entry is dropped exactly when it carries the target identity; a live
/// entry without an identity is never dropped by this path.
pub open spec fn keep_on_deregister(seen: Option<Option<usize>>, target: usize) -> bool {
    match seen {
        None => false,
        Some(id) => id != Some(target),
    }
}

/// The subject state container: an ordered list of non-owning subscription
/// handles, insertion order preserved, duplicates allowed.
///
/// A consumer type embeds this container as a field and gains the
/// [`Observable`] capability by delegating to it.  The container never keeps
/// an observer alive; handles whose target has been destroyed linger until a
/// broadcast or an identity-based removal sweeps them.
#[verifier::reject_recursive_types(O)]
pub struct ObservableMixin<O> {
    observers: Vec<WeakObs<O>>,
}

impl<O> Default for ObservableMixin<O> {
    /// The container starts empty.
    fn default() -> (r: ObservableMixin<O>)
        ensures
            r.obs_seq() == Seq::<WeakObs<O>>::empty(),
    {
        ObservableMixin { observers: Vec::new() }
    }
}

impl<O> ObservableMixin<O> {
    /// The subscription handles currently held, in registration order.
    pub closed spec fn obs_seq(&self) -> Seq<WeakObs<O>> {
        self.observers@
    }

    /// How many subscription handles the container currently holds, stale
    /// ones included.
    pub fn len(&self) -> (n: usize)
        ensures
            n == self.obs_seq().len(),
    {
        self.observers.len()
    }

    /// Append a subscription handle at the end of the list.  Always
    /// succeeds; no uniqueness is enforced, so registering the same observer
    /// twice produces two independent entries.
    pub fn register(&mut self, observer: WeakObs<O>)
        ensures
            final (self).obs_seq() == old(self).obs_seq().push(observer),
    {
        self.observers.push(observer);
    }

    /// Broadcast `event`: resolve every entry once, in order; deliver a
    /// duplicate of `event` to each observer that is still alive, and drop
    /// the entries that no longer resolve.  The surviving entries keep their
    /// original relative order.
    ///
    /// Which entries resolve depends on reference counts held outside the
    /// library, so the contract holds for every possible outcome of the
    /// resolutions: some sequence of per-entry verdicts selected the
    /// survivors.
    pub fn notify_observers<M: Clone>(&mut self, event: M) where O: Observer<M>
        ensures
            exists|live: Seq<bool>|
                live.len() == old(self).obs_seq().len() && final (self).obs_seq() == select(
                    old(self).obs_seq(),
                    live,
                ),
            final (self).obs_seq().len() <= old(self).obs_seq().len(),
            old(self).obs_seq().len() == 0 ==> final (self).obs_seq() == old(self).obs_seq(),
    {
        let ghost orig = self.observers@;
        let ghost mut live = Seq::<bool>::empty();
        let mut kept: Vec<WeakObs<O>> = Vec::new();
        let n = self.observers.len();
        let mut i: usize = 0;
        while i < n
            invariant
                n == self.observers.len(),
                self.observers@ == orig,
                i <= n,
                live.len() == i as int,
                kept@.len() <= i as int,
                kept@ == select(orig, live),
            decreases n - i,
        {
            let h = &self.observers[i];
            match h.upgrade() {
                Some(rc) => {
                    rc.notify(event.clone());
                    kept.push(h.duplicate());
                    proof {
                        lemma_select_step(orig, live, true);
                        live = live.push(true);
                    }
                },
                None => {
                    proof {
                        lemma_select_step(orig, live, false);
                        live = live.push(false);
                    }
                },
            }
            i += 1;
        }
        proof {
            if orig.len() == 0 {
                assert(kept@ =~= orig);
            }
        }
        self.observers = kept;
    }

    /// Remove every entry whose observer carries the identity `target`, and
    /// sweep entries that no longer resolve, keeping the rest in order.
    ///
    /// Each entry is resolved once; the kept entries are exactly those whose
    /// resolution satisfied [`keep_on_deregister`] against `target`, in
    /// their original relative order.
    pub fn deregister_by_id<M: Clone>(&mut self, target: usize) where O: Observer<M>
        ensures
            exists|seen: Seq<Option<Option<usize>>>|
                seen.len() == old(self).obs_seq().len() && final (self).obs_seq() == select(
                    old(self).obs_seq(),
                    seen.map_values(|s: Option<Option<usize>>| keep_on_deregister(s, target)),
                ),
            final (self).obs_seq().len() <= old(self).obs_seq().len(),
    {
        let ghost orig = self.observers@;
        let ghost mut seen = Seq::<Option<Option<usize>>>::empty();
        let mut kept: Vec<WeakObs<O>> = Vec::new();
        let n = self.observers.len();
        let mut i: usize = 0;
        while i < n
            invariant
                n == self.observers.len(),
                self.observers@ == orig,
                i <= n,
                seen.len() == i as int,
                kept@.len() <= i as int,
                kept@ == select(
                    orig,
                    seen.map_values(|s: Option<Option<usize>>| keep_on_deregister(s, target)),
                ),
            decreases n - i,
        {
            let ghost flags = seen.map_values(
                |s: Option<Option<usize>>| keep_on_deregister(s, target),
            );
            let h = &self.observers[i];
            match h.upgrade() {
                Some(rc) => {
                    let oid = rc.id();
                    let keep_it = match oid {
                        Some(v) => v != target,
                        None => true,
                    };
                    if keep_it {
                        kept.push(h.duplicate());
                    }
                    proof {
                        lemma_select_step(orig, flags, keep_it);
                        seen = seen.push(Some(oid));
                        assert(seen.map_values(
                            |s: Option<Option<usize>>| keep_on_deregister(s, target),
                        ) =~= flags.push(keep_it));
                    }
                },
                None => {
                    proof {
                        lemma_select_step(orig, flags, false);
                        seen = seen.push(None);
                        assert(seen.map_values(
                            |s: Option<Option<usize>>| keep_on_deregister(s, target),
                        ) =~= flags.push(false));
                    }
                },
            }
            i += 1;
        }
        self.observers = kept;
    }
}

/// Law of identity-removal precision: when an identity-based removal
/// observed `seen`, the entry at position `i` survives exactly when its
/// resolution showed a live observer whose identity was not the target.
/// Entries with other identities, and live entries with no identity, are
/// all kept.
pub proof fn lemma_deregister_precision(target: usize, seen: Seq<Option<Option<usize>>>, i: int)
    requires
        0 <= i < seen.len(),
    ensures
        kept_indices(
            seen.map_values(|s: Option<Option<usize>>| keep_on_deregister(s, target)),
        ).contains(i) <==> keep_on_deregister(seen[i], target),
{
    let flags = seen.map_values(|s: Option<Option<usize>>| keep_on_deregister(s, target));
    lemma_kept_indices_iff(flags, i);
}

/// Law of untagged non-removability: an entry whose resolution showed a
/// live observer with no identity survives every identity-based removal,
/// whatever the target.  Such an entry leaves the container only when its
/// owner drops it and a broadcast sweeps the stale handle.
pub proof fn lemma_untagged_survives(target: usize, seen: Seq<Option<Option<usize>>>, i: int)
    requires
        0 <= i < seen.len(),
        seen[i] == Some(None::<usize>),
    ensures
        kept_indices(
            seen.map_values(|s: Option<Option<usize>>| keep_on_deregister(s, target)),
        ).contains(i),
{
    lemma_deregister_precision(target, seen, i);
}

/// The subject capability: registering subscription handles and
/// broadcasting events to the observers behind the handles that still
/// resolve.
///
/// [`ObservableMixin`] implements it; a consumer type gains it by embedding
/// the container as a field and delegating both methods to it.
pub trait Observable<M: Clone, O: Observer<M>> {
    /// The subscription handles currently held, in registration order.
    spec fn obs_seq(&self) -> Seq<WeakObs<O>>;

    /// Append a subscription handle at the end of the list.  Always
    /// succeeds; no uniqueness is enforced, so registering the same observer
    /// twice produces two independent entries.
    fn register(&mut self, observer: WeakObs<O>)
        ensures
            final (self).obs_seq() == old(self).obs_seq().push(observer),
    ;

    /// Broadcast `event`: resolve every entry once, in order; deliver a
    /// duplicate of `event` to each observer that is still alive, and drop
    /// the entries that no longer resolve.  The surviving entries keep their
    /// original relative order.
    fn notify_observers(&mut self, event: M)
        ensures
            exists|live: Seq<bool>|
                live.len() == old(self).obs_seq().len() && final (self).obs_seq() == select(
                    old(self).obs_seq(),
                    live,
                ),
            final (self).obs_seq().len() <= old(self).obs_seq().len(),
            old(self).obs_seq().len() == 0 ==> final (self).obs_seq() == old(self).obs_seq(),
    ;
}

impl<M: Clone, O: Observer<M>> Observable<M, O> for ObservableMixin<O> {
    open spec fn obs_seq(&self) -> Seq<WeakObs<O>> {
        ObservableMixin::obs_seq(self)
    }

    fn register(&mut self, observer: WeakObs<O>) {
        ObservableMixin::register(self, observer);
    }

    fn notify_observers(&mut self, event: M) {
        ObservableMixin::notify_observers(self, event);
    }
}

} // verus!
