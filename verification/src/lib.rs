//! A subject/observer notification library.
//!
//! A subject holds an ordered list of non-owning subscription handles and can
//! broadcast an event to every observer that is still alive, discarding stale
//! handles as it goes.  Observers may optionally carry a stable numeric
//! identity, which allows a subject to remove them explicitly instead of
//! waiting for their owner to drop them.

pub mod dependable;
pub mod handle;
pub mod observer;
pub mod subject;
pub mod sweep;

pub use dependable::deregister_outcome;
pub use handle::WeakObs;
pub use observer::Observer;
pub use subject::Observable;
pub use subject::ObservableMixin;
pub use subject::keep_on_deregister;
