//! Reactive values over an explicit store.
//!
//! A [`Store`] owns the leaf cells and, for each of them, the list of the
//! watchers registered on it. A leaf is named by a [`Binding`]. Derived nodes
//! ([`Mapped`], [`Zip`]) hold no state of their own: they are adapters that
//! read the leaves through a [`State`] whenever a value is asked for, and that
//! hand change notifications on to the watchers registered through them.
//!
//! Everything that changes lives in the store, so every contract can say what
//! a call does to it. A node's value is a function of the leaf values, a
//! registration is a [`Subscription`] in the store's view, and a write
//! returns the watchers' reactions in the order of their registration.

pub mod state;
pub mod watcher;
pub mod transform;
pub mod model;
pub mod store;
pub mod binding;
pub mod compute;
pub mod map;
pub mod zip;
pub mod utils;
pub mod laws;

pub use crate::binding::Binding;
pub use crate::compute::Compute;
pub use crate::map::Mapped;
pub use crate::model::{StoreModel, Subscription};
pub use crate::state::State;
pub use crate::store::Store;
pub use crate::transform::Transform;
pub use crate::utils::Sum;
pub use crate::watcher::{Metadata, Observer, Registration, Watcher, WatcherGuard};
pub use crate::zip::Zip;
