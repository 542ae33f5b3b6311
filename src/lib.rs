//! A dependency-resolution container: capabilities are bound to construction
//! recipes under a key, and resolved later either afresh on every request
//! (transient) or once and shared from then on (singleton).
//!
//! The registry, the memo cell and the routing between the two lifecycles are
//! verified here; running the asynchronous recipes is left to the caller, who
//! hands each outcome back to the registry.
use vstd::prelude::*;

pub mod error;
pub mod key;
pub mod laws;
pub mod lazy_cell;
pub mod registry;

pub use error::Error;
pub use error::Infallible;
pub use key::BindingKey;
pub use lazy_cell::LazyCell;
pub use registry::{Lifecycle, Registry, Resolution, Settled};


verus! {

/// Marker for implementations that are meant to be bound as singletons.
pub trait Singleton {}

} // verus!
