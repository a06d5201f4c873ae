//! A push-based event pipeline: observables emit a sequence of values over
//! time to observers, with composable operators and explicit cancellation.
//!
//! The core guarantee is the subscription contract: a wrapped observer sees
//! zero or more `next` events followed by at most one terminal event
//! (`complete` or `error`), never anything after that, and owned resources
//! are released exactly once no matter which party ends the stream first.

pub mod events;
pub mod observer;
pub mod ops;
pub mod subscriber;
pub mod subscription;
