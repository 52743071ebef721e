//! Outcome of polling an optional one-shot channel receiver.
//!
//! The polling itself is asynchronous plumbing outside the library; this
//! is the plain value it hands back.

use vstd::prelude::*;

verus! {

/// What polling an optional one-shot receiver produced.
pub enum OneShotStatus<T> {
    /// The channel was closed before a value arrived.
    Closed,
    /// The channel has not produced a value yet.
    Empty,
    /// The channel delivered its value.
    Value(T),
    /// There was no receiver to poll.
    NoReceiver,
}

} // verus!
