//! Fan-out and fan-in primitives for poll-driven producers and consumers.
//!
//! Every component is an explicit state value together with small handle
//! values. A handle never owns the shared state: each operation takes the
//! state by reference, so the whole behaviour of a component is a function
//! from state and event to next state and outcome.

pub mod util;
pub mod wake;
pub mod poll;
pub mod registry;
pub mod unsync;
pub mod stream;
pub mod sink;
