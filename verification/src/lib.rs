//! A companion library for a full blockchain node: it maintains a bounded,
//! contiguous window of the most recent confirmed blocks of the best chain,
//! a cache of the node's mempool with incremental add/remove accounting,
//! the decision logic of the polling loop that keeps both fresh across chain
//! reorganizations, and a cooperative shutdown latch.
//!
//! All network traffic, OS signals and task scheduling live outside this
//! crate; the library works on plain values handed in by its caller and its
//! behaviour is stated in contracts checked by Verus.

pub mod block;
pub mod json;
pub mod node;
pub mod signals;
pub mod state;
pub mod window;
