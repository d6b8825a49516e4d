//! A bounded worker pool, modelled and verified.
//!
//! A fixed set of workers pulls messages from one shared FIFO dispatcher and
//! runs each submitted job exactly once; shutdown sends one terminate sentinel
//! per worker and completes only when every worker has observed its sentinel.
//! This crate verifies the dispatch protocol itself: the FIFO conduit, the
//! single-message worker step, and the pool lifecycle from construction
//! through blocking shutdown. The surrounding thread plumbing (spawning,
//! blocking receives, joining) is ordinary unverified code that drives these
//! functions, one worker step per received message.

pub mod dispatcher;
pub mod message;
pub mod pool;
