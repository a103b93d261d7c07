//! Concurrency core of a chat bot: a bounded MPMC ring queue that buffers
//! outgoing events while a downstream consumer is unreachable, and an
//! activity-coalesced store that guards mutable configuration and defers
//! disk writes to at most once per debounce interval.

pub mod config;
pub mod constants;
pub mod mpmc;
pub mod stats;
pub mod twitter;
