//! The agent's view of its conversation.

pub mod context_monitor;
