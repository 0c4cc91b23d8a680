//! Context-size accounting, tool-result sanitizing and web tools for an
//! assistant that calls tools.
//!
//! - [`agent::context_monitor`] estimates how many tokens a conversation takes,
//!   suggests when to compact it, and trims oversized tool results before a
//!   request is sent.
//! - [`utils::sanitize`] strips binary data from tool results and cuts them to
//!   a byte budget.
//! - [`tools::browser`] and [`tools::screenshot`] decide, step by step, what a
//!   browser command or a page capture does next. The steps themselves (running
//!   a process, talking to a browser, resolving a host) are the caller's.

pub mod agent;
pub mod bus;
pub mod config;
pub mod deps;
pub mod error;
pub mod providers;
pub mod session;
pub mod tools;
pub mod utils;
