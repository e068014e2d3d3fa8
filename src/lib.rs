//! Event-driven state synchronization core of a terminal group chat client.
//!
//! The library holds the verified logic: the actions that flow through the
//! application, the stores that react to them, the dispatcher that fans an
//! action out to every store, the poller that turns backend listings into
//! at-most-once group and message batches, and the decisions of the backend
//! and command loops. Terminal, network and storage work lives outside.
pub mod types;
pub mod message;
pub mod poller;
pub mod cli;
pub mod commands;
pub mod dispatch;
pub mod xmtp;
pub mod views;
pub mod pages;
