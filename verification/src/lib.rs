//! An epidemic gossip engine: per-item bookkeeping of which peers hold an
//! item, how many further peers to forward it to, per-request timeouts, and
//! fail-over from unresponsive holders, together with the event-driven engine
//! that drives the bookkeeping and a small acquisition tracker for deploys.
//!
//! The engine itself performs no I/O: every handler turns an incoming event
//! into a list of [`effect::Effect`] values that a surrounding dispatcher
//! carries out (sending messages, storing items, arming timers) before
//! feeding the results back in as new events.

pub mod config;
pub mod deploy_acquisition;
pub mod effect;
pub mod event;
pub mod gossiper;
pub mod message;
pub mod ids;
pub mod laws;
pub mod peers;
pub mod table;
