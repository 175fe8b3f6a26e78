//! An in-memory key-value cache speaking a line-oriented text protocol:
//! a bounded store with least-recently-used eviction and lazy expiry, the
//! command semantics on top of it, and the frame parser in front of it.
//!
//! - [`store_manager`] is the cache engine, with the recency list in
//!   [`store_manager::list`] and the items in [`item`].
//! - [`protocol_parser`] turns an inbound buffer into a request; [`frame`],
//!   [`decimal`] and [`chars`] hold the grammar that it reads by.
//! - [`commands`] carries requests out and words the replies.
//! - [`client`] is the other end of the wire, and [`exchange`] states what
//!   the two ends have in common.
//! - [`config`] reads the command line.

pub mod chars;
pub mod client;
mod clock;
pub mod commands;
pub mod config;
pub mod decimal;
pub mod exchange;
pub mod frame;
pub mod item;
pub mod protocol_parser;
pub mod store_manager;
