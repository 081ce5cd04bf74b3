//! A WebRTC signaling hub library: an in-memory registry of attached peers,
//! a dual-transport (push / long-poll) delivery engine, a bounded duplicate
//! suppression filter, a liveness sweeper, and the small JSON message
//! protocol they implement.

pub mod channel;
pub mod client;
pub mod codec;
pub mod common;
pub mod config;
pub mod filter;
pub mod handler;
pub mod hub;
pub mod jsonval;
pub mod msg;
pub mod token;
pub mod version;
