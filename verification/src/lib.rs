//! A Raft consensus library whose rules are stated as contracts and proved.
//!
//! The modules hold the protocol's data and decisions as plain values:
//! storage is reached through traits, time and chance are arguments, and the
//! network is a matter for the program that runs the library.

pub mod api;
pub mod append;
pub mod apply;
pub mod bytemap;
pub mod commitment;
pub mod config;
pub mod configuration;
pub mod crc64;
pub mod election;
pub mod error;
pub mod file_snapshot;
pub mod fsm;
pub mod future;
pub mod inmem_snapshot;
pub mod inmem_store;
pub mod inmem_transport;
pub mod install;
pub mod laws;
pub mod leader;
pub mod leadership;
pub mod log;
pub mod log_cache;
pub mod net_transport;
pub mod observer;
pub mod quorum;
pub mod raft;
pub mod replication;
pub mod rpc;
pub mod safety;
pub mod snapshot;
pub mod stable;
pub mod state;
pub mod text;
pub mod time;
pub mod transport;
pub mod vote;
