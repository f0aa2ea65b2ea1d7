//! Core of a length-framed bidirectional RPC runtime.
//!
//! A server-side *adapter* dispatches incoming requests to named objects
//! called *servants*; a client-side *terminal* issues requests and
//! correlates the responses.  Around this core sit a servant registry with
//! an LRU-driven passivation store, a process-wide table of accepted
//! connections with notice broadcast, and the wire codec shared by both
//! sides.

use vstd::prelude::*;

pub mod adapter;
pub mod client;
pub mod codec;
pub mod config;
pub mod db;
pub mod echo;
pub mod evictor;
pub mod factory;
pub mod freeze;
pub mod gateway;
pub mod help;
pub mod list;
pub mod oid;
pub mod registry;
pub mod servant;
pub mod table;
pub mod terminal;
pub mod utilities;

verus! {

} // verus!
