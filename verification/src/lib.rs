//! The rendezvous-and-tunnel establishment core of a two-sided
//! tunneling proxy: the pub/sub matching protocol with its lock-based
//! mutual exclusion, the wire records and names it exchanges, the OUT
//! side's pairing filter, and the IN side's tunnel registry, selection
//! and slot life cycle.

use vstd::prelude::*;

pub mod addr;
pub mod codec;
pub mod config;
pub mod provider;
pub mod punch_quic;
pub mod rendezvous;
pub mod slots;
pub mod errors;
pub mod lock;
pub mod matching;
pub mod registry;
pub mod tunnel;
pub mod ids;
pub mod text;

