//! Verified ICMP echo probe engine.
//!
//! Builds IPv4 + ICMP Echo Request wire packets, classifies inbound ICMP
//! traffic, correlates replies to probes by sequence number, and aggregates
//! round-trip samples into exact (rational-valued) statistics. Raw-socket
//! transport and logging live outside this library; it works on plain bytes
//! and microsecond timestamps handed in by the caller.

use vstd::prelude::*;

pub mod addr;
pub mod checksum;
pub mod config;
pub mod ping;
pub mod results;
pub mod utils;

verus! {

/// Upper bound on any timestamp (microseconds since run start) the engine
/// accepts: 2^40 us, far beyond any test duration, and small enough that all
/// statistics arithmetic stays within `u128`.
pub const MAX_TIME_MICROS: u64 = 0x100_0000_0000;

} // verus!
