//! Immutable probe-run parameters.

use vstd::prelude::*;

verus! {

/// Largest ICMP payload that still fits an IPv4 datagram:
/// 65535 total - 20 (IPv4 header) - 8 (ICMP header).
pub const MAX_PAYLOAD_SIZE: usize = 65507;

/// Parameters of one probe run. Immutable for the run's lifetime.
///
/// Times are in microseconds: `duration` is the wall-clock budget of the
/// whole run, `ping_interval` the intended gap between probes.
#[derive(Debug, Clone)]
pub struct Configuration {
    pub duration: u64,
    pub host: String,
    pub number_of_pings: u8,
    pub payload_size: usize,
    pub ping_interval: u64,
    pub ttl: u8,
    pub dscp: u8,
    pub source_ip: String,
}

impl Configuration {
    /// A usable configuration: at least one probe, a payload that keeps
    /// the datagram's total length within the 16-bit IPv4 length field,
    /// and a DSCP marking that fits its six-bit header field.
    pub open spec fn wf(&self) -> bool {
        &&& self.number_of_pings >= 1
        &&& self.payload_size <= MAX_PAYLOAD_SIZE
        &&& self.dscp < 64
    }
}

impl Default for Configuration {
    fn default() -> (r: Self)
        ensures
            r.wf(),
            r.duration == 3_000_000,
            r.host@ == "172.217.14.238"@,
            r.number_of_pings == 20,
            r.payload_size == 60,
            r.ping_interval == 2000,
            r.ttl == 15,
            r.dscp == 0,
            r.source_ip@ == "192.168.1.71"@,
    {
        Self {
            duration: 3_000_000,
            host: "172.217.14.238".to_owned(),
            number_of_pings: 20,
            payload_size: 60,
            ping_interval: 2000,
            ttl: 15,
            dscp: 0,
            source_ip: "192.168.1.71".to_owned(),
        }
    }
}

} // verus!
