//! Probe-loop state machine tests: send-path sequence numbers, reply
//! correlation, defensive handling of out-of-range sequences, duplicate
//! replies, DSCP observation, and the end-to-end stub-transport scenario.

use icmp_probe::config::Configuration;
use icmp_probe::ping::ProbeState;
use icmp_probe::results::PingStatistics;
use icmp_probe::utils::{calculate_duration, IcmpPacketType};

fn config(number_of_pings: u8) -> Configuration {
    let mut c = Configuration::default();
    c.number_of_pings = number_of_pings;
    c
}

/// A minimal inbound IPv4 datagram carrying an ICMP Echo Reply for the
/// given sequence number.
fn reply_datagram(sequence: u16) -> Vec<u8> {
    reply_datagram_dscp(sequence, 0)
}

fn reply_datagram_dscp(sequence: u16, dscp: u8) -> Vec<u8> {
    let [hi, lo] = sequence.to_be_bytes();
    vec![
        0x45,
        dscp << 2,
        0,
        28,
        0,
        0,
        0,
        0,
        64,
        1,
        0,
        0,
        172,
        217,
        14,
        238,
        192,
        168,
        1,
        71,
        // ICMP echo reply
        0,
        0,
        0,
        0,
        0,
        10,
        hi,
        lo,
    ]
}

#[test]
fn send_path_uses_each_sequence_once() {
    let mut state = ProbeState::new(&config(3));
    assert_eq!(state.probes_sent, 0);
    let mut used: Vec<u16> = Vec::new();
    while state.should_send() {
        let seq = state.next_sequence();
        used.push(seq);
        state.record_send(1000 * seq as u64);
    }
    assert_eq!(used, vec![1, 2, 3]);
    assert_eq!(state.bucket, vec![0, 1000, 2000, 3000]);
    assert!(!state.should_send());
}

#[test]
fn reply_is_correlated_by_sequence() {
    let mut state = ProbeState::new(&config(3));
    state.record_send(1000);
    let recorded = state.handle_inbound(&reply_datagram(1), 1400);
    assert!(recorded);
    assert_eq!(state.replies[1], Some((400, 0)));
}

#[test]
fn out_of_range_sequence_is_not_correlated() {
    let mut state = ProbeState::new(&config(3));
    state.record_send(1000);
    assert!(!state.handle_inbound(&reply_datagram(0), 2000));
    assert!(!state.handle_inbound(&reply_datagram(4), 2000));
    assert!(!state.handle_inbound(&reply_datagram(60000), 2000));
    assert!(state.replies.iter().all(|r| r.is_none()));
}

#[test]
fn duplicate_reply_keeps_first_value() {
    let mut state = ProbeState::new(&config(3));
    state.record_send(1000);
    assert!(state.handle_inbound(&reply_datagram(1), 1400));
    assert!(!state.handle_inbound(&reply_datagram(1), 1900));
    assert_eq!(state.replies[1], Some((400, 0)));
}

#[test]
fn malformed_inbound_traffic_changes_nothing() {
    let mut state = ProbeState::new(&config(3));
    state.record_send(1000);
    assert!(!state.handle_inbound(&[], 2000));
    assert!(!state.handle_inbound(&[0x45, 0, 0], 2000));
    // version 6 in the version nibble
    let mut bad_version = reply_datagram(1);
    bad_version[0] = 0x65;
    assert!(!state.handle_inbound(&bad_version, 2000));
    // total length beyond the buffer
    let mut bad_len = reply_datagram(1);
    bad_len[3] = 200;
    assert!(!state.handle_inbound(&bad_len, 2000));
    assert!(state.replies.iter().all(|r| r.is_none()));
}

#[test]
fn time_exceeded_is_not_correlated() {
    let mut state = ProbeState::new(&config(3));
    state.record_send(1000);
    let mut d = reply_datagram(1);
    d[20] = 11; // ICMP type: time exceeded
    assert!(!state.handle_inbound(&d, 2000));
    assert!(state.replies.iter().all(|r| r.is_none()));
}

#[test]
fn changed_dscp_is_observed() {
    let mut state = ProbeState::new(&config(3));
    assert!(!state.dscp_changed);
    state.handle_inbound(&reply_datagram_dscp(1, 46), 500);
    assert!(state.dscp_changed);
    assert_eq!(state.init_dscp_return, 46);
}

#[test]
fn run_finishes_when_duration_elapses() {
    let state = ProbeState::new(&config(3));
    assert!(!state.is_finished(0));
    assert!(!state.is_finished(3_000_000));
    assert!(state.is_finished(3_000_001));
}

#[test]
fn correlate_reads_the_timestamp_table() {
    let bucket: Vec<u64> = vec![0, 1000, 2000, 3000];
    let mut seq: u16 = 0;
    let mut delta: u64 = 0;
    let code = calculate_duration(
        IcmpPacketType::EchoReply {
            sequence: 2,
            type_code: 0,
        },
        &mut seq,
        &bucket,
        &mut delta,
        2500,
    );
    assert_eq!((seq, delta, code), (2, 500, 0));

    let code = calculate_duration(
        IcmpPacketType::EchoReply {
            sequence: 9,
            type_code: 0,
        },
        &mut seq,
        &bucket,
        &mut delta,
        2500,
    );
    assert_eq!((seq, delta, code), (0, 0, 0));

    let code = calculate_duration(
        IcmpPacketType::DestinationUnreachable { type_code: 3 },
        &mut seq,
        &bucket,
        &mut delta,
        2500,
    );
    assert_eq!((seq, delta, code), (0, 0, 3));
}

#[test]
fn end_to_end_stub_transport_run() {
    let delays_micros: [u64; 5] = [10_000, 12_000, 11_000, 9_000, 13_000];
    let mut state = ProbeState::new(&config(5));
    let mut now: u64 = 0;
    // the stub transport echoes every probe back after its known delay
    while state.should_send() {
        let seq = state.next_sequence();
        now += 2_000;
        state.record_send(now);
        let echoed = reply_datagram(seq);
        let received_at = now + delays_micros[(seq - 1) as usize];
        assert!(state.handle_inbound(&echoed, received_at));
    }
    let mut results = state.finish();
    results.rtt_statistics.calculate();
    let stats = &results.rtt_statistics;
    assert_eq!(stats.total_sample, 5);
    assert!(stats.mean.eq_int(11_000));
    let lost = stats.percent_of_lost_packets();
    assert_eq!(lost.num, 0);
    assert_eq!(lost.den, 5);
    // mean absolute difference of consecutive round-trip times:
    // (2000 + 1000 + 2000 + 4000) / 4
    assert!(stats.average_jitter().eq_int(2_250));
    assert!(!results.dscp_changed);
    assert_eq!(results.original_dscp, 0);
}
