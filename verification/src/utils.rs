//! Classification of inbound ICMP payloads and correlation of replies
//! back to the probes that produced them.

use vstd::prelude::*;

use crate::addr::Ipv4Address;

verus! {

/// ICMP type of an Echo Reply.
pub const ICMP_ECHO_REPLY: u8 = 0;

/// ICMP type of a Destination Unreachable error.
pub const ICMP_DESTINATION_UNREACHABLE: u8 = 3;

/// ICMP type of a Time Exceeded error.
pub const ICMP_TIME_EXCEEDED: u8 = 11;

/// An inbound ICMP payload, classified. Unparseable payloads and
/// unrecognized ICMP types become `Malformed`.
#[derive(Debug, Clone, Copy, PartialEq, Eq, Structural)]
pub enum IcmpPacketType {
    EchoReply { sequence: u16, type_code: u8 },
    EchoRequest { sequence: u16, type_code: u8 },
    TimeExceeded { type_code: u8 },
    DestinationUnreachable { type_code: u8 },
    Malformed { type_code: u8 },
}

/// The big-endian 16-bit value at bytes 6 and 7: the echo sequence number.
pub open spec fn echo_sequence_of(b: Seq<u8>) -> u16 {
    (b[6] * 256 + b[7]) as u16
}

/// What classification an ICMP payload receives: the first byte is the ICMP
/// type; echo messages carry their sequence number at bytes 6-7; anything
/// shorter than an ICMP header, or of an unhandled type, is `Malformed`.
pub open spec fn spec_classify(b: Seq<u8>) -> IcmpPacketType {
    if b.len() < 8 {
        IcmpPacketType::Malformed { type_code: 0 }
    } else if b[0] == ICMP_ECHO_REPLY {
        IcmpPacketType::EchoReply { sequence: echo_sequence_of(b), type_code: ICMP_ECHO_REPLY }
    } else if b[0] == crate::ping::ICMP_ECHO_REQUEST {
        IcmpPacketType::EchoRequest {
            sequence: echo_sequence_of(b),
            type_code: crate::ping::ICMP_ECHO_REQUEST,
        }
    } else if b[0] == ICMP_TIME_EXCEEDED {
        IcmpPacketType::TimeExceeded { type_code: ICMP_TIME_EXCEEDED }
    } else if b[0] == ICMP_DESTINATION_UNREACHABLE {
        IcmpPacketType::DestinationUnreachable { type_code: ICMP_DESTINATION_UNREACHABLE }
    } else {
        IcmpPacketType::Malformed { type_code: 0 }
    }
}

/// Parse an inbound ICMP payload into its classified form.
///
/// The source and destination addresses play no part in classification;
/// they are accepted for symmetry with the correlation pipeline, which
/// receives both ends of the exchange.
pub fn handle_icmp_packet(source: Ipv4Address, destination: Ipv4Address, packet: &[u8]) -> (r:
    IcmpPacketType)
    ensures
        r == spec_classify(packet@),
{
    let _ = source;
    let _ = destination;
    if packet.len() < 8 {
        return IcmpPacketType::Malformed { type_code: 0 };
    }
    let ty = packet[0];
    if ty == ICMP_ECHO_REPLY || ty == crate::ping::ICMP_ECHO_REQUEST {
        let hi = packet[6] as u16;
        let lo = packet[7] as u16;
        let sequence = hi * 256 + lo;
        if ty == ICMP_ECHO_REPLY {
            IcmpPacketType::EchoReply { sequence, type_code: ICMP_ECHO_REPLY }
        } else {
            IcmpPacketType::EchoRequest { sequence, type_code: crate::ping::ICMP_ECHO_REQUEST }
        }
    } else if ty == ICMP_TIME_EXCEEDED {
        IcmpPacketType::TimeExceeded { type_code: ICMP_TIME_EXCEEDED }
    } else if ty == ICMP_DESTINATION_UNREACHABLE {
        IcmpPacketType::DestinationUnreachable { type_code: ICMP_DESTINATION_UNREACHABLE }
    } else {
        IcmpPacketType::Malformed { type_code: 0 }
    }
}

/// What correlation produces for a classified packet: the effective
/// sequence number (0 when non-correlatable), the elapsed round-trip time,
/// and the ICMP type code.
///
/// Only an Echo Reply whose sequence number indexes the send timestamp
/// table (`1 ..= table len - 1`) correlates; its elapsed time is the
/// receipt time minus the recorded send time, clamped at zero. Everything
/// else reports sequence 0 and elapsed 0 with its type code.
pub open spec fn spec_correlate(cls: IcmpPacketType, bucket: Seq<u64>, received_at: u64) -> (
    u16,
    u64,
    u8,
) {
    match cls {
        IcmpPacketType::EchoReply { sequence, type_code } => {
            if 1 <= sequence && (sequence as int) < bucket.len() {
                let sent_at = bucket[sequence as int];
                let elapsed = if received_at >= sent_at {
                    (received_at - sent_at) as u64
                } else {
                    0u64
                };
                (sequence, elapsed, type_code)
            } else {
                (0u16, 0u64, type_code)
            }
        },
        IcmpPacketType::EchoRequest { sequence: _, type_code } => (0u16, 0u64, type_code),
        IcmpPacketType::TimeExceeded { type_code } => (0u16, 0u64, type_code),
        IcmpPacketType::DestinationUnreachable { type_code } => (0u16, 0u64, type_code),
        IcmpPacketType::Malformed { type_code } => (0u16, 0u64, type_code),
    }
}

/// Correlate a classified packet against the send timestamp table.
///
/// Writes the effective sequence number (0 when the packet is not a
/// correlatable Echo Reply, or its sequence lies outside the table) and the
/// elapsed time into the two out-parameters and returns the ICMP type code.
/// An out-of-range sequence number never indexes the table.
pub fn calculate_duration(
    parsed_packet: IcmpPacketType,
    reply_packet_seq_number: &mut u16,
    bucket: &[u64],
    delta_t: &mut u64,
    received_at: u64,
) -> (r: u8)
    ensures
        (*final(reply_packet_seq_number), *final(delta_t), r) == spec_correlate(
            parsed_packet,
            bucket@,
            received_at,
        ),
{
    match parsed_packet {
        IcmpPacketType::EchoReply { sequence, type_code } => {
            if 1 <= sequence && (sequence as usize) < bucket.len() {
                let sent_at = bucket[sequence as usize];
                *reply_packet_seq_number = sequence;
                *delta_t = if received_at >= sent_at {
                    received_at - sent_at
                } else {
                    0
                };
                type_code
            } else {
                *reply_packet_seq_number = 0;
                *delta_t = 0;
                type_code
            }
        },
        IcmpPacketType::EchoRequest { sequence: _, type_code } => {
            *reply_packet_seq_number = 0;
            *delta_t = 0;
            type_code
        },
        IcmpPacketType::TimeExceeded { type_code } => {
            *reply_packet_seq_number = 0;
            *delta_t = 0;
            type_code
        },
        IcmpPacketType::DestinationUnreachable { type_code } => {
            *reply_packet_seq_number = 0;
            *delta_t = 0;
            type_code
        },
        IcmpPacketType::Malformed { type_code } => {
            *reply_packet_seq_number = 0;
            *delta_t = 0;
            type_code
        },
    }
}

} // verus!
