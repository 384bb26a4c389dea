//! Wire-format tests: the packet builder, the checksum, and the
//! classifier, cross-checked against pnet's packet parsers.

use icmp_probe::addr::{parse_ipv4, Ipv4Address};
use icmp_probe::checksum::verify_checksum;
use icmp_probe::config::Configuration;
use icmp_probe::ping::{build_echo_request, build_probe_packet, create_ip_packet};
use icmp_probe::utils::{handle_icmp_packet, IcmpPacketType};

use pnet::packet::icmp::echo_request::EchoRequestPacket;
use pnet::packet::ipv4::Ipv4Packet;
use pnet::packet::Packet;

fn addr(a: u8, b: u8, c: u8, d: u8) -> Ipv4Address {
    Ipv4Address { a, b, c, d }
}

#[test]
fn echo_request_layout() {
    let p = build_echo_request(5, 16);
    assert_eq!(p.len(), 24);
    assert_eq!(p[0], 8); // type: echo request
    assert_eq!(p[1], 0); // code
    assert_eq!(p[4], 0); // identifier, big-endian 10
    assert_eq!(p[5], 10);
    assert_eq!(p[6], 0); // sequence, big-endian 5
    assert_eq!(p[7], 5);
    assert!(p[8..].iter().all(|&b| b == 0));
}

#[test]
fn echo_request_round_trips_through_classifier() {
    for seq in [1u16, 2, 77, 255, 40000] {
        let p = build_echo_request(seq, 60);
        let cls = handle_icmp_packet(addr(1, 2, 3, 4), addr(5, 6, 7, 8), &p);
        assert_eq!(
            cls,
            IcmpPacketType::EchoRequest {
                sequence: seq,
                type_code: 8
            }
        );
        assert!(verify_checksum(&p));
    }
}

#[test]
fn checksum_matches_pnet() {
    let p = build_echo_request(9, 60);
    let stored = u16::from_be_bytes([p[2], p[3]]);
    let expected = pnet::util::checksum(&p, 1);
    assert_eq!(stored, expected);
    let parsed = EchoRequestPacket::new(&p).expect("pnet parses the echo request");
    assert_eq!(parsed.get_sequence_number(), 9);
    assert_eq!(parsed.get_identifier(), 10);
    assert_eq!(parsed.get_checksum(), expected);
}

#[test]
fn probe_packet_header_fields_via_pnet() {
    let src = addr(192, 168, 1, 71);
    let dst = addr(172, 217, 14, 238);
    let p = build_probe_packet(0, 15, 60, src, dst, 3);
    assert_eq!(p.len(), 88);
    let parsed = Ipv4Packet::new(&p).expect("pnet parses the datagram");
    assert_eq!(parsed.get_version(), 4);
    assert_eq!(parsed.get_header_length(), 5);
    assert_eq!(parsed.get_total_length(), 88);
    assert_eq!(parsed.get_identification(), 13);
    assert_eq!(parsed.get_ttl(), 15);
    assert_eq!(parsed.get_next_level_protocol().0, 1);
    assert_eq!(parsed.get_dscp(), 0);
    assert_eq!(parsed.get_source().octets(), [192, 168, 1, 71]);
    assert_eq!(parsed.get_destination().octets(), [172, 217, 14, 238]);
    let inner = parsed.payload();
    assert_eq!(inner[0], 8);
    assert_eq!(inner[7], 3);
}

#[test]
fn probe_packet_carries_dscp() {
    let p = build_probe_packet(46, 64, 0, addr(10, 0, 0, 1), addr(10, 0, 0, 2), 1);
    let parsed = Ipv4Packet::new(&p).expect("pnet parses the datagram");
    assert_eq!(parsed.get_dscp(), 46);
}

#[test]
fn create_ip_packet_uses_configured_addresses() {
    let config = Configuration::default();
    let p = create_ip_packet(&config, 1).expect("default addresses are valid");
    let parsed = Ipv4Packet::new(&p).expect("pnet parses the datagram");
    assert_eq!(parsed.get_source().octets(), [192, 168, 1, 71]);
    assert_eq!(parsed.get_destination().octets(), [172, 217, 14, 238]);
    assert_eq!(parsed.get_total_length(), 88);
}

#[test]
fn create_ip_packet_rejects_bad_addresses() {
    let mut config = Configuration::default();
    config.host = "not-an-address".to_owned();
    assert!(create_ip_packet(&config, 1).is_none());
    let mut config = Configuration::default();
    config.source_ip = "300.1.1.1".to_owned();
    assert!(create_ip_packet(&config, 1).is_none());
}

#[test]
fn parse_ipv4_accepts_dotted_quads() {
    assert_eq!(parse_ipv4("192.168.1.71"), Some(addr(192, 168, 1, 71)));
    assert_eq!(parse_ipv4("0.0.0.0"), Some(addr(0, 0, 0, 0)));
    assert_eq!(parse_ipv4("255.255.255.255"), Some(addr(255, 255, 255, 255)));
    assert_eq!(parse_ipv4("8.8.8.8"), Some(addr(8, 8, 8, 8)));
}

#[test]
fn parse_ipv4_rejects_everything_else() {
    assert_eq!(parse_ipv4(""), None);
    assert_eq!(parse_ipv4("1.2.3"), None);
    assert_eq!(parse_ipv4("1.2.3.4.5"), None);
    assert_eq!(parse_ipv4("256.1.1.1"), None);
    assert_eq!(parse_ipv4("01.2.3.4"), None);
    assert_eq!(parse_ipv4("1..2.3"), None);
    assert_eq!(parse_ipv4("a.b.c.d"), None);
    assert_eq!(parse_ipv4("1.2.3.4 "), None);
    assert_eq!(parse_ipv4(".1.2.3"), None);
}

#[test]
fn classifier_tags_each_icmp_type() {
    let s = addr(1, 1, 1, 1);
    let d = addr(2, 2, 2, 2);
    let reply = [0u8, 0, 0, 0, 0, 10, 0, 7];
    assert_eq!(
        handle_icmp_packet(s, d, &reply),
        IcmpPacketType::EchoReply {
            sequence: 7,
            type_code: 0
        }
    );
    let exceeded = [11u8, 0, 0, 0, 0, 0, 0, 0];
    assert_eq!(
        handle_icmp_packet(s, d, &exceeded),
        IcmpPacketType::TimeExceeded { type_code: 11 }
    );
    let unreachable = [3u8, 1, 0, 0, 0, 0, 0, 0];
    assert_eq!(
        handle_icmp_packet(s, d, &unreachable),
        IcmpPacketType::DestinationUnreachable { type_code: 3 }
    );
    let unknown = [77u8, 0, 0, 0, 0, 0, 0, 0];
    assert_eq!(
        handle_icmp_packet(s, d, &unknown),
        IcmpPacketType::Malformed { type_code: 0 }
    );
    let short = [0u8, 0, 0];
    assert_eq!(
        handle_icmp_packet(s, d, &short),
        IcmpPacketType::Malformed { type_code: 0 }
    );
}
