//! Outbound probe packets and the probe-loop state machine.

use vstd::prelude::*;
use vstd::slice::slice_subrange;

use crate::addr::{ipv4_value, is_ipv4_text, parse_ipv4, Ipv4Address};
use crate::checksum::{
    checksum_ok, complement16, lemma_complement_checks, lemma_word_sum_zeros,
    ones_complement_checksum, word_sum,
};
use crate::config::{Configuration, MAX_PAYLOAD_SIZE};
use crate::results::{replies_wf, PingResults, Ratio, Statistics};
use crate::utils::{calculate_duration, handle_icmp_packet, spec_classify, spec_correlate, IcmpPacketType};
use crate::MAX_TIME_MICROS;

verus! {

pub const IPV4_HEADER_LEN: usize = 20;

pub const ICMP_HEADER_LEN: usize = 8;

/// ICMP type of an Echo Request.
pub const ICMP_ECHO_REQUEST: u8 = 8;

/// Fixed ICMP echo identifier stamped into every probe.
pub const ICMP_IDENTIFIER: u16 = 10;

/// Fixed IPv4 identification value stamped into every probe.
pub const IPV4_IDENTIFICATION: u16 = 13;

/// Big-endian byte pair of a 16-bit value.
pub open spec fn be16(v: int) -> Seq<u8> {
    seq![(v / 256) as u8, (v % 256) as u8]
}

pub open spec fn zero_bytes(n: nat) -> Seq<u8> {
    Seq::new(n, |i: int| 0u8)
}

/// An ICMP echo message: type, code 0, checksum slot, identifier, sequence
/// number, zero-filled payload.
pub open spec fn icmp_echo_bytes(ty: u8, ck: int, seqn: int, payload_len: nat) -> Seq<u8> {
    seq![ty, 0u8] + be16(ck) + be16(ICMP_IDENTIFIER as int) + be16(seqn) + zero_bytes(payload_len)
}

/// The checksum an Echo Request for sequence `seqn` carries: complement of
/// the word sum of the same message with a zeroed checksum slot.
pub open spec fn echo_request_checksum(seqn: int, payload_len: nat) -> int {
    complement16(word_sum(icmp_echo_bytes(ICMP_ECHO_REQUEST, 0, seqn, payload_len)))
}

/// The complete wire bytes of an ICMP Echo Request probe.
pub open spec fn echo_request_bytes(seqn: int, payload_len: nat) -> Seq<u8> {
    icmp_echo_bytes(
        ICMP_ECHO_REQUEST,
        echo_request_checksum(seqn, payload_len),
        seqn,
        payload_len,
    )
}

/// The word sum of an ICMP echo message is just its four header words:
/// the zero payload adds nothing.
pub proof fn lemma_icmp_word_sum(ty: u8, ck: int, seqn: int, n: nat)
    requires
        0 <= ck <= 0xFFFF,
        0 <= seqn <= 0xFFFF,
    ensures
        word_sum(icmp_echo_bytes(ty, ck, seqn, n)) == ty * 256 + ck + ICMP_IDENTIFIER + seqn,
{
    let b = icmp_echo_bytes(ty, ck, seqn, n);
    let s2 = b.skip(2);
    let s4 = b.skip(4);
    let s6 = b.skip(6);
    let s8 = b.skip(8);
    assert(b.len() == 8 + n);
    assert(b[0] == ty);
    assert(b[1] == 0u8);
    assert(b[2] == (ck / 256) as u8);
    assert(b[3] == (ck % 256) as u8);
    assert(b[4] == 0u8);
    assert(b[5] == (ICMP_IDENTIFIER % 256) as u8);
    assert(b[6] == (seqn / 256) as u8);
    assert(b[7] == (seqn % 256) as u8);
    assert(word_sum(b) == b[0] * 256 + b[1] + word_sum(s2));
    assert(s2.skip(2) =~= s4);
    assert(word_sum(s2) == s2[0] * 256 + s2[1] + word_sum(s4));
    assert(s4.skip(2) =~= s6);
    assert(word_sum(s4) == s4[0] * 256 + s4[1] + word_sum(s6));
    assert(s6.skip(2) =~= s8);
    assert(word_sum(s6) == s6[0] * 256 + s6[1] + word_sum(s8));
    assert(s8 =~= zero_bytes(n));
    lemma_word_sum_zeros(zero_bytes(n));
    assert(ck / 256 * 256 + ck % 256 == ck);
    assert(seqn / 256 * 256 + seqn % 256 == seqn);
}

/// A built Echo Request passes ICMP checksum verification.
pub proof fn lemma_echo_request_checksum_ok(seqn: int, n: nat)
    requires
        0 <= seqn <= 0xFFFF,
    ensures
        checksum_ok(echo_request_bytes(seqn, n)),
{
    let s0 = word_sum(icmp_echo_bytes(ICMP_ECHO_REQUEST, 0, seqn, n));
    lemma_icmp_word_sum(ICMP_ECHO_REQUEST, 0, seqn, n);
    assert(s0 == 2048 + ICMP_IDENTIFIER + seqn);
    let ck = complement16(s0);
    assert(0 <= ck <= 0xFFFF);
    lemma_icmp_word_sum(ICMP_ECHO_REQUEST, ck, seqn, n);
    lemma_complement_checks(s0);
}

/// Build the ICMP Echo Request for one probe: type 8, code 0, identifier
/// `ICMP_IDENTIFIER`, the given sequence number, a zero-filled payload, and
/// a checksum that verifies.
pub fn build_echo_request(seq_number: u16, payload_size: usize) -> (r: Vec<u8>)
    requires
        payload_size <= MAX_PAYLOAD_SIZE,
    ensures
        r@ == echo_request_bytes(seq_number as int, payload_size as nat),
        r@.len() == ICMP_HEADER_LEN + payload_size,
        checksum_ok(r@),
{
    let mut v: Vec<u8> = Vec::new();
    v.push(ICMP_ECHO_REQUEST);
    v.push(0);
    v.push(0);
    v.push(0);
    v.push((ICMP_IDENTIFIER / 256) as u8);
    v.push((ICMP_IDENTIFIER % 256) as u8);
    v.push((seq_number / 256) as u8);
    v.push((seq_number % 256) as u8);
    let mut i: usize = 0;
    while i < payload_size
        invariant
            i <= payload_size <= MAX_PAYLOAD_SIZE,
            v@ =~= icmp_echo_bytes(ICMP_ECHO_REQUEST, 0, seq_number as int, i as nat),
        decreases payload_size - i,
    {
        v.push(0);
        i = i + 1;
        proof {
            assert(v@ =~= icmp_echo_bytes(ICMP_ECHO_REQUEST, 0, seq_number as int, i as nat));
        }
    }
    let ck = ones_complement_checksum(v.as_slice());
    v.set(2, (ck / 256) as u8);
    v.set(3, (ck % 256) as u8);
    proof {
        assert(complement16(
            word_sum(icmp_echo_bytes(ICMP_ECHO_REQUEST, 0, seq_number as int, payload_size as nat)),
        ) == echo_request_checksum(seq_number as int, payload_size as nat));
        assert(v@ =~= echo_request_bytes(seq_number as int, payload_size as nat));
        lemma_echo_request_checksum_ok(seq_number as int, payload_size as nat);
    }
    v
}

/// A 20-byte IPv4 header as this probe writes it: version 4, header length
/// 5 words, DSCP in the upper six bits of the service byte, the given total
/// length, identification `IPV4_IDENTIFICATION`, no fragmentation, the given
/// TTL, protocol 1 (ICMP), a zero header checksum (left to the raw-socket
/// layer), and the given addresses.
pub open spec fn ipv4_header_bytes(
    dscp: u8,
    total_len: int,
    ttl: u8,
    src: Ipv4Address,
    dst: Ipv4Address,
) -> Seq<u8> {
    seq![0x45u8, (dscp * 4) as u8] + be16(total_len) + be16(IPV4_IDENTIFICATION as int) + seq![
        0u8,
        0u8,
        ttl,
        1u8,
        0u8,
        0u8,
        src.a,
        src.b,
        src.c,
        src.d,
        dst.a,
        dst.b,
        dst.c,
        dst.d,
    ]
}

/// A complete outbound probe datagram for sequence `seqn`.
pub open spec fn probe_packet_bytes(
    dscp: u8,
    ttl: u8,
    payload_len: nat,
    src: Ipv4Address,
    dst: Ipv4Address,
    seqn: int,
) -> Seq<u8> {
    ipv4_header_bytes(
        dscp,
        IPV4_HEADER_LEN + ICMP_HEADER_LEN + payload_len,
        ttl,
        src,
        dst,
    ) + echo_request_bytes(seqn, payload_len)
}

/// Render one outbound probe datagram: IPv4 header wrapping an ICMP Echo
/// Request with the given sequence number.
pub fn build_probe_packet(
    dscp: u8,
    ttl: u8,
    payload_size: usize,
    src: Ipv4Address,
    dst: Ipv4Address,
    seq_number: u16,
) -> (r: Vec<u8>)
    requires
        dscp < 64,
        payload_size <= MAX_PAYLOAD_SIZE,
    ensures
        r@ == probe_packet_bytes(dscp, ttl, payload_size as nat, src, dst, seq_number as int),
        r@.len() == IPV4_HEADER_LEN + ICMP_HEADER_LEN + payload_size,
{
    let total_len: usize = IPV4_HEADER_LEN + ICMP_HEADER_LEN + payload_size;
    let mut v: Vec<u8> = Vec::new();
    v.push(0x45);
    v.push(dscp * 4);
    v.push((total_len / 256) as u8);
    v.push((total_len % 256) as u8);
    v.push((IPV4_IDENTIFICATION / 256) as u8);
    v.push((IPV4_IDENTIFICATION % 256) as u8);
    v.push(0);
    v.push(0);
    v.push(ttl);
    v.push(1);
    v.push(0);
    v.push(0);
    v.push(src.a);
    v.push(src.b);
    v.push(src.c);
    v.push(src.d);
    v.push(dst.a);
    v.push(dst.b);
    v.push(dst.c);
    v.push(dst.d);
    let mut icmp = build_echo_request(seq_number, payload_size);
    let mut j: usize = 0;
    let icmp_len = icmp.len();
    while j < icmp_len
        invariant
            j <= icmp_len == icmp@.len(),
            icmp@ == echo_request_bytes(seq_number as int, payload_size as nat),
            v@ =~= ipv4_header_bytes(
                dscp,
                (IPV4_HEADER_LEN + ICMP_HEADER_LEN + payload_size) as int,
                ttl,
                src,
                dst,
            ) + icmp@.take(j as int),
        decreases icmp_len - j,
    {
        let b = icmp[j];
        v.push(b);
        j = j + 1;
        proof {
            assert(icmp@.take(j as int) =~= icmp@.take(j - 1).push(icmp@[j - 1]));
        }
    }
    proof {
        assert(icmp@.take(icmp_len as int) =~= icmp@);
        assert(v@ =~= probe_packet_bytes(
            dscp,
            ttl,
            payload_size as nat,
            src,
            dst,
            seq_number as int,
        ));
    }
    v
}

/// Render the outbound probe datagram for one sequence number straight
/// from the configuration. Fails exactly when the configured host or
/// source address is not valid IPv4 text: a configuration error, not a
/// runtime condition.
pub fn create_ip_packet(configuration: &Configuration, seq_number: u8) -> (r: Option<Vec<u8>>)
    requires
        configuration.wf(),
    ensures
        r is Some <==> (is_ipv4_text(configuration.host@) && is_ipv4_text(
            configuration.source_ip@,
        )),
        r matches Some(v) ==> v@ == probe_packet_bytes(
            configuration.dscp,
            configuration.ttl,
            configuration.payload_size as nat,
            ipv4_value(configuration.source_ip@),
            ipv4_value(configuration.host@),
            seq_number as int,
        ),
{
    let dst = parse_ipv4(configuration.host.as_str());
    let src = parse_ipv4(configuration.source_ip.as_str());
    match (dst, src) {
        (Some(dst), Some(src)) => Some(
            build_probe_packet(
                configuration.dscp,
                configuration.ttl,
                configuration.payload_size,
                src,
                dst,
                seq_number as u16,
            ),
        ),
        _ => None,
    }
}

/// An inbound byte string parses as an IPv4 datagram: long enough for a
/// header, version 4, a header length of at least five words that fits
/// inside the declared total length, which in turn fits the buffer.
pub open spec fn ipv4_parse_ok(b: Seq<u8>) -> bool {
    &&& b.len() >= IPV4_HEADER_LEN
    &&& b[0] / 16 == 4
    &&& b[0] % 16 >= 5
    &&& (b[0] % 16) * 4 <= ipv4_total_len(b)
    &&& ipv4_total_len(b) <= b.len()
}

/// The declared total length of an IPv4 datagram (bytes 2-3, big-endian).
pub open spec fn ipv4_total_len(b: Seq<u8>) -> int {
    b[2] * 256 + b[3]
}

/// The DSCP field: upper six bits of the service byte.
pub open spec fn ipv4_dscp(b: Seq<u8>) -> u8 {
    (b[1] / 4) as u8
}

/// The payload of an IPv4 datagram: everything between the header and the
/// declared total length.
pub open spec fn ipv4_payload(b: Seq<u8>) -> Seq<u8> {
    b.subrange((b[0] % 16) * 4, ipv4_total_len(b))
}

/// The running state of one probe run: configuration excerpt, how many
/// probes have been sent, the send timestamp table (`bucket`, slot 0
/// unused), the reply record (at most one entry per sequence number), and
/// the observed-DSCP bookkeeping.
pub struct ProbeState {
    pub probe_count: u8,
    pub dscp: u8,
    pub duration: u64,
    pub probes_sent: u8,
    pub bucket: Vec<u64>,
    pub replies: Vec<Option<(u64, u8)>>,
    pub dscp_changed: bool,
    pub init_dscp_return: u8,
}

/// Where the reply record stands after one inbound datagram: an Echo Reply
/// that correlates to an in-range sequence number fills that slot if it is
/// still empty (first reply wins); everything else leaves the record as it
/// was.
pub open spec fn inbound_replies(
    replies: Seq<Option<(u64, u8)>>,
    bucket: Seq<u64>,
    d: Seq<u8>,
    received_at: u64,
) -> Seq<Option<(u64, u8)>> {
    if !ipv4_parse_ok(d) {
        replies
    } else {
        let cor = spec_correlate(spec_classify(ipv4_payload(d)), bucket, received_at);
        if cor.0 != 0 && 0 <= cor.0 < replies.len() && replies[cor.0 as int] is None {
            replies.update(cor.0 as int, Some((cor.1, cor.2)))
        } else {
            replies
        }
    }
}

/// Whether one inbound datagram adds an entry to the reply record.
pub open spec fn inbound_records(
    replies: Seq<Option<(u64, u8)>>,
    bucket: Seq<u64>,
    d: Seq<u8>,
    received_at: u64,
) -> bool {
    &&& ipv4_parse_ok(d)
    &&& ({
        let cor = spec_correlate(spec_classify(ipv4_payload(d)), bucket, received_at);
        cor.0 != 0 && 0 <= cor.0 < replies.len() && replies[cor.0 as int] is None
    })
}

/// Law: an inbound Echo Reply whose sequence number lies outside the send
/// timestamp table (zero, or past its last slot) is never used to index
/// the table and leaves the reply record unchanged: it is treated as
/// non-correlatable.
pub proof fn lemma_out_of_range_reply_ignored(
    replies: Seq<Option<(u64, u8)>>,
    bucket: Seq<u64>,
    d: Seq<u8>,
    received_at: u64,
)
    requires
        spec_classify(ipv4_payload(d)) matches IcmpPacketType::EchoReply { sequence, .. } && (
        sequence == 0 || sequence >= bucket.len()),
        replies.len() == bucket.len(),
    ensures
        inbound_replies(replies, bucket, d, received_at) == replies,
{
}

/// Law: first reply wins. A datagram whose correlated sequence slot is
/// already filled (a duplicate reply), or which does not correlate at all,
/// leaves the reply record unchanged.
pub proof fn lemma_duplicate_reply_dropped(
    replies: Seq<Option<(u64, u8)>>,
    bucket: Seq<u64>,
    d: Seq<u8>,
    received_at: u64,
)
    requires
        ({
            let cor = spec_correlate(spec_classify(ipv4_payload(d)), bucket, received_at);
            cor.0 != 0 ==> 0 <= cor.0 < replies.len() && replies[cor.0 as int] is Some
        }),
    ensures
        inbound_replies(replies, bucket, d, received_at) == replies,
{
}

/// The slots of the send timestamp table written after `probes_sent`
/// probes have gone out: exactly `{1, ..., probes_sent}`.
pub open spec fn sent_slots(probes_sent: int) -> Set<int> {
    Set::new(|i: int| 1 <= i <= probes_sent)
}

/// Law: over a full run of `pc` probes the send path indexes the send
/// timestamp table with exactly the sequence numbers `{1, ..., pc}`, and
/// the `k`-th send writes slot `k`, which no earlier send has touched:
/// each slot is written exactly once.
pub proof fn lemma_send_slots_exact(pc: int, k: int)
    requires
        1 <= k <= pc,
    ensures
        sent_slots(pc).contains(k),
        !sent_slots(k - 1).contains(k),
        sent_slots(k) =~= sent_slots(k - 1).insert(k),
        forall|i: int| sent_slots(pc).contains(i) <==> 1 <= i <= pc,
{
}

impl ProbeState {
    /// The state is internally consistent: both tables span slot 0 plus
    /// one slot per probe, slot 0 of the reply record stays empty, and all
    /// recorded times stay within the engine's time bound.
    pub open spec fn wf(&self) -> bool {
        &&& self.probe_count >= 1
        &&& self.bucket@.len() == self.probe_count + 1
        &&& self.replies@.len() == self.probe_count + 1
        &&& self.probes_sent <= self.probe_count
        &&& self.replies@[0] is None
        &&& forall|i: int| 0 <= i < self.bucket@.len() ==> self.bucket@[i] <= MAX_TIME_MICROS
        &&& forall|i: int|
            0 <= i < self.replies@.len() ==> (#[trigger] self.replies@[i] matches Some(p)
                ==> p.0 <= MAX_TIME_MICROS)
    }

    /// A fresh state for one run: nothing sent, both tables zeroed.
    pub fn new(configuration: &Configuration) -> (r: ProbeState)
        requires
            configuration.wf(),
        ensures
            r.wf(),
            r.probe_count == configuration.number_of_pings,
            r.dscp == configuration.dscp,
            r.duration == configuration.duration,
            r.probes_sent == 0,
            r.bucket@ =~= Seq::new((configuration.number_of_pings + 1) as nat, |i: int| 0u64),
            r.replies@ =~= Seq::new(
                (configuration.number_of_pings + 1) as nat,
                |i: int| None::<(u64, u8)>,
            ),
            !r.dscp_changed,
            r.init_dscp_return == 0,
    {
        let n = configuration.number_of_pings as usize + 1;
        let mut bucket: Vec<u64> = Vec::new();
        let mut replies: Vec<Option<(u64, u8)>> = Vec::new();
        let mut i: usize = 0;
        while i < n
            invariant
                i <= n,
                bucket@ =~= Seq::new(i as nat, |j: int| 0u64),
                replies@ =~= Seq::new(i as nat, |j: int| None::<(u64, u8)>),
            decreases n - i,
        {
            bucket.push(0);
            replies.push(None);
            i = i + 1;
        }
        ProbeState {
            probe_count: configuration.number_of_pings,
            dscp: configuration.dscp,
            duration: configuration.duration,
            probes_sent: 0,
            bucket,
            replies,
            dscp_changed: false,
            init_dscp_return: 0,
        }
    }

    /// Probes remain to be sent.
    pub fn should_send(&self) -> (r: bool)
        ensures
            r == (self.probes_sent < self.probe_count),
    {
        self.probes_sent < self.probe_count
    }

    /// The sequence number the next probe will carry.
    pub fn next_sequence(&self) -> (r: u16)
        requires
            self.probes_sent < self.probe_count,
        ensures
            r == self.probes_sent + 1,
    {
        self.probes_sent as u16 + 1
    }

    /// Record that the probe with the next sequence number went out at
    /// `now`: its send time lands in slot `probes_sent + 1` of the send
    /// timestamp table — a slot no earlier send has written — and the sent
    /// counter advances. No other state moves. Over a full run the send
    /// path therefore writes exactly the slots `{1, ..., probe_count}`,
    /// each exactly once.
    pub fn record_send(&mut self, now: u64)
        requires
            old(self).wf(),
            old(self).probes_sent < old(self).probe_count,
            now <= MAX_TIME_MICROS,
        ensures
            final(self).wf(),
            final(self).probes_sent == old(self).probes_sent + 1,
            final(self).bucket@ == old(self).bucket@.update(old(self).probes_sent + 1, now),
            !sent_slots(old(self).probes_sent as int).contains(old(self).probes_sent + 1),
            sent_slots(final(self).probes_sent as int) =~= sent_slots(
                old(self).probes_sent as int,
            ).insert(old(self).probes_sent + 1),
            final(self).replies@ == old(self).replies@,
            final(self).probe_count == old(self).probe_count,
            final(self).dscp == old(self).dscp,
            final(self).duration == old(self).duration,
            final(self).dscp_changed == old(self).dscp_changed,
            final(self).init_dscp_return == old(self).init_dscp_return,
    {
        let idx = self.probes_sent as usize + 1;
        self.bucket.set(idx, now);
        self.probes_sent = self.probes_sent + 1;
    }

    /// The run's wall-clock budget is exhausted.
    pub fn is_finished(&self, now: u64) -> (r: bool)
        ensures
            r == (now > self.duration),
    {
        now > self.duration
    }

    /// Feed one inbound IPv4 datagram through the classifier/correlator
    /// pipeline at receipt time `received_at`.
    ///
    /// A datagram that does not parse as IPv4 changes nothing. Otherwise
    /// an observed DSCP differing from the configured one is noted, and a
    /// correlatable Echo Reply fills its sequence number's slot of the
    /// reply record — only if that slot is still empty. Returns whether an
    /// entry was recorded.
    pub fn handle_inbound(&mut self, datagram: &[u8], received_at: u64) -> (r: bool)
        requires
            old(self).wf(),
            received_at <= MAX_TIME_MICROS,
        ensures
            final(self).wf(),
            final(self).replies@ == inbound_replies(
                old(self).replies@,
                old(self).bucket@,
                datagram@,
                received_at,
            ),
            r == inbound_records(old(self).replies@, old(self).bucket@, datagram@, received_at),
            final(self).probe_count == old(self).probe_count,
            final(self).dscp == old(self).dscp,
            final(self).duration == old(self).duration,
            final(self).probes_sent == old(self).probes_sent,
            final(self).bucket@ == old(self).bucket@,
            final(self).dscp_changed == (old(self).dscp_changed || (ipv4_parse_ok(datagram@)
                && ipv4_dscp(datagram@) != old(self).dscp)),
            final(self).init_dscp_return == (if ipv4_parse_ok(datagram@) && ipv4_dscp(datagram@)
                != old(self).dscp {
                ipv4_dscp(datagram@)
            } else {
                old(self).init_dscp_return
            }),
    {
        if datagram.len() < IPV4_HEADER_LEN {
            return false;
        }
        let vihl = datagram[0];
        if vihl / 16 != 4 || vihl % 16 < 5 {
            return false;
        }
        let total = (datagram[2] as usize) * 256 + (datagram[3] as usize);
        let header_len = ((vihl % 16) as usize) * 4;
        if header_len > total || total > datagram.len() {
            return false;
        }
        let dscp = datagram[1] / 4;
        if dscp != self.dscp {
            self.dscp_changed = true;
            self.init_dscp_return = dscp;
        }
        let source = Ipv4Address { a: datagram[12], b: datagram[13], c: datagram[14], d: datagram[15] };
        let destination = Ipv4Address {
            a: datagram[16],
            b: datagram[17],
            c: datagram[18],
            d: datagram[19],
        };
        let payload = slice_subrange(datagram, header_len, total);
        let parsed_packet = handle_icmp_packet(source, destination, payload);
        let mut reply_seq: u16 = 0;
        let mut delta_t: u64 = 0;
        let type_code = calculate_duration(
            parsed_packet,
            &mut reply_seq,
            self.bucket.as_slice(),
            &mut delta_t,
            received_at,
        );
        if reply_seq != 0 {
            let idx = reply_seq as usize;
            if self.replies[idx].is_none() {
                self.replies.set(idx, Some((delta_t, type_code)));
                return true;
            }
        }
        false
    }

    /// Close the run: hand the reply record and the DSCP observations over
    /// to the run's results. The statistics are not yet derived; the
    /// caller runs `calculate` on them exactly once.
    pub fn finish(self) -> (r: PingResults)
        requires
            self.wf(),
        ensures
            r.rtt_statistics.wf(),
            r.rtt_statistics.replies@ == self.replies@,
            r.rtt_statistics.probe_count == self.probe_count,
            r.rtt_statistics.total_sample == 0,
            r.rtt_statistics.mean == (Ratio { num: 0, den: 1 }),
            r.rtt_statistics.median == (Ratio { num: 0, den: 1 }),
            r.rtt_statistics.variance == (Ratio { num: 0, den: 1 }),
            r.rtt_statistics.std_deviation == 0,
            r.dscp_changed == self.dscp_changed,
            r.init_dscp_return == self.init_dscp_return,
            r.original_dscp == self.dscp,
            r.result == 0,
            r.host_address@.len() == 0,
            r.host_tested@.len() == 0,
            r.host_name@.len() == 0,
    {
        proof {
            assert(replies_wf(self.replies@, self.probe_count));
        }
        PingResults {
            result: 0,
            host_address: String::new(),
            host_tested: String::new(),
            host_name: String::new(),
            dscp_changed: self.dscp_changed,
            init_dscp_return: self.init_dscp_return,
            original_dscp: self.dscp,
            rtt_statistics: Statistics::new(self.probe_count, self.replies),
        }
    }
}

/// Law: round trip. The ICMP message built for sequence `s`, classified as
/// inbound traffic would be, reads back as an Echo Request carrying
/// exactly `s`, and its checksum verifies.
pub proof fn lemma_echo_request_round_trip(seq_number: u16, payload_len: nat)
    ensures
        spec_classify(echo_request_bytes(seq_number as int, payload_len))
            == (IcmpPacketType::EchoRequest { sequence: seq_number, type_code: ICMP_ECHO_REQUEST }),
        checksum_ok(echo_request_bytes(seq_number as int, payload_len)),
{
    let b = echo_request_bytes(seq_number as int, payload_len);
    assert(b.len() == 8 + payload_len);
    assert(b[0] == ICMP_ECHO_REQUEST);
    assert(b[6] == (seq_number as int / 256) as u8);
    assert(b[7] == (seq_number as int % 256) as u8);
    assert(seq_number as int / 256 * 256 + seq_number as int % 256 == seq_number);
    lemma_echo_request_checksum_ok(seq_number as int, payload_len);
}

} // verus!
