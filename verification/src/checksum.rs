//! The 16-bit one's-complement internet checksum used by ICMP.

use vstd::prelude::*;

verus! {

/// Sum of the big-endian 16-bit words of `b`, as an unbounded integer.
/// A trailing odd byte counts as the high byte of a final word.
pub open spec fn word_sum(b: Seq<u8>) -> int
    decreases b.len(),
{
    if b.len() == 0 {
        0
    } else if b.len() == 1 {
        b[0] * 256
    } else {
        b[0] * 256 + b[1] + word_sum(b.skip(2))
    }
}

/// One's-complement folding of a word sum into 16 bits: congruent to `s`
/// modulo 0xFFFF, zero only for a zero sum.
pub open spec fn fold_sum(s: int) -> int {
    if s % 0xFFFF == 0 {
        if s == 0 {
            0
        } else {
            0xFFFF
        }
    } else {
        s % 0xFFFF
    }
}

/// The checksum field value that makes a packet whose words (with a zeroed
/// checksum slot) sum to `s` verify correctly.
pub open spec fn complement16(s: int) -> int {
    0xFFFF - fold_sum(s)
}

/// A packet's words (checksum slot included) pass one's-complement
/// verification: the folded sum is 0xFFFF.
pub open spec fn checksum_ok(b: Seq<u8>) -> bool {
    word_sum(b) > 0 && word_sum(b) % 0xFFFF == 0
}

/// A run of zero bytes contributes nothing to the word sum.
pub proof fn lemma_word_sum_zeros(b: Seq<u8>)
    requires
        forall|i: int| 0 <= i < b.len() ==> b[i] == 0,
    ensures
        word_sum(b) == 0,
    decreases b.len(),
{
    if b.len() >= 2 {
        lemma_word_sum_zeros(b.skip(2));
    }
}

/// Placing the complement of the zero-slot word sum into the checksum slot
/// yields a packet that verifies: if the full words sum to
/// `s + complement16(s)` with `s > 0`, the folded total is 0xFFFF.
pub proof fn lemma_complement_checks(s: int)
    requires
        s > 0,
    ensures
        (s + complement16(s)) > 0,
        (s + complement16(s)) % 0xFFFF == 0,
{
    if s % 0xFFFF == 0 {
        assert(s + complement16(s) == s);
    } else {
        let r = s % 0xFFFF;
        assert(s + complement16(s) == (s - r) + 0xFFFF);
        assert((s - r) % 0xFFFF == 0) by {
            vstd::arithmetic::div_mod::lemma_sub_mod_noop(s, r, 0xFFFF);
        };
        assert(((s - r) + 0xFFFF) % 0xFFFF == 0) by {
            vstd::arithmetic::div_mod::lemma_add_mod_noop(s - r, 0xFFFF, 0xFFFF);
        };
    }
}

/// Sum of the 16-bit words of `b`, executable form.
pub fn word_sum_exec(b: &[u8]) -> (r: u64)
    requires
        b@.len() <= 0x1_0000,
    ensures
        r == word_sum(b@),
{
    let n = b.len();
    let mut i: usize = 0;
    let mut sum: u64 = 0;
    proof {
        assert(b@.skip(0) =~= b@);
    }
    while i + 1 < n
        invariant
            i <= n == b@.len() <= 0x1_0000,
            i % 2 == 0,
            sum + word_sum(b@.skip(i as int)) == word_sum(b@),
            sum <= i * 0x10000,
        decreases n - i,
    {
        let hi = b[i] as u64;
        let lo = b[i + 1] as u64;
        proof {
            assert(b@.skip(i as int).skip(2) =~= b@.skip(i + 2));
            assert(b@.skip(i as int)[0] == b@[i as int]);
            assert(b@.skip(i as int)[1] == b@[i + 1]);
        }
        sum = sum + hi * 256 + lo;
        i = i + 2;
    }
    if i < n {
        proof {
            assert(b@.skip(i as int).len() == 1);
            assert(b@.skip(i as int)[0] == b@[i as int]);
        }
        sum = sum + (b[i] as u64) * 256;
        i = i + 1;
    }
    proof {
        assert(b@.skip(n as int) =~= Seq::<u8>::empty());
    }
    sum
}

/// The value to place in a checksum field: one's-complement of the folded
/// word sum of the packet with that field zeroed.
pub fn ones_complement_checksum(b: &[u8]) -> (r: u16)
    requires
        b@.len() <= 0x1_0000,
    ensures
        r == complement16(word_sum(b@)),
{
    let s = word_sum_exec(b);
    let folded: u64 = if s % 0xFFFF == 0 {
        if s == 0 {
            0
        } else {
            0xFFFF
        }
    } else {
        s % 0xFFFF
    };
    (0xFFFF - folded) as u16
}

/// Whether a packet (checksum slot included) passes checksum verification.
pub fn verify_checksum(b: &[u8]) -> (r: bool)
    requires
        b@.len() <= 0x1_0000,
    ensures
        r == checksum_ok(b@),
{
    let s = word_sum_exec(b);
    s > 0 && s % 0xFFFF == 0
}

} // verus!
