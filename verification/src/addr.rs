//! IPv4 addresses as plain octets, and parsing of dotted-quad text.
//!
//! An address in text is four decimal numbers in `0 ..= 255`, each without
//! leading zeros, separated by single dots. `parse_ipv4` accepts exactly
//! those strings.

use vstd::prelude::*;

verus! {

/// An IPv4 address held as its four octets, most significant first.
#[derive(Debug, Clone, Copy, PartialEq, Eq, Structural)]
pub struct Ipv4Address {
    pub a: u8,
    pub b: u8,
    pub c: u8,
    pub d: u8,
}

pub open spec fn is_dec_digit(c: char) -> bool {
    48 <= c as int <= 57
}

pub open spec fn digit_val(c: char) -> int {
    c as int - 48
}

/// The decimal value of a digit string, most significant digit first.
pub open spec fn octet_val(s: Seq<char>) -> int
    decreases s.len(),
{
    if s.len() == 0 {
        0
    } else {
        octet_val(s.drop_last()) * 10 + digit_val(s.last())
    }
}

/// A decimal octet in text: one to three digits, no leading zero, value at
/// most 255.
pub open spec fn is_octet_text(s: Seq<char>) -> bool {
    &&& 1 <= s.len() <= 3
    &&& forall|i: int| 0 <= i < s.len() ==> is_dec_digit(#[trigger] s[i])
    &&& (s.len() > 1 ==> s[0] != '0')
    &&& octet_val(s) <= 255
}

/// Positions `i < j < k` split `s` into four octet texts separated by
/// dots.
pub open spec fn ipv4_split_at(s: Seq<char>, i: int, j: int, k: int) -> bool {
    &&& 0 <= i < j < k < s.len()
    &&& s[i] == '.'
    &&& s[j] == '.'
    &&& s[k] == '.'
    &&& is_octet_text(s.subrange(0, i))
    &&& is_octet_text(s.subrange(i + 1, j))
    &&& is_octet_text(s.subrange(j + 1, k))
    &&& is_octet_text(s.subrange(k + 1, s.len() as int))
}

/// `s` is the text of an IPv4 address.
pub open spec fn is_ipv4_text(s: Seq<char>) -> bool {
    exists|i: int, j: int, k: int| ipv4_split_at(s, i, j, k)
}

/// The address a split denotes.
pub open spec fn split_octets(s: Seq<char>, i: int, j: int, k: int) -> Ipv4Address {
    Ipv4Address {
        a: octet_val(s.subrange(0, i)) as u8,
        b: octet_val(s.subrange(i + 1, j)) as u8,
        c: octet_val(s.subrange(j + 1, k)) as u8,
        d: octet_val(s.subrange(k + 1, s.len() as int)) as u8,
    }
}

/// The address an IPv4 text denotes. The split of a valid text is unique
/// (`lemma_three_dots_unique`), so the choice below is determined.
pub open spec fn ipv4_value(s: Seq<char>) -> Ipv4Address {
    let (i, j, k) = choose|i: int, j: int, k: int| ipv4_split_at(s, i, j, k);
    split_octets(s, i, j, k)
}

/// Digit strings of up to three digits stay below 1000 (and are
/// non-negative).
proof fn lemma_octet_val_bound(s: Seq<char>)
    requires
        forall|i: int| 0 <= i < s.len() ==> is_dec_digit(#[trigger] s[i]),
        s.len() <= 3,
    ensures
        0 <= octet_val(s) < if s.len() == 0 {
            1int
        } else if s.len() == 1 {
            10int
        } else if s.len() == 2 {
            100int
        } else {
            1000int
        },
    decreases s.len(),
{
    if s.len() > 0 {
        assert(forall|i: int|
            0 <= i < s.drop_last().len() ==> is_dec_digit(#[trigger] s.drop_last()[i]));
        lemma_octet_val_bound(s.drop_last());
    }
}

/// In a split IPv4 text the dots stand exactly at the three split
/// positions: the four segments hold digits only.
proof fn lemma_split_dots(s: Seq<char>, i: int, j: int, k: int)
    requires
        ipv4_split_at(s, i, j, k),
    ensures
        forall|p: int| 0 <= p < s.len() ==> (s[p] == '.' <==> (p == i || p == j || p == k)),
{
    assert forall|p: int| 0 <= p < s.len() implies (s[p] == '.' <==> (p == i || p == j || p
        == k)) by {
        if p != i && p != j && p != k {
            if p < i {
                assert(s.subrange(0, i)[p] == s[p]);
                assert(is_dec_digit(s[p]));
            } else if p < j {
                assert(s.subrange(i + 1, j)[p - i - 1] == s[p]);
                assert(is_dec_digit(s[p]));
            } else if p < k {
                assert(s.subrange(j + 1, k)[p - j - 1] == s[p]);
                assert(is_dec_digit(s[p]));
            } else {
                assert(s.subrange(k + 1, s.len() as int)[p - k - 1] == s[p]);
                assert(is_dec_digit(s[p]));
            }
            assert(s[p] != '.');
        }
    }
}

/// A valid split is unique: any split's positions are the text's three dot
/// positions in order.
proof fn lemma_three_dots_unique(s: Seq<char>, d0: int, d1: int, d2: int, i: int, j: int, k: int)
    requires
        ipv4_split_at(s, i, j, k),
        0 <= d0 < d1 < d2 < s.len(),
        s[d0] == '.',
        s[d1] == '.',
        s[d2] == '.',
    ensures
        i == d0 && j == d1 && k == d2,
{
    lemma_split_dots(s, i, j, k);
}

/// Parse one decimal octet out of `s[from..to]`: succeeds exactly on octet
/// texts, returning their value.
fn parse_octet(s: &str, from: usize, to: usize) -> (r: Option<u8>)
    requires
        from <= to <= s@.len(),
    ensures
        r is Some <==> is_octet_text(s@.subrange(from as int, to as int)),
        r matches Some(v) ==> v == octet_val(s@.subrange(from as int, to as int)),
{
    let seg = Ghost(s@.subrange(from as int, to as int));
    let seg_len = to - from;
    if seg_len == 0 || seg_len > 3 {
        return None;
    }
    if seg_len > 1 {
        let c0 = s.get_char(from);
        if c0 == '0' {
            proof {
                assert(seg@[0] == s@[from as int]);
            }
            return None;
        }
        proof {
            assert(seg@[0] == s@[from as int]);
        }
    }
    let mut v: u32 = 0;
    let mut t: usize = 0;
    while t < seg_len
        invariant
            t <= seg_len == to - from,
            seg_len <= 3,
            from <= to <= s@.len(),
            seg@ == s@.subrange(from as int, to as int),
            forall|x: int| 0 <= x < t ==> is_dec_digit(#[trigger] seg@[x]),
            v == octet_val(s@.subrange(from as int, (from + t) as int)),
            0 <= v < 1000,
        decreases seg_len - t,
    {
        let c = s.get_char(from + t);
        let cu = c as u32;
        if cu < 48 || cu > 57 {
            proof {
                assert(seg@[t as int] == s@[(from + t) as int]);
                assert(!is_dec_digit(seg@[t as int]));
            }
            return None;
        }
        proof {
            let pre = s@.subrange(from as int, (from + t) as int);
            let post = s@.subrange(from as int, (from + t + 1) as int);
            assert(post.drop_last() =~= pre);
            assert(post.last() == s@[(from + t) as int]);
            assert(seg@[t as int] == s@[(from + t) as int]);
            assert(forall|x: int| 0 <= x < post.len() ==> #[trigger] post[x] == seg@[x]);
            lemma_octet_val_bound(post);
        }
        v = v * 10 + (cu - 48);
        t = t + 1;
    }
    proof {
        assert(s@.subrange(from as int, (from + t) as int) =~= seg@);
    }
    if v > 255 {
        return None;
    }
    proof {
        assert(is_octet_text(seg@));
    }
    Some(v as u8)
}

/// Parse a dotted-quad IPv4 address. Returns the denoted address exactly
/// when the whole string is one; anything else is rejected.
pub fn parse_ipv4(s: &str) -> (r: Option<Ipv4Address>)
    ensures
        r is Some <==> is_ipv4_text(s@),
        r matches Some(a) ==> a == ipv4_value(s@),
{
    let n = s.unicode_len();
    let mut dots: Vec<usize> = Vec::new();
    let mut i: usize = 0;
    while i < n
        invariant
            i <= n == s@.len(),
            forall|t: int|
                0 <= t < dots@.len() ==> #[trigger] dots@[t] < i && s@[dots@[t] as int] == '.',
            forall|t1: int, t2: int|
                0 <= t1 < t2 < dots@.len() ==> #[trigger] dots@[t1] < #[trigger] dots@[t2],
            forall|p: int|
                0 <= p < i && s@[p] == '.' ==> exists|t: int|
                    0 <= t < dots@.len() && #[trigger] dots@[t] == p,
        decreases n - i,
    {
        let c = s.get_char(i);
        if c == '.' {
            let ghost old_dots = dots@;
            dots.push(i);
            proof {
                assert(dots@ == old_dots.push(i));
                assert forall|p: int| 0 <= p < i + 1 && s@[p] == '.' implies exists|t: int|
                    0 <= t < dots@.len() && #[trigger] dots@[t] == p by {
                    if p == i {
                        assert(dots@[dots@.len() - 1] == p);
                    } else {
                        let t0 = choose|t: int| 0 <= t < old_dots.len() && old_dots[t] == p;
                        assert(dots@[t0] == p);
                    }
                }
            }
        }
        i = i + 1;
    }
    if dots.len() != 3 {
        proof {
            if is_ipv4_text(s@) {
                let (ci, cj, ck) = choose|ci: int, cj: int, ck: int|
                    ipv4_split_at(s@, ci, cj, ck);
                lemma_split_dots(s@, ci, cj, ck);
                let ti = choose|t: int| 0 <= t < dots@.len() && dots@[t] == ci;
                let tj = choose|t: int| 0 <= t < dots@.len() && dots@[t] == cj;
                let tk = choose|t: int| 0 <= t < dots@.len() && dots@[t] == ck;
                assert(ti != tj && tj != tk && ti != tk);
                assert(dots@.len() >= 3);
                assert(dots@.len() > 3 ==> {
                    &&& dots@[0] < dots@[1] < dots@[2] < dots@[3]
                    &&& s@[dots@[0] as int] == '.'
                    &&& s@[dots@[1] as int] == '.'
                    &&& s@[dots@[2] as int] == '.'
                    &&& s@[dots@[3] as int] == '.'
                });
                assert(false);
            }
        }
        return None;
    }
    let d0 = dots[0];
    let d1 = dots[1];
    let d2 = dots[2];
    let o0 = parse_octet(s, 0, d0);
    let o1 = parse_octet(s, d0 + 1, d1);
    let o2 = parse_octet(s, d1 + 1, d2);
    let o3 = parse_octet(s, d2 + 1, n);
    if o0.is_some() && o1.is_some() && o2.is_some() && o3.is_some() {
        let addr = Ipv4Address {
            a: o0.unwrap(),
            b: o1.unwrap(),
            c: o2.unwrap(),
            d: o3.unwrap(),
        };
        proof {
            assert(ipv4_split_at(s@, d0 as int, d1 as int, d2 as int));
            let (ci, cj, ck) = choose|ci: int, cj: int, ck: int| ipv4_split_at(s@, ci, cj, ck);
            lemma_three_dots_unique(s@, d0 as int, d1 as int, d2 as int, ci, cj, ck);
            assert(addr == ipv4_value(s@));
        }
        Some(addr)
    } else {
        proof {
            if is_ipv4_text(s@) {
                let (ci, cj, ck) = choose|ci: int, cj: int, ck: int|
                    ipv4_split_at(s@, ci, cj, ck);
                lemma_three_dots_unique(s@, d0 as int, d1 as int, d2 as int, ci, cj, ck);
                assert(false);
            }
        }
        None
    }
}

} // verus!
