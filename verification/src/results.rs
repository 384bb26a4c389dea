//! Aggregation of collected round-trip samples into run statistics.
//!
//! All derived quantities are exact: averages and percentages are rational
//! numbers (`Ratio`), the standard deviation is the floor square root of
//! the variance. With no samples every derived quantity is zero.

use vstd::prelude::*;
use vstd::relations::{sorted_by, total_ordering};
use vstd::seq_lib::group_to_multiset_ensures;
use vstd::seq_lib::lemma_sorted_unique;
use vstd::seq_lib::{to_multiset_build, to_multiset_insert};

use crate::utils::ICMP_ECHO_REPLY;
use crate::MAX_TIME_MICROS;

verus! {

/// An exact non-negative rational: `num / den`, with `den >= 1` wherever
/// one is produced by this library.
#[derive(Debug, Clone, Copy, PartialEq, Eq, Structural)]
pub struct Ratio {
    pub num: u128,
    pub den: u128,
}

impl Ratio {
    /// The rational zero, written over denominator one.
    pub fn zero() -> (r: Ratio)
        ensures
            r == (Ratio { num: 0, den: 1 }),
    {
        Ratio { num: 0, den: 1 }
    }

    /// Whether this rational equals the integer `k`.
    pub fn eq_int(&self, k: u64) -> (r: bool)
        requires
            self.den <= 0xFFFF_FFFF_FFFF_FFFF,
        ensures
            r == (self.num == k * self.den),
    {
        proof {
            assert((k as int) * (self.den as int) <= 0xFFFF_FFFF_FFFF_FFFF
                * 0xFFFF_FFFF_FFFF_FFFF) by (nonlinear_arith)
                requires
                    0 <= k as int <= 0xFFFF_FFFF_FFFF_FFFF,
                    0 <= self.den as int <= 0xFFFF_FFFF_FFFF_FFFF,
            ;
        }
        self.num == (k as u128) * self.den
    }
}

/// The entries of the reply record that are filled, in sequence order.
pub open spec fn recorded(replies: Seq<Option<(u64, u8)>>) -> Seq<(u64, u8)>
    decreases replies.len(),
{
    if replies.len() == 0 {
        Seq::empty()
    } else {
        let rest = recorded(replies.drop_last());
        match replies.last() {
            Some(p) => rest.push(p),
            None => rest,
        }
    }
}

/// The recorded elapsed times, in sequence order.
pub open spec fn recorded_vals(replies: Seq<Option<(u64, u8)>>) -> Seq<u64> {
    recorded(replies).map_values(|p: (u64, u8)| p.0)
}

pub open spec fn sum_of(s: Seq<u64>) -> int
    decreases s.len(),
{
    if s.len() == 0 {
        0
    } else {
        sum_of(s.drop_last()) + s.last()
    }
}

/// Sum of squared deviations, scaled to stay integral: each sample `x`
/// contributes `(n*x - total)^2`, which is `n^2` times its squared
/// deviation from the mean `total / n`.
pub open spec fn sq_dev_sum(s: Seq<u64>, n: int, total: int) -> int
    decreases s.len(),
{
    if s.len() == 0 {
        0
    } else {
        sq_dev_sum(s.drop_last(), n, total) + (n * s.last() - total) * (n * s.last() - total)
    }
}

pub open spec fn abs_diff(a: int, b: int) -> int {
    if a >= b {
        a - b
    } else {
        b - a
    }
}

/// Sum of absolute differences between consecutive samples.
pub open spec fn jitter_sum(s: Seq<u64>) -> int
    decreases s.len(),
{
    if s.len() < 2 {
        0
    } else {
        jitter_sum(s.drop_last()) + abs_diff(s.last() as int, s[s.len() - 2] as int)
    }
}

/// How many recorded entries carry a non-reply ICMP type code.
pub open spec fn count_non_reply(s: Seq<(u64, u8)>) -> int
    decreases s.len(),
{
    if s.len() == 0 {
        0
    } else {
        count_non_reply(s.drop_last()) + if s.last().1 != ICMP_ECHO_REPLY {
            1int
        } else {
            0int
        }
    }
}

pub open spec fn min_of(s: Seq<u64>) -> int
    decreases s.len(),
{
    if s.len() == 0 {
        0
    } else if s.len() == 1 {
        s[0] as int
    } else {
        let m = min_of(s.drop_last());
        if s.last() < m {
            s.last() as int
        } else {
            m
        }
    }
}

pub open spec fn max_of(s: Seq<u64>) -> int
    decreases s.len(),
{
    if s.len() == 0 {
        0
    } else if s.len() == 1 {
        s[0] as int
    } else {
        let m = max_of(s.drop_last());
        if s.last() > m {
            s.last() as int
        } else {
            m
        }
    }
}

/// The ordering the sample sort uses.
pub open spec fn u64_leq() -> spec_fn(u64, u64) -> bool {
    |a: u64, b: u64| a <= b
}

/// The recorded elapsed times in ascending order.
pub open spec fn sorted_vals(s: Seq<u64>) -> Seq<u64> {
    s.sort_by(u64_leq())
}

/// The arithmetic mean as an exact rational; zero when there are no
/// samples.
pub open spec fn mean_ratio(vals: Seq<u64>) -> Ratio {
    if vals.len() == 0 {
        Ratio { num: 0, den: 1 }
    } else {
        Ratio { num: sum_of(vals) as u128, den: vals.len() as u128 }
    }
}

/// The population variance as an exact rational: the scaled sum of squared
/// deviations over `n^3`; zero when there are no samples.
pub open spec fn variance_ratio(vals: Seq<u64>) -> Ratio {
    if vals.len() == 0 {
        Ratio { num: 0, den: 1 }
    } else {
        let n = vals.len() as int;
        Ratio {
            num: sq_dev_sum(vals, n, sum_of(vals)) as u128,
            den: (n * n * n) as u128,
        }
    }
}

/// The median as an exact rational: middle of the sorted samples, the
/// average of the two central ones for an even count; zero when there are
/// no samples.
pub open spec fn median_ratio(vals: Seq<u64>) -> Ratio {
    if vals.len() == 0 {
        Ratio { num: 0, den: 1 }
    } else {
        let s = sorted_vals(vals);
        let n = vals.len() as int;
        if n % 2 == 1 {
            Ratio { num: s[n / 2] as u128, den: 1 }
        } else {
            Ratio { num: (s[n / 2 - 1] + s[n / 2]) as u128, den: 2 }
        }
    }
}

/// The mean absolute difference between consecutive samples in sequence
/// order; zero when fewer than two samples arrived.
pub open spec fn jitter_ratio(vals: Seq<u64>) -> Ratio {
    if vals.len() < 2 {
        Ratio { num: 0, den: 1 }
    } else {
        Ratio { num: jitter_sum(vals) as u128, den: (vals.len() - 1) as u128 }
    }
}

/// `r` is the floor of the square root of the rational `q`.
pub open spec fn is_floor_sqrt_ratio(r: int, q: Ratio) -> bool {
    &&& r >= 0
    &&& r * r * q.den <= q.num
    &&& q.num < (r + 1) * (r + 1) * q.den
}

/// Law: over an empty reply record every derived statistic is defined and
/// zero, written over denominator one — aggregation never divides by the
/// sample count when it is zero.
pub proof fn lemma_empty_record_statistics(replies: Seq<Option<(u64, u8)>>)
    requires
        recorded(replies).len() == 0,
    ensures
        mean_ratio(recorded_vals(replies)) == (Ratio { num: 0, den: 1 }),
        variance_ratio(recorded_vals(replies)) == (Ratio { num: 0, den: 1 }),
        median_ratio(recorded_vals(replies)) == (Ratio { num: 0, den: 1 }),
        jitter_ratio(recorded_vals(replies)) == (Ratio { num: 0, den: 1 }),
{
}

/// With slot 0 permanently empty, at most one entry per probe is recorded.
pub proof fn lemma_recorded_len_first_none(replies: Seq<Option<(u64, u8)>>)
    requires
        replies.len() >= 1,
        replies[0] is None,
    ensures
        recorded(replies).len() <= replies.len() - 1,
    decreases replies.len(),
{
    if replies.len() == 1 {
    } else {
        assert(replies.drop_last()[0] is None);
        lemma_recorded_len_first_none(replies.drop_last());
    }
}

/// Every recorded elapsed time is one of the reply record's entries, so
/// the engine's time bound carries over to the samples.
pub proof fn lemma_recorded_bounded(replies: Seq<Option<(u64, u8)>>)
    requires
        forall|i: int|
            0 <= i < replies.len() ==> (#[trigger] replies[i] matches Some(p) ==> p.0
                <= MAX_TIME_MICROS),
    ensures
        forall|j: int|
            0 <= j < recorded(replies).len() ==> (#[trigger] recorded(replies)[j]).0
                <= MAX_TIME_MICROS,
    decreases replies.len(),
{
    if replies.len() > 0 {
        assert(forall|i: int|
            0 <= i < replies.drop_last().len() ==> (#[trigger] replies.drop_last()[i]
                matches Some(p) ==> p.0 <= MAX_TIME_MICROS));
        lemma_recorded_bounded(replies.drop_last());
        let rest = recorded(replies.drop_last());
        assert(replies[replies.len() - 1] matches Some(p) ==> p.0 <= MAX_TIME_MICROS);
        assert forall|j: int|
            0 <= j < recorded(replies).len() implies (#[trigger] recorded(
            replies,
        )[j]).0 <= MAX_TIME_MICROS by {
            if replies.last() is Some {
                assert(recorded(replies) == rest.push(replies.last()->0));
                if j < rest.len() {
                    assert(recorded(replies)[j] == rest[j]);
                } else {
                    assert(recorded(replies)[j] == replies.last()->0);
                }
            } else {
                assert(recorded(replies) == rest);
            }
        }
    }
}

pub proof fn lemma_sum_of_bound(s: Seq<u64>)
    requires
        forall|i: int| 0 <= i < s.len() ==> s[i] <= MAX_TIME_MICROS,
    ensures
        0 <= sum_of(s) <= s.len() * MAX_TIME_MICROS,
    decreases s.len(),
{
    if s.len() > 0 {
        lemma_sum_of_bound(s.drop_last());
        assert(s.len() * MAX_TIME_MICROS == (s.len() - 1) * MAX_TIME_MICROS + MAX_TIME_MICROS)
            by (nonlinear_arith);
    }
}

pub proof fn lemma_sq_dev_sum_bound(s: Seq<u64>, n: int, total: int)
    requires
        forall|i: int| 0 <= i < s.len() ==> s[i] <= MAX_TIME_MICROS,
        0 <= n <= 255,
        0 <= total <= 255 * MAX_TIME_MICROS,
    ensures
        0 <= sq_dev_sum(s, n, total) <= s.len() * 0x1_0000_0000_0000_0000_0000_0000,
    decreases s.len(),
{
    if s.len() > 0 {
        lemma_sq_dev_sum_bound(s.drop_last(), n, total);
        let x = s.last() as int;
        let d = n * x - total;
        assert(0 <= n * x <= 255 * MAX_TIME_MICROS) by (nonlinear_arith)
            requires
                0 <= n <= 255,
                0 <= x <= MAX_TIME_MICROS,
        ;
        assert(d * d <= 0x1_0000_0000_0000_0000_0000_0000) by (nonlinear_arith)
            requires
                -(255 * MAX_TIME_MICROS) <= d <= 255 * MAX_TIME_MICROS,
        ;
        assert(0 <= d * d) by (nonlinear_arith);
        assert(s.len() * 0x1_0000_0000_0000_0000_0000_0000 == (s.len() - 1)
            * 0x1_0000_0000_0000_0000_0000_0000 + 0x1_0000_0000_0000_0000_0000_0000)
            by (nonlinear_arith);
    }
}

/// Collect the filled reply-record entries, in sequence order.
fn collect_recorded(replies: &Vec<Option<(u64, u8)>>) -> (r: Vec<(u64, u8)>)
    ensures
        r@ == recorded(replies@),
{
    let n = replies.len();
    let mut out: Vec<(u64, u8)> = Vec::new();
    let mut i: usize = 0;
    while i < n
        invariant
            i <= n == replies@.len(),
            out@ == recorded(replies@.take(i as int)),
        decreases n - i,
    {
        proof {
            assert(replies@.take(i + 1).drop_last() =~= replies@.take(i as int));
            assert(replies@.take(i + 1).last() == replies@[i as int]);
        }
        if let Some(p) = replies[i] {
            out.push(p);
        }
        i = i + 1;
    }
    proof {
        assert(replies@.take(n as int) =~= replies@);
    }
    out
}

/// Project the recorded entries onto their elapsed times.
fn vals_of(pairs: &Vec<(u64, u8)>) -> (r: Vec<u64>)
    ensures
        r@ == pairs@.map_values(|p: (u64, u8)| p.0),
{
    let n = pairs.len();
    let mut out: Vec<u64> = Vec::new();
    let mut i: usize = 0;
    while i < n
        invariant
            i <= n == pairs@.len(),
            out@ =~= pairs@.take(i as int).map_values(|p: (u64, u8)| p.0),
        decreases n - i,
    {
        out.push(pairs[i].0);
        i = i + 1;
        proof {
            assert(out@ =~= pairs@.take(i as int).map_values(|p: (u64, u8)| p.0));
        }
    }
    proof {
        assert(pairs@.take(n as int) =~= pairs@);
    }
    out
}

/// Sum the samples exactly.
fn sum_vals(vals: &Vec<u64>) -> (r: u128)
    requires
        vals@.len() <= 255,
        forall|i: int| 0 <= i < vals@.len() ==> vals@[i] <= MAX_TIME_MICROS,
    ensures
        r == sum_of(vals@),
{
    let n = vals.len();
    let mut sum: u128 = 0;
    let mut i: usize = 0;
    while i < n
        invariant
            i <= n == vals@.len() <= 255,
            forall|k: int| 0 <= k < vals@.len() ==> vals@[k] <= MAX_TIME_MICROS,
            sum == sum_of(vals@.take(i as int)),
            sum <= i * MAX_TIME_MICROS,
        decreases n - i,
    {
        proof {
            assert(vals@.take(i + 1).drop_last() =~= vals@.take(i as int));
            assert(vals@.take(i + 1).last() == vals@[i as int]);
            assert((i + 1) * MAX_TIME_MICROS == i * MAX_TIME_MICROS + MAX_TIME_MICROS)
                by (nonlinear_arith);
        }
        sum = sum + vals[i] as u128;
        i = i + 1;
    }
    proof {
        assert(vals@.take(n as int) =~= vals@);
    }
    sum
}

/// The scaled sum of squared deviations of the samples from their mean.
fn sq_dev_total(vals: &Vec<u64>, total: u128) -> (r: u128)
    requires
        1 <= vals@.len() <= 255,
        forall|i: int| 0 <= i < vals@.len() ==> vals@[i] <= MAX_TIME_MICROS,
        total == sum_of(vals@),
    ensures
        r == sq_dev_sum(vals@, vals@.len() as int, sum_of(vals@)),
{
    let n = vals.len();
    proof {
        lemma_sum_of_bound(vals@);
        assert(vals@.len() * MAX_TIME_MICROS <= 255 * MAX_TIME_MICROS) by (nonlinear_arith)
            requires
                vals@.len() <= 255,
        ;
    }
    let n_i = n as i128;
    let total_i = total as i128;
    let mut acc: u128 = 0;
    let mut i: usize = 0;
    while i < n
        invariant
            i <= n == vals@.len() <= 255,
            n_i == n as i128,
            forall|k: int| 0 <= k < vals@.len() ==> vals@[k] <= MAX_TIME_MICROS,
            0 <= total_i == sum_of(vals@) <= 255 * MAX_TIME_MICROS,
            acc == sq_dev_sum(vals@.take(i as int), n as int, sum_of(vals@)),
            acc <= i * 0x1_0000_0000_0000_0000_0000_0000,
        decreases n - i,
    {
        let x_i = vals[i] as i128;
        proof {
            assert(0 <= n_i * x_i <= 255 * MAX_TIME_MICROS) by (nonlinear_arith)
                requires
                    0 <= n_i <= 255,
                    0 <= x_i <= MAX_TIME_MICROS,
            ;
        }
        let d: i128 = n_i * x_i - total_i;
        proof {
            assert(0 <= d * d <= 0x1_0000_0000_0000_0000_0000_0000) by (nonlinear_arith)
                requires
                    -(255 * MAX_TIME_MICROS) <= d <= 255 * MAX_TIME_MICROS,
            ;
            assert(vals@.take(i + 1).drop_last() =~= vals@.take(i as int));
            assert(vals@.take(i + 1).last() == vals@[i as int]);
            assert((i + 1) * 0x1_0000_0000_0000_0000_0000_0000 == i
                * 0x1_0000_0000_0000_0000_0000_0000 + 0x1_0000_0000_0000_0000_0000_0000)
                by (nonlinear_arith);
        }
        acc = acc + (d * d) as u128;
        i = i + 1;
    }
    proof {
        assert(vals@.take(n as int) =~= vals@);
    }
    acc
}

/// The samples in ascending order, by stable insertion.
fn sort_asc(vals: &Vec<u64>) -> (r: Vec<u64>)
    ensures
        r@ == sorted_vals(vals@),
        r@.len() == vals@.len(),
{
    broadcast use group_to_multiset_ensures;

    let n = vals.len();
    let mut out: Vec<u64> = Vec::new();
    let mut i: usize = 0;
    while i < n
        invariant
            i <= n == vals@.len(),
            out@.len() == i,
            out@.to_multiset() == vals@.take(i as int).to_multiset(),
            sorted_by(out@, u64_leq()),
        decreases n - i,
    {
        let x = vals[i];
        let mut p: usize = 0;
        while p < out.len() && out[p] <= x
            invariant
                p <= out@.len(),
                forall|k: int| 0 <= k < p ==> out@[k] <= x,
            decreases out@.len() - p,
        {
            p = p + 1;
        }
        proof {
            to_multiset_insert(out@, p as int, x);
            assert(vals@.take(i + 1) =~= vals@.take(i as int).push(vals@[i as int]));
            let s = out@.insert(p as int, x);
            assert forall|a: int, b: int| 0 <= a < b < s.len() implies u64_leq()(
                s[a],
                s[b],
            ) by {
                if b < p {
                    assert(u64_leq()(out@[a], out@[b]));
                } else if b == p {
                    assert(s[b] == x);
                    assert(out@[a] <= x);
                } else {
                    assert(s[b] == out@[b - 1]);
                    if a < p {
                        if b - 1 == p {
                        } else {
                            assert(u64_leq()(out@[a], out@[b - 1]));
                        }
                        assert(out@[a] <= out@[b - 1]);
                    } else if a == p {
                        assert(s[a] == x);
                        assert(p < out@.len());
                        assert(x < out@[p as int]);
                        if b - 1 > p {
                            assert(u64_leq()(out@[p as int], out@[b - 1]));
                        }
                        assert(x <= out@[b - 1]);
                    } else {
                        assert(s[a] == out@[a - 1]);
                        assert(u64_leq()(out@[a - 1], out@[b - 1]));
                    }
                }
            }
            assert(sorted_by(s, u64_leq()));
        }
        let ghost out_before = out@;
        out.insert(p, x);
        i = i + 1;
        proof {
            assert(out@ == out_before.insert(p as int, x));
            assert(out@.to_multiset() =~= out_before.to_multiset().insert(x));
            assert(vals@.take(i as int) =~= vals@.take(i - 1).push(x));
            to_multiset_build(vals@.take(i - 1), x);
            assert(out@.to_multiset() == vals@.take(i as int).to_multiset());
        }
    }
    proof {
        assert(vals@.take(n as int) =~= vals@);
        let leq = u64_leq();
        assert(total_ordering(leq)) by {
            assert forall|x: u64| #[trigger] leq(x, x) by {}
            assert forall|x: u64, y: u64| #[trigger] leq(x, y) && #[trigger] leq(y, x) implies x
                == y by {}
            assert forall|x: u64, y: u64, z: u64|
                #[trigger] leq(x, y) && #[trigger] leq(y, z) implies leq(x, z) by {}
            assert forall|x: u64, y: u64| #[trigger] leq(x, y) || #[trigger] leq(y, x) by {}
        }
        vals@.lemma_sort_by_ensures(leq);
        lemma_sorted_unique(out@, vals@.sort_by(leq), leq);
        assert(out@ =~= sorted_vals(vals@));
    }
    out
}

/// Floor of the integer square root, by bisection.
fn isqrt(q: u128) -> (r: u64)
    requires
        q < 0x1000_0000_0000_0000_0000_0000_0000,
    ensures
        r * r <= q < (r + 1) * (r + 1),
{
    if q == 0 {
        return 0;
    }
    let mut lo: u128 = 0;
    let mut hi: u128 = 0x40_0000_0000_0000;
    proof {
        assert((0x40_0000_0000_0000 as int) * (0x40_0000_0000_0000 as int)
            == 0x1000_0000_0000_0000_0000_0000_0000) by (nonlinear_arith);
    }
    while lo + 1 < hi
        invariant
            lo < hi <= 0x40_0000_0000_0000,
            lo * lo <= q,
            q < hi * hi,
        decreases hi - lo,
    {
        let mid = lo + (hi - lo) / 2;
        proof {
            assert(mid * mid < 0x1000_0000_0000_0000_0000_0000_0000) by (nonlinear_arith)
                requires
                    0 <= mid < 0x40_0000_0000_0000,
            ;
        }
        let sq = mid * mid;
        if sq <= q {
            lo = mid;
        } else {
            hi = mid;
        }
    }
    lo as u64
}

/// A reply record fit for aggregation: one slot per probe plus the unused
/// slot 0, and every recorded time within the engine's bound.
pub open spec fn replies_wf(replies: Seq<Option<(u64, u8)>>, probe_count: u8) -> bool {
    &&& probe_count >= 1
    &&& replies.len() == probe_count + 1
    &&& replies[0] is None
    &&& forall|i: int|
        0 <= i < replies.len() ==> (#[trigger] replies[i] matches Some(p) ==> p.0
            <= MAX_TIME_MICROS)
}

/// The recorded elapsed times inherit the record's bounds: at most one per
/// probe, each within the engine's time bound.
pub proof fn lemma_vals_bounded(replies: Seq<Option<(u64, u8)>>, probe_count: u8)
    requires
        replies_wf(replies, probe_count),
    ensures
        recorded_vals(replies).len() == recorded(replies).len() <= probe_count <= 255,
        forall|i: int|
            0 <= i < recorded_vals(replies).len() ==> #[trigger] recorded_vals(replies)[i]
                <= MAX_TIME_MICROS,
{
    lemma_recorded_len_first_none(replies);
    lemma_recorded_bounded(replies);
    assert(forall|i: int|
        0 <= i < recorded_vals(replies).len() ==> #[trigger] recorded_vals(replies)[i]
            == recorded(replies)[i].0);
}

/// Aggregated run statistics, all exact, together with the reply record
/// they were computed from and the probe count that is the loss basis.
pub struct Statistics {
    pub mean: Ratio,
    pub median: Ratio,
    pub total_sample: usize,
    pub std_deviation: u64,
    pub variance: Ratio,
    pub probe_count: u8,
    pub replies: Vec<Option<(u64, u8)>>,
}

impl Statistics {
    pub open spec fn wf(&self) -> bool {
        replies_wf(self.replies@, self.probe_count)
    }

    /// A statistics block for the given reply record, with every derived
    /// quantity still zero until `calculate` runs.
    pub fn new(probe_count: u8, replies: Vec<Option<(u64, u8)>>) -> (r: Statistics)
        requires
            replies_wf(replies@, probe_count),
        ensures
            r.wf(),
            r.replies@ == replies@,
            r.probe_count == probe_count,
            r.total_sample == 0,
            r.mean == (Ratio { num: 0, den: 1 }),
            r.median == (Ratio { num: 0, den: 1 }),
            r.variance == (Ratio { num: 0, den: 1 }),
            r.std_deviation == 0,
    {
        Statistics {
            mean: Ratio::zero(),
            median: Ratio::zero(),
            total_sample: 0,
            std_deviation: 0,
            variance: Ratio::zero(),
            probe_count,
            replies,
        }
    }

    fn set_total_length(&mut self)
        requires
            old(self).wf(),
        ensures
            final(self).total_sample == recorded(old(self).replies@).len()
                <= old(self).probe_count,
            *final(self) == (Statistics { total_sample: final(self).total_sample, ..*old(self) }),
    {
        proof {
            lemma_recorded_len_first_none(self.replies@);
        }
        let pairs = collect_recorded(&self.replies);
        self.total_sample = pairs.len();
    }

    fn calculate_average(&mut self)
        requires
            old(self).wf(),
        ensures
            final(self).mean == mean_ratio(recorded_vals(old(self).replies@)),
            *final(self) == (Statistics { mean: final(self).mean, ..*old(self) }),
    {
        proof {
            lemma_vals_bounded(self.replies@, self.probe_count);
        }
        let pairs = collect_recorded(&self.replies);
        let vals = vals_of(&pairs);
        let n = vals.len();
        if n == 0 {
            self.mean = Ratio::zero();
        } else {
            let total = sum_vals(&vals);
            self.mean = Ratio { num: total, den: n as u128 };
        }
    }

    fn calculate_variance(&mut self)
        requires
            old(self).wf(),
        ensures
            final(self).variance == variance_ratio(recorded_vals(old(self).replies@)),
            final(self).variance.num <= 0x100_0000_0000_0000_0000_0000_0000,
            final(self).variance.den >= 1,
            *final(self) == (Statistics { variance: final(self).variance, ..*old(self) }),
    {
        proof {
            lemma_vals_bounded(self.replies@, self.probe_count);
        }
        let pairs = collect_recorded(&self.replies);
        let vals = vals_of(&pairs);
        let n = vals.len();
        if n == 0 {
            self.variance = Ratio::zero();
        } else {
            let total = sum_vals(&vals);
            let num = sq_dev_total(&vals, total);
            proof {
                lemma_sum_of_bound(vals@);
                assert(vals@.len() * MAX_TIME_MICROS <= 255 * MAX_TIME_MICROS)
                    by (nonlinear_arith)
                    requires
                        vals@.len() <= 255,
                ;
                lemma_sq_dev_sum_bound(vals@, n as int, sum_of(vals@));
                assert(sq_dev_sum(vals@, n as int, sum_of(vals@)) <= 255
                    * 0x1_0000_0000_0000_0000_0000_0000) by (nonlinear_arith)
                    requires
                        sq_dev_sum(vals@, n as int, sum_of(vals@)) <= vals@.len()
                            * 0x1_0000_0000_0000_0000_0000_0000,
                        vals@.len() <= 255,
                ;
                assert(1 <= (n as int) * (n as int) <= 255 * 255) by (nonlinear_arith)
                    requires
                        1 <= n as int <= 255,
                ;
                assert(1 <= (n as int) * (n as int) * (n as int) <= 255 * 255 * 255)
                    by (nonlinear_arith)
                    requires
                        1 <= n as int <= 255,
                ;
            }
            let den = (n as u128) * (n as u128) * (n as u128);
            self.variance = Ratio { num, den };
        }
    }

    fn calculate_std_dev(&mut self)
        requires
            old(self).wf(),
            old(self).variance.den >= 1,
            old(self).variance.num <= 0x100_0000_0000_0000_0000_0000_0000,
        ensures
            is_floor_sqrt_ratio(final(self).std_deviation as int, old(self).variance),
            *final(self) == (Statistics {
                std_deviation: final(self).std_deviation,
                ..*old(self)
            }),
    {
        let num = self.variance.num;
        let den = self.variance.den;
        let q = num / den;
        proof {
            vstd::arithmetic::div_mod::lemma_fundamental_div_mod(num as int, den as int);
            assert(q <= num) by (nonlinear_arith)
                requires
                    den >= 1,
                    num >= 0,
                    q == num as int / den as int,
            ;
        }
        let r = isqrt(q);
        proof {
            let qi = q as int;
            let r1 = r as int;
            assert(r1 * r1 * den <= qi * den) by (nonlinear_arith)
                requires
                    r1 * r1 <= qi,
                    den >= 1,
            ;
            assert(qi * den <= num) by (nonlinear_arith)
                requires
                    num as int == (den as int) * qi + ((num as int) % (den as int)),
                    (num as int) % (den as int) >= 0,
            ;
            assert(num < (qi + 1) * den) by (nonlinear_arith)
                requires
                    num as int == (den as int) * qi + ((num as int) % (den as int)),
                    (num as int) % (den as int) < den as int,
            ;
            assert((qi + 1) * den <= (r1 + 1) * (r1 + 1) * den) by (nonlinear_arith)
                requires
                    qi < (r1 + 1) * (r1 + 1),
                    den >= 1,
            ;
        }
        self.std_deviation = r;
    }

    fn calculate_median(&mut self)
        requires
            old(self).wf(),
        ensures
            final(self).median == median_ratio(recorded_vals(old(self).replies@)),
            *final(self) == (Statistics { median: final(self).median, ..*old(self) }),
    {
        let pairs = collect_recorded(&self.replies);
        let vals = vals_of(&pairs);
        let sorted = sort_asc(&vals);
        let n = sorted.len();
        if n == 0 {
            self.median = Ratio::zero();
        } else if n % 2 == 1 {
            self.median = Ratio { num: sorted[n / 2] as u128, den: 1 };
        } else {
            self.median = Ratio {
                num: sorted[n / 2 - 1] as u128 + sorted[n / 2] as u128,
                den: 2,
            };
        }
    }

    /// Derive every statistic from the reply record: sample count, exact
    /// mean, exact population variance, floor-square-root standard
    /// deviation, and exact median. With no samples all of them are zero.
    pub fn calculate(&mut self)
        requires
            old(self).wf(),
        ensures
            final(self).wf(),
            final(self).replies@ == old(self).replies@,
            final(self).probe_count == old(self).probe_count,
            final(self).total_sample == recorded(old(self).replies@).len()
                <= old(self).probe_count,
            final(self).mean == mean_ratio(recorded_vals(old(self).replies@)),
            final(self).variance == variance_ratio(recorded_vals(old(self).replies@)),
            is_floor_sqrt_ratio(final(self).std_deviation as int, final(self).variance),
            final(self).median == median_ratio(recorded_vals(old(self).replies@)),
    {
        self.set_total_length();
        self.calculate_average();
        self.calculate_variance();
        self.calculate_std_dev();
        self.calculate_median();
    }
}

fn count_non_reply_exec(pairs: &Vec<(u64, u8)>) -> (r: u64)
    requires
        pairs@.len() <= 255,
    ensures
        r == count_non_reply(pairs@),
{
    let n = pairs.len();
    let mut c: u64 = 0;
    let mut i: usize = 0;
    while i < n
        invariant
            i <= n == pairs@.len() <= 255,
            c == count_non_reply(pairs@.take(i as int)),
            c <= i,
        decreases n - i,
    {
        proof {
            assert(pairs@.take(i + 1).drop_last() =~= pairs@.take(i as int));
            assert(pairs@.take(i + 1).last() == pairs@[i as int]);
        }
        if pairs[i].1 != ICMP_ECHO_REPLY {
            c = c + 1;
        }
        i = i + 1;
    }
    proof {
        assert(pairs@.take(n as int) =~= pairs@);
    }
    c
}

fn min_vals(vals: &Vec<u64>) -> (r: u64)
    requires
        vals@.len() >= 1,
    ensures
        r == min_of(vals@),
{
    let n = vals.len();
    let mut m = vals[0];
    let mut i: usize = 1;
    while i < n
        invariant
            1 <= i <= n == vals@.len(),
            m == min_of(vals@.take(i as int)),
        decreases n - i,
    {
        proof {
            assert(vals@.take(i + 1).drop_last() =~= vals@.take(i as int));
            assert(vals@.take(i + 1).last() == vals@[i as int]);
        }
        if vals[i] < m {
            m = vals[i];
        }
        i = i + 1;
    }
    proof {
        assert(vals@.take(n as int) =~= vals@);
    }
    m
}

fn max_vals(vals: &Vec<u64>) -> (r: u64)
    requires
        vals@.len() >= 1,
    ensures
        r == max_of(vals@),
{
    let n = vals.len();
    let mut m = vals[0];
    let mut i: usize = 1;
    while i < n
        invariant
            1 <= i <= n == vals@.len(),
            m == max_of(vals@.take(i as int)),
        decreases n - i,
    {
        proof {
            assert(vals@.take(i + 1).drop_last() =~= vals@.take(i as int));
            assert(vals@.take(i + 1).last() == vals@[i as int]);
        }
        if vals[i] > m {
            m = vals[i];
        }
        i = i + 1;
    }
    proof {
        assert(vals@.take(n as int) =~= vals@);
    }
    m
}

fn jitter_total(vals: &Vec<u64>) -> (r: u128)
    requires
        2 <= vals@.len() <= 255,
        forall|i: int| 0 <= i < vals@.len() ==> vals@[i] <= MAX_TIME_MICROS,
    ensures
        r == jitter_sum(vals@),
{
    let n = vals.len();
    let mut acc: u128 = 0;
    let mut i: usize = 1;
    while i < n
        invariant
            1 <= i <= n == vals@.len() <= 255,
            forall|k: int| 0 <= k < vals@.len() ==> vals@[k] <= MAX_TIME_MICROS,
            acc == jitter_sum(vals@.take(i as int)),
            acc <= (i - 1) * MAX_TIME_MICROS,
        decreases n - i,
    {
        proof {
            assert(vals@.take(i + 1).drop_last() =~= vals@.take(i as int));
            assert(vals@.take(i + 1).last() == vals@[i as int]);
            assert(vals@.take(i + 1)[i - 1] == vals@[i - 1]);
            assert(i * MAX_TIME_MICROS == (i - 1) * MAX_TIME_MICROS + MAX_TIME_MICROS)
                by (nonlinear_arith);
        }
        let a = vals[i];
        let b = vals[i - 1];
        let d: u64 = if a >= b {
            a - b
        } else {
            b - a
        };
        acc = acc + d as u128;
        i = i + 1;
    }
    proof {
        assert(vals@.take(n as int) =~= vals@);
    }
    acc
}

/// Read-only views of a run's statistics. Delays are halved
/// round-trip times; percentages and averages are exact rationals.
pub trait PingStatistics {
    spec fn stats_wf(&self) -> bool;

    spec fn stats_replies(&self) -> Seq<Option<(u64, u8)>>;

    spec fn stats_probe_count(&self) -> int;

    spec fn stats_total_sample(&self) -> int;

    spec fn stats_mean(&self) -> Ratio;

    spec fn stats_median(&self) -> Ratio;

    /// How many recorded entries carry a non-reply ICMP type code.
    fn number_of_no_responses(&self) -> (r: u64)
        requires
            self.stats_wf(),
        ensures
            r == count_non_reply(recorded(self.stats_replies())),
    ;

    /// Non-reply entries over the configured probe count (the loss basis).
    fn percentage_of_no_responses(&self) -> (r: Ratio)
        requires
            self.stats_wf(),
        ensures
            r.num == count_non_reply(recorded(self.stats_replies())),
            r.den == self.stats_probe_count(),
    ;

    /// Packets dropped as unusable; none are tracked separately, so zero.
    fn number_of_bad_packets(&self) -> (r: u64)
        ensures
            r == 0,
    ;

    /// Smallest recorded round-trip time halved (one-way approximation);
    /// zero with no samples.
    fn min_delay(&self) -> (r: u64)
        requires
            self.stats_wf(),
        ensures
            r == (if recorded_vals(self.stats_replies()).len() == 0 {
                0int
            } else {
                min_of(recorded_vals(self.stats_replies())) / 2
            }),
    ;

    /// Largest recorded round-trip time halved; zero with no samples.
    fn max_delay(&self) -> (r: u64)
        requires
            self.stats_wf(),
        ensures
            r == (if recorded_vals(self.stats_replies()).len() == 0 {
                0int
            } else {
                max_of(recorded_vals(self.stats_replies())) / 2
            }),
    ;

    /// The mean round-trip time as last derived by `calculate`.
    fn avg_delay(&self) -> (r: Ratio)
        ensures
            r == self.stats_mean(),
    ;

    /// The median round-trip time as last derived by `calculate`.
    fn median_delay(&self) -> (r: Ratio)
        ensures
            r == self.stats_median(),
    ;

    /// Unanswered probes over the configured probe count.
    fn percent_of_lost_packets(&self) -> (r: Ratio)
        requires
            self.stats_wf(),
            0 <= self.stats_total_sample() <= self.stats_probe_count(),
        ensures
            r.num == self.stats_probe_count() - self.stats_total_sample(),
            r.den == self.stats_probe_count(),
    ;

    /// Mean absolute difference between round-trip times of consecutive
    /// received replies, in sequence order — not the variance.
    fn average_jitter(&self) -> (r: Ratio)
        requires
            self.stats_wf(),
        ensures
            r == jitter_ratio(recorded_vals(self.stats_replies())),
    ;
}

impl PingStatistics for Statistics {
    open spec fn stats_wf(&self) -> bool {
        self.wf()
    }

    open spec fn stats_replies(&self) -> Seq<Option<(u64, u8)>> {
        self.replies@
    }

    open spec fn stats_probe_count(&self) -> int {
        self.probe_count as int
    }

    open spec fn stats_total_sample(&self) -> int {
        self.total_sample as int
    }

    open spec fn stats_mean(&self) -> Ratio {
        self.mean
    }

    open spec fn stats_median(&self) -> Ratio {
        self.median
    }

    fn number_of_no_responses(&self) -> (r: u64) {
        proof {
            lemma_recorded_len_first_none(self.replies@);
        }
        let pairs = collect_recorded(&self.replies);
        count_non_reply_exec(&pairs)
    }

    fn percentage_of_no_responses(&self) -> (r: Ratio) {
        let c = self.number_of_no_responses();
        Ratio { num: c as u128, den: self.probe_count as u128 }
    }

    fn number_of_bad_packets(&self) -> (r: u64) {
        0
    }

    fn min_delay(&self) -> (r: u64) {
        let pairs = collect_recorded(&self.replies);
        let vals = vals_of(&pairs);
        if vals.len() == 0 {
            0
        } else {
            min_vals(&vals) / 2
        }
    }

    fn max_delay(&self) -> (r: u64) {
        let pairs = collect_recorded(&self.replies);
        let vals = vals_of(&pairs);
        if vals.len() == 0 {
            0
        } else {
            max_vals(&vals) / 2
        }
    }

    fn avg_delay(&self) -> (r: Ratio) {
        self.mean
    }

    fn median_delay(&self) -> (r: Ratio) {
        self.median
    }

    fn percent_of_lost_packets(&self) -> (r: Ratio) {
        let lost = self.probe_count as u128 - self.total_sample as u128;
        Ratio { num: lost, den: self.probe_count as u128 }
    }

    fn average_jitter(&self) -> (r: Ratio) {
        proof {
            lemma_vals_bounded(self.replies@, self.probe_count);
        }
        let pairs = collect_recorded(&self.replies);
        let vals = vals_of(&pairs);
        let n = vals.len();
        if n < 2 {
            Ratio { num: 0, den: 1 }
        } else {
            let total = jitter_total(&vals);
            Ratio { num: total, den: (n - 1) as u128 }
        }
    }
}

/// Everything one probe run produces: outcome metadata, the DSCP observed
/// on inbound traffic and whether it differed from the configured marking,
/// and the aggregated round-trip statistics.
pub struct PingResults {
    pub result: u8,
    pub host_address: String,
    pub host_tested: String,
    pub host_name: String,
    pub dscp_changed: bool,
    pub init_dscp_return: u8,
    pub original_dscp: u8,
    pub rtt_statistics: Statistics,
}

} // verus!
