//! Statistics tests: exact mean, variance, standard deviation, median,
//! loss, and jitter over hand-built reply records.

use icmp_probe::results::{PingStatistics, Statistics};

/// A reply record for `probe_count` probes with the given (sequence,
/// elapsed, type code) entries filled in.
fn record(probe_count: u8, entries: &[(usize, u64, u8)]) -> Vec<Option<(u64, u8)>> {
    let mut replies: Vec<Option<(u64, u8)>> = vec![None; probe_count as usize + 1];
    for &(seq, elapsed, code) in entries {
        replies[seq] = Some((elapsed, code));
    }
    replies
}

#[test]
fn two_replies_mean_variance_std_dev() {
    let mut stats = Statistics::new(20, record(20, &[(1, 100, 0), (2, 300, 0)]));
    stats.calculate();
    assert_eq!(stats.total_sample, 2);
    assert!(stats.mean.eq_int(200));
    assert!(stats.variance.eq_int(10000));
    assert_eq!(stats.std_deviation, 100);
}

#[test]
fn loss_is_measured_against_probe_count() {
    let entries: Vec<(usize, u64, u8)> = (1..=19).map(|s| (s, 1000u64, 0u8)).collect();
    let mut stats = Statistics::new(20, record(20, &entries));
    stats.calculate();
    assert_eq!(stats.total_sample, 19);
    let lost = stats.percent_of_lost_packets();
    assert_eq!(lost.num, 1);
    assert_eq!(lost.den, 20);
}

#[test]
fn empty_record_yields_defined_zeros() {
    let mut stats = Statistics::new(5, record(5, &[]));
    stats.calculate();
    assert_eq!(stats.total_sample, 0);
    assert!(stats.mean.eq_int(0));
    assert!(stats.variance.eq_int(0));
    assert_eq!(stats.std_deviation, 0);
    assert!(stats.median.eq_int(0));
    assert_eq!(stats.min_delay(), 0);
    assert_eq!(stats.max_delay(), 0);
    assert!(stats.average_jitter().eq_int(0));
    let lost = stats.percent_of_lost_packets();
    assert_eq!(lost.num, 5);
    assert_eq!(lost.den, 5);
}

#[test]
fn median_of_odd_and_even_counts() {
    let mut odd = Statistics::new(5, record(5, &[(1, 400, 0), (2, 100, 0), (3, 200, 0)]));
    odd.calculate();
    assert!(odd.median.eq_int(200));

    let mut even = Statistics::new(5, record(5, &[(1, 300, 0), (2, 100, 0)]));
    even.calculate();
    // (100 + 300) / 2, kept exact as 400/2
    assert!(even.median.eq_int(200));

    let mut even2 = Statistics::new(5, record(5, &[(1, 100, 0), (2, 101, 0)]));
    even2.calculate();
    assert_eq!(even2.median.num, 201);
    assert_eq!(even2.median.den, 2);
}

#[test]
fn std_deviation_is_floor_of_root() {
    // samples 100 and 301: variance = (201/2)^2 = 10100.25, sqrt ~ 100.5
    let mut stats = Statistics::new(5, record(5, &[(1, 100, 0), (2, 301, 0)]));
    stats.calculate();
    assert_eq!(stats.std_deviation, 100);
}

#[test]
fn min_max_delay_are_half_round_trips() {
    let mut stats = Statistics::new(5, record(5, &[(1, 100, 0), (2, 300, 0), (3, 250, 0)]));
    stats.calculate();
    assert_eq!(stats.min_delay(), 50);
    assert_eq!(stats.max_delay(), 150);
}

#[test]
fn jitter_is_consecutive_differences_not_variance() {
    let mut stats = Statistics::new(
        5,
        record(
            5,
            &[
                (1, 10000, 0),
                (2, 12000, 0),
                (3, 11000, 0),
                (4, 9000, 0),
                (5, 13000, 0),
            ],
        ),
    );
    stats.calculate();
    // (|12000-10000| + |11000-12000| + |9000-11000| + |13000-9000|) / 4
    // = (2000 + 1000 + 2000 + 4000) / 4 = 2250
    let jitter = stats.average_jitter();
    assert!(jitter.eq_int(2250));
    assert!(!stats.variance.eq_int(2250));
}

#[test]
fn non_reply_codes_are_counted_against_probe_count() {
    let mut stats = Statistics::new(4, record(4, &[(1, 100, 0), (2, 200, 11), (3, 300, 3)]));
    stats.calculate();
    assert_eq!(stats.number_of_no_responses(), 2);
    let pct = stats.percentage_of_no_responses();
    assert_eq!(pct.num, 2);
    assert_eq!(pct.den, 4);
    assert_eq!(stats.number_of_bad_packets(), 0);
}

#[test]
fn delay_getters_return_calculated_values() {
    let mut stats = Statistics::new(5, record(5, &[(1, 100, 0), (2, 300, 0)]));
    stats.calculate();
    assert!(stats.avg_delay().eq_int(200));
    assert!(stats.median_delay().eq_int(200));
}
