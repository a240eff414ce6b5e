use tic::common::default_percentiles;
use tic::common::default_taus;
use tic::arith::isqrt;
use tic::arith::saturating_add128;
use tic::arith::saturating_square;
use tic::data::allans::bound;
use tic::data::allans::deviation_of;
use tic::data::allans::Allan;
use tic::data::allans::Allans;
use tic::data::counters::Counters;
use tic::data::heatmaps::bits;
use tic::data::heatmaps::Heatmap;
use tic::data::heatmaps::Heatmaps;
use tic::data::histograms::bucket;
use tic::data::histograms::clamp;
use tic::data::histograms::midpoint;
use tic::data::histograms::Histogram;
use tic::data::histograms::Histograms;
use tic::table::Table;
use tic::Interest;
use tic::Meters;
use tic::Percentile;
use tic::Sample;

fn name(s: &str) -> String {
    s.to_string()
}

#[test]
fn table_keeps_one_value_for_each_key() {
    let mut table: Table<u64> = Table::new();
    assert_eq!(table.len(), 0);
    table.insert(name("a"), 1);
    table.insert(name("b"), 2);
    table.insert(name("a"), 3);
    assert_eq!(table.len(), 2);
    assert_eq!(table.position(&name("a")), Some(0));
    assert_eq!(table.position(&name("b")), Some(1));
    assert_eq!(table.position(&name("c")), None);
    assert_eq!(*table.value_at(0), 3);
    assert_eq!(table.key_at(1), "b");
    *table.value_mut(1) = 7;
    assert_eq!(*table.value_at(1), 7);
    table.remove(&name("a"));
    table.remove(&name("missing"));
    assert_eq!(table.len(), 1);
    assert_eq!(table.position(&name("b")), Some(0));
}


#[test]
fn counters_ignore_channels_that_are_not_initialised() {
    let mut counters = Counters::new();
    counters.increment_by(&name("a"), 5);
    assert_eq!(counters.count(&name("a")), 0);
    counters.init(name("a"));
    counters.increment_by(&name("a"), 5);
    counters.increment_by(&name("a"), 6);
    counters.increment_by(&name("b"), 1);
    assert_eq!(counters.count(&name("a")), 11);
    assert_eq!(counters.count(&name("b")), 0);
    counters.init(name("a"));
    assert_eq!(counters.count(&name("a")), 0);
    counters.increment_by(&name("a"), u64::MAX);
    counters.increment_by(&name("a"), 1);
    assert_eq!(counters.count(&name("a")), u64::MAX);
    counters.remove(&name("a"));
    assert_eq!(counters.count(&name("a")), 0);
}

#[test]
fn histogram_reads_the_nearest_rank() {
    let mut histogram = Histogram::new();
    assert_eq!(histogram.percentile(500_000), None);
    for value in [30u64, 10, 50, 20, 40] {
        histogram.increment(value);
    }
    assert_eq!(histogram.len(), 5);
    assert_eq!(histogram.percentile(0), Some(10));
    assert_eq!(histogram.percentile(1), Some(10));
    assert_eq!(histogram.percentile(200_000), Some(10));
    assert_eq!(histogram.percentile(200_001), Some(20));
    assert_eq!(histogram.percentile(500_000), Some(30));
    assert_eq!(histogram.percentile(800_000), Some(40));
    assert_eq!(histogram.percentile(999_999), Some(50));
    assert_eq!(histogram.percentile(1_000_000), Some(50));
    assert_eq!(histogram.percentile(u32::MAX), Some(50));
    histogram.clear();
    assert_eq!(histogram.len(), 0);
    assert_eq!(histogram.percentile(500_000), None);
}

#[test]
fn histogram_buckets() {
    assert_eq!(bucket(0), 0);
    assert_eq!(bucket(255), 255);
    assert_eq!(bucket(256), 256);
    assert_eq!(bucket(257), 256);
    assert_eq!(bucket(258), 257);
    assert_eq!(bucket(511), 383);
    assert_eq!(bucket(512), 384);
    assert_eq!(bucket(515), 384);
    assert_eq!(bucket(516), 385);
    assert_eq!(bucket(50_000_000), 18 * 128 + 190);
    assert_eq!(bucket(u64::MAX), 7423);
    assert_eq!(midpoint(0), 0);
    assert_eq!(midpoint(255), 255);
    assert_eq!(midpoint(256), 257);
    assert_eq!(midpoint(383), 511);
    assert_eq!(midpoint(384), 514);
    assert_eq!(midpoint(18 * 128 + 190), 49_938_432);
    assert_eq!(midpoint(7423), 0xff80_0000_0000_0000);
    for value in [0u64, 1, 255, 256, 1_000, 123_456_789, 1 << 40, u64::MAX / 3, u64::MAX] {
        let middle = midpoint(bucket(value));
        assert!(middle.abs_diff(value) as u128 * 128 <= value as u128, "{} in {}", value, middle);
    }
}

#[test]
fn histogram_reads_the_middle_of_a_bucket() {
    let mut histogram = Histogram::new();
    for value in [1_000u64, 1_001, 1_002, 1_003, 5_000_000] {
        histogram.increment(value);
    }
    assert_eq!(histogram.percentile(0), Some(1_002));
    assert_eq!(histogram.percentile(800_000), Some(1_002));
    assert_eq!(histogram.percentile(800_001), Some(4_997_120));
    assert_eq!(histogram.len(), 5);
}

#[test]
fn histogram_keeps_equal_values() {
    let mut histogram = Histogram::new();
    for value in [7u64, 7, 3, 7] {
        histogram.increment(value);
    }
    assert_eq!(histogram.len(), 4);
    assert_eq!(histogram.percentile(250_000), Some(3));
    assert_eq!(histogram.percentile(250_001), Some(7));
}

#[test]
fn histograms_clamp_and_clear() {
    let mut histograms = Histograms::new();
    histograms.increment(&name("a"), 5);
    assert_eq!(histograms.percentile(&name("a"), 500_000), None);
    histograms.init(name("a"));
    histograms.init(name("b"));
    assert_eq!(histograms.percentile(&name("a"), 500_000), None);
    histograms.increment(&name("a"), -5);
    assert_eq!(histograms.percentile(&name("a"), 500_000), Some(0));
    histograms.increment(&name("a"), i128::MAX);
    assert_eq!(histograms.percentile(&name("a"), 1_000_000), Some(0xff80_0000_0000_0000));
    histograms.increment(&name("b"), 9);
    histograms.clear();
    assert_eq!(histograms.percentile(&name("a"), 500_000), None);
    assert_eq!(histograms.percentile(&name("b"), 500_000), None);
    histograms.increment(&name("b"), 4);
    assert_eq!(histograms.percentile(&name("b"), 500_000), Some(4));
    histograms.init(name("b"));
    assert_eq!(histograms.percentile(&name("b"), 500_000), None);
    histograms.increment(&name("b"), 4);
    histograms.remove(&name("b"));
    histograms.increment(&name("b"), 4);
    assert_eq!(histograms.percentile(&name("b"), 500_000), None);
}

#[test]
fn clamp_holds_a_difference_within_the_range_of_a_latency() {
    assert_eq!(clamp(-1), 0);
    assert_eq!(clamp(0), 0);
    assert_eq!(clamp(17), 17);
    assert_eq!(clamp(u64::MAX as i128), u64::MAX);
    assert_eq!(clamp(u64::MAX as i128 + 1), u64::MAX);
}

#[test]
fn allan_deviation_of_short_series() {
    let mut allan = Allan::new();
    assert_eq!(allan.adev(1), None);
    allan.record(0);
    allan.record(10);
    assert_eq!(allan.adev(1), None);
    allan.record(40);
    assert_eq!(allan.adev(0), None);
    assert_eq!(allan.adev(1), Some(14_142));
    assert_eq!(allan.adev(2), None);
    allan.record(90);
    allan.record(160);
    assert_eq!(allan.adev(1), Some(14_142));
    assert_eq!(allan.adev(2), Some(28_284));
    assert_eq!(allan.adev(3), None);
    assert_eq!(allan.adev(301), None);
}

#[test]
fn allan_deviation_of_long_series() {
    let mut squares = Allan::new();
    let mut line = Allan::new();
    for i in 0..1_000i128 {
        squares.record(i * i);
        line.record(7 * i - 3);
    }
    for lag in 1..=300usize {
        assert_eq!(line.adev(lag), Some(0));
        let expected = ((2_000_000u128 * (lag * lag) as u128) as f64).sqrt() as u64;
        let got = squares.adev(lag).unwrap();
        assert!(got == expected || got + 1 == expected, "lag {}: {} and {}", lag, got, expected);
    }
    assert_eq!(squares.adev(1), Some(1_414));
    assert_eq!(squares.adev(300), Some(424_264));
    assert_eq!(squares.adev(301), None);
}

#[test]
fn allan_series_hold_values_within_their_limit() {
    let limit: i128 = 1 << 64;
    assert_eq!(bound(5), 5);
    assert_eq!(bound(-5), -5);
    assert_eq!(bound(limit), limit);
    assert_eq!(bound(limit + 1), limit);
    assert_eq!(bound(-limit - 1), -limit);
    assert_eq!(bound(i128::MIN), -limit);
    let mut allan = Allan::new();
    allan.record(i128::MAX);
    allan.record(i128::MIN);
    allan.record(i128::MAX);
    assert_eq!(allan.adev(1), Some(u64::MAX));
}

#[test]
fn deviation_from_sums() {
    assert_eq!(deviation_of(400, 1, 1), 14_142);
    assert_eq!(deviation_of(2, 1, 1), 1_000);
    assert_eq!(deviation_of(0, 5, 3), 0);
    assert_eq!(deviation_of(1, u64::MAX, 300), 0);
    assert_eq!(deviation_of(3_200, 4, 10), 2_000);
    assert_eq!(deviation_of(u128::MAX, 1, 1), u64::MAX);
    assert_eq!(deviation_of(u128::MAX / 1_000_000, 1, 1), 13_043_817_825_332_782_212);
}

#[test]
fn integer_square_roots() {
    assert_eq!(isqrt(0), 0);
    assert_eq!(isqrt(1), 1);
    assert_eq!(isqrt(3), 1);
    assert_eq!(isqrt(4), 2);
    assert_eq!(isqrt(15), 3);
    assert_eq!(isqrt(16), 4);
    assert_eq!(isqrt(200_000_000), 14_142);
    assert_eq!(isqrt(u64::MAX as u128 * u64::MAX as u128), u64::MAX);
    assert_eq!(isqrt(u64::MAX as u128 * u64::MAX as u128 - 1), u64::MAX - 1);
    assert_eq!(isqrt(u128::MAX), u64::MAX);
    assert_eq!(saturating_add128(u128::MAX, 1), u128::MAX);
    assert_eq!(saturating_add128(3, 4), 7);
    assert_eq!(saturating_square(-12), 144);
    assert_eq!(saturating_square(i128::MAX), u128::MAX);
}

#[test]
fn allans_keep_one_series_for_each_channel() {
    let mut allans = Allans::new();
    allans.record(&name("a"), 1);
    assert_eq!(allans.adev(&name("a"), 1), None);
    allans.init(name("a"));
    for dt in [0i128, 10, 40] {
        allans.record(&name("a"), dt);
        allans.record(&name("b"), dt);
    }
    assert_eq!(allans.adev(&name("a"), 1), Some(14_142));
    assert_eq!(allans.adev(&name("b"), 1), None);
    allans.init(name("a"));
    assert_eq!(allans.adev(&name("a"), 1), None);
    for dt in [0i128, -10, -40] {
        allans.record(&name("a"), dt);
    }
    assert_eq!(allans.adev(&name("a"), 1), Some(14_142));
    allans.remove(&name("a"));
    assert_eq!(allans.adev(&name("a"), 1), None);
}

#[test]
fn heatmaps_write_a_trace() {
    let second = 1_000_000_000u64;
    let mut heatmaps = Heatmaps::new(3, 1_000);
    assert_eq!(heatmaps.slice_count(), 3);
    assert_eq!(heatmaps.start_time(), 1_000);
    assert_eq!(heatmaps.trace(&name("a")), None);
    assert_eq!(heatmaps.waterfall(&name("a")), None);
    heatmaps.init(name("a"));
    assert_eq!(heatmaps.trace(&name("a")), Some(name("1000 3\n")));
    heatmaps.increment(&name("a"), 1_500, 20);
    heatmaps.increment(&name("a"), 1_000 + second, -20);
    heatmaps.increment(&name("a"), 999, 5);
    heatmaps.increment(&name("a"), 1_000 + 3 * second, 5);
    heatmaps.increment(&name("a"), 999 + second, 21);
    heatmaps.increment(&name("b"), 2_500, 20);
    assert_eq!(heatmaps.trace(&name("a")), Some(name("1000 3\n0 5 2\n1 0 1\n")));
    let image = heatmaps.waterfall(&name("a")).unwrap();
    let lines: Vec<&str> = image.lines().collect();
    assert_eq!(lines.len(), 6);
    assert_eq!(&lines[..3], ["P2", "65 3", "255"]);
    assert!(lines[3].starts_with("0 0 0 0 0 2 0 "));
    assert!(lines[4].starts_with("1 0 0 "));
    assert_eq!(lines[5], vec!["0"; 65].join(" "));
    heatmaps.clear();
    assert_eq!(heatmaps.trace(&name("a")), Some(name("1000 3\n")));
    heatmaps.increment(&name("a"), 1_500, 20);
    heatmaps.init(name("a"));
    assert_eq!(heatmaps.trace(&name("a")), Some(name("1000 3\n")));
    heatmaps.remove(&name("a"));
    assert_eq!(heatmaps.trace(&name("a")), None);
    assert_eq!(heatmaps.waterfall(&name("a")), None);
}

#[test]
fn a_heatmap_counts_by_slice_and_magnitude() {
    let second = 1_000_000_000u64;
    let mut heatmap = Heatmap::new(2);
    assert_eq!(heatmap.rows(), 2);
    assert_eq!(heatmap.trace(7, 2), "7 2\n");
    heatmap.increment(100, 100, 0);
    heatmap.increment(100, 100 + second - 1, 5);
    heatmap.increment(100, 100 + second, 5);
    heatmap.increment(100, 100 + second, 7);
    heatmap.increment(100, 99, 5);
    heatmap.increment(100, 100 + 2 * second, 5);
    heatmap.increment(100, 100 + second, u64::MAX);
    assert_eq!(heatmap.count(0, 0), 1);
    assert_eq!(heatmap.count(0, 3), 1);
    assert_eq!(heatmap.count(1, 3), 2);
    assert_eq!(heatmap.count(1, 64), 1);
    assert_eq!(heatmap.count(1, 0), 0);
    assert_eq!(heatmap.trace(100, 2), "100 2\n0 0 1\n0 3 1\n1 3 2\n1 64 1\n");
    let mut expected = String::from("P2\n65 2\n255\n");
    for row in 0..2 {
        for column in 0..65 {
            let value = match (row, column) {
                (0, 0) | (0, 3) | (1, 64) => "1",
                (1, 3) => "2",
                _ => "0",
            };
            expected.push_str(value);
            expected.push_str(if column == 64 { "\n" } else { " " });
        }
    }
    assert_eq!(heatmap.waterfall(), expected);
    heatmap.clear();
    assert_eq!(heatmap.rows(), 2);
    assert_eq!(heatmap.count(1, 3), 0);
    assert_eq!(heatmap.trace(100, 2), "100 2\n");
}

#[test]
fn bits_counts_binary_digits() {
    assert_eq!(bits(0), 0);
    assert_eq!(bits(1), 1);
    assert_eq!(bits(2), 2);
    assert_eq!(bits(3), 2);
    assert_eq!(bits(1023), 10);
    assert_eq!(bits(1024), 11);
    assert_eq!(bits(u64::MAX), 64);
}


#[test]
fn a_waterfall_holds_grey_values_and_rows_within_their_limits() {
    let mut heatmap = Heatmap::new(1);
    for _ in 0..300 {
        heatmap.increment(0, 5, 1);
    }
    assert_eq!(heatmap.count(0, 1), 300);
    assert!(heatmap.waterfall().starts_with("P2\n65 1\n255\n0 255 0 "));
    assert_eq!(heatmap.trace(0, 1), "0 1\n0 1 300\n");
    assert_eq!(Heatmap::new(0).waterfall(), "P2\n65 0\n255\n");
    let mut heatmaps = Heatmaps::new(u64::MAX, 0);
    heatmaps.init(name("a"));
    heatmaps.increment(&name("a"), 65_535 * 1_000_000_000, 0);
    heatmaps.increment(&name("a"), 65_536 * 1_000_000_000, 0);
    assert_eq!(
        heatmaps.trace(&name("a")),
        Some(name("0 18446744073709551615\n65535 0 1\n"))
    );
}

#[test]
fn meters_follow_the_key_schema() {
    let mut meters = Meters::new();
    assert_eq!(meters.count(&name("req")), None);
    meters.set_count(name("req"), 4);
    meters.set_count(name("req"), 5);
    meters.set_percentile(name("lat"), Percentile::new(name("p99"), 990_000), 77);
    meters.set_adev(name("lat"), 12, 500);
    meters.set_adev(name("lat"), 12, 750);
    meters.set_adev(name("lat"), 3, 1_250);
    assert_eq!(meters.data.get("req_count"), Some(&5));
    assert_eq!(meters.data.get("lat_p99_nanoseconds"), Some(&77));
    assert_eq!(meters.data.len(), 2);
    assert_eq!(meters.data_float.get("lat_tau_12_adev"), Some(&750));
    assert_eq!(meters.data_float.len(), 2);
    assert_eq!(meters.count(&name("req")), Some(&5));
    assert_eq!(meters.count(&name("lat")), None);
    assert_eq!(
        meters.percentile(&name("lat"), Percentile::new(name("p99"), 990_000)),
        Some(&77)
    );
    assert_eq!(meters.percentile(&name("lat"), Percentile::new(name("p50"), 500_000)), None);
    assert_eq!(meters.adev(name("lat"), 12), Some(&750));
    assert_eq!(meters.adev(name("lat"), 1), None);
    let mut fractions = meters.fractions();
    fractions.sort();
    assert_eq!(fractions, vec![(name("lat_tau_12_adev"), 750), (name("lat_tau_3_adev"), 1_250)]);
    let mut integers = meters.integers();
    integers.sort();
    assert_eq!(integers, vec![(name("lat_p99_nanoseconds"), 77), (name("req_count"), 5)]);
}

#[test]
fn meters_default_and_clone() {
    let mut meters = Meters::default();
    assert_eq!(meters.data.len(), 0);
    assert_eq!(meters.data_float.len(), 0);
    meters.set_count(name("a"), 1);
    meters.set_adev(name("a"), 1, 5);
    let copy = meters.clone();
    meters.set_count(name("a"), 2);
    meters.set_count(name("b"), 3);
    meters.set_adev(name("a"), 1, 6);
    assert_eq!(copy.count(&name("a")), Some(&1));
    assert_eq!(copy.count(&name("b")), None);
    assert_eq!(copy.adev(name("a"), 1), Some(&5));
    assert_eq!(copy.integers(), vec![(name("a_count"), 1)]);
    assert_eq!(copy.fractions(), vec![(name("a_tau_1_adev"), 5)]);
}

#[test]
fn default_percentiles_and_lags() {
    let percentiles = default_percentiles();
    let labels: Vec<&str> = percentiles.iter().map(|p| p.label.as_str()).collect();
    assert_eq!(labels, ["min", "p50", "p75", "p90", "p95", "p99", "p999", "p9999", "max"]);
    let quantiles: Vec<u32> = percentiles.iter().map(|p| p.parts_per_million).collect();
    assert_eq!(
        quantiles,
        [0, 500_000, 750_000, 900_000, 950_000, 990_000, 999_000, 999_900, 1_000_000]
    );
    let taus = default_taus();
    assert_eq!(taus.len(), 300);
    assert_eq!(taus[0], 1);
    assert_eq!(taus[299], 300);
}

#[test]
fn interests_are_compared_by_value() {
    let trace = Interest::Trace(name("k"), name("/tmp/a"));
    assert!(trace.same(&trace.clone()));
    assert!(!trace.same(&Interest::Trace(name("k"), name("/tmp/b"))));
    assert!(!trace.same(&Interest::Waterfall(name("k"), name("/tmp/a"))));
    assert!(!Interest::Count(name("k")).same(&Interest::Percentile(name("k"))));
    assert!(Interest::AllanDeviation(name("k")).same(&Interest::AllanDeviation(name("k"))));
    assert_eq!(trace.channel(), "k");
    assert_eq!(Interest::Count(name("c")).channel(), "c");
}

#[test]
fn samples_hold_what_they_were_made_with() {
    let one = Sample::new(3, 9, name("k"));
    assert_eq!((one.start(), one.stop(), one.count()), (3, 9, 1));
    assert_eq!(one.metric(), "k");
    let many = Sample::counted(3, 9, 12, name("k"));
    assert_eq!(many.count(), 12);
}

#[test]
fn heatmaps_know_their_channels() {
    let mut heatmaps = Heatmaps::new(2, 0);
    assert!(!heatmaps.contains(&name("a")));
    heatmaps.init(name("a"));
    assert!(heatmaps.contains(&name("a")));
    assert!(!heatmaps.contains(&name("b")));
    heatmaps.remove(&name("a"));
    assert!(!heatmaps.contains(&name("a")));
}

#[test]
fn readings_grow_with_the_quantile_and_lie_among_the_values() {
    let values = [17u64, 400, 3, 90_000, 1_000_000_007, 255, 256, 12, 70_000, 5];
    let mut histogram = Histogram::new();
    for value in values {
        histogram.increment(value);
    }
    let mut last = 0;
    for quantile in (0..=1_000_000u32).step_by(50_000) {
        let reading = histogram.percentile(quantile).unwrap();
        assert!(reading >= last);
        assert!(values.iter().any(|value| midpoint(bucket(*value)) == reading));
        last = reading;
    }
    assert_eq!(histogram.percentile(500_000), Some(255));
    assert_eq!(histogram.percentile(500_001), Some(257));
}
