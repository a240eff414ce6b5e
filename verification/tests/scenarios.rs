use tic::Config;
use tic::ControlMessage;
use tic::Interest;
use tic::Percentile;
use tic::Receiver;
use tic::Sample;

fn small() -> Receiver {
    Receiver::configured(Config::new().duration(1).windows(1).capacity(16).batch_size(4))
}

fn name(s: &str) -> String {
    s.to_string()
}

fn two_percentiles() -> Vec<Percentile> {
    vec![Percentile::new(name("p50"), 500_000), Percentile::new(name("p99"), 990_000)]
}

#[test]
fn count_only() {
    let mut receiver = small();
    receiver.add_interest(Interest::Count(name("req")));
    let mut sent = 0;
    while sent < 10 {
        let mut batch = Vec::with_capacity(4);
        while batch.len() < 4 && sent < 10 {
            batch.push(Sample::new(1_000 + sent, 2_000 + sent, name("req")));
            sent += 1;
        }
        receiver.receive(batch);
    }
    assert!(receiver.check_elapsed(0));
    let meters = receiver.clone_meters();
    assert_eq!(meters.count(&name("req")), Some(&10));
    assert_eq!(meters.data.len(), 1);
    assert_eq!(meters.data_float.len(), 0);
}

#[test]
fn percentiles_in_nanoseconds() {
    let mut receiver = small();
    receiver.set_percentiles(two_percentiles());
    receiver.add_interest(Interest::Percentile(name("lat")));
    for ms in 1..=100u64 {
        receiver.record(&name("lat"), 5_000, 5_000 + ms * 1_000_000, 1);
    }
    assert!(receiver.window_elapsed(10, 10));
    let meters = receiver.clone_meters();
    let p50 = *meters.percentile(&name("lat"), Percentile::new(name("p50"), 500_000)).unwrap();
    let p99 = *meters.percentile(&name("lat"), Percentile::new(name("p99"), 990_000)).unwrap();
    assert_eq!(p50, 49_938_432);
    assert_eq!(p99, 98_828_288);
    assert!(p50.abs_diff(50_000_000) * 128 <= 50_000_000);
    assert!(p99.abs_diff(99_000_000) * 128 <= 99_000_000);
    assert_eq!(meters.data.len(), 2);
}

#[test]
fn percentiles_through_the_clock() {
    let mut receiver = small();
    receiver.set_percentiles(two_percentiles());
    receiver.add_interest(Interest::Percentile(name("lat")));
    let clock = receiver.get_clocksource();
    let base = clock.counter();
    let per_ms = receiver.frequency() / 1_000;
    let mut batch = Vec::new();
    for ms in 1..=100u64 {
        batch.push(Sample::new(base, base + ms * per_ms, name("lat")));
    }
    receiver.receive(batch);
    assert!(receiver.check_elapsed(0));
    let meters = receiver.clone_meters();
    let p50 = *meters.data.get("lat_p50_nanoseconds").unwrap();
    let p99 = *meters.data.get("lat_p99_nanoseconds").unwrap();
    assert!(p50 > 49_500_000 && p50 < 50_500_000, "p50 was {}", p50);
    assert!(p99 > 98_500_000 && p99 < 99_500_000, "p99 was {}", p99);
}

#[test]
fn multi_channel_isolation() {
    let mut receiver = small();
    receiver.add_interest(Interest::Count(name("a")));
    receiver.add_interest(Interest::Count(name("b")));
    let mut batch = Vec::new();
    for i in 0..3u64 {
        batch.push(Sample::new(i, i + 10, name("a")));
    }
    for i in 0..7u64 {
        batch.push(Sample::new(i, i + 10, name("b")));
    }
    receiver.receive(batch);
    assert!(receiver.check_elapsed(0));
    let meters = receiver.clone_meters();
    assert_eq!(meters.count(&name("a")), Some(&3));
    assert_eq!(meters.count(&name("b")), Some(&7));
}

#[test]
fn unsubscribed_channel() {
    let mut receiver = small();
    let mut batch = Vec::new();
    for i in 0..50u64 {
        batch.push(Sample::new(i, i + 10, name("quiet")));
    }
    receiver.receive(batch);
    assert!(receiver.check_elapsed(0));
    let meters = receiver.clone_meters();
    assert_eq!(meters.data.len(), 0);
    assert_eq!(meters.data_float.len(), 0);
    assert_eq!(meters.integers().len(), 0);
    assert_eq!(meters.fractions().len(), 0);
    assert_eq!(meters.count(&name("quiet")), None);
}

#[test]
fn window_rotation() {
    let mut receiver = small();
    receiver.set_percentiles(vec![Percentile::new(name("p50"), 500_000)]);
    receiver.add_interest(Interest::Percentile(name("x")));
    for latency in 1..=10u64 {
        receiver.record(&name("x"), 100, 100 + latency, 1);
    }
    assert!(receiver.window_elapsed(1, 1));
    assert_eq!(receiver.clone_meters().data.get("x_p50_nanoseconds"), Some(&5));
    for latency in 100..=110u64 {
        receiver.record(&name("x"), 100, 100 + latency, 1);
    }
    assert!(receiver.window_elapsed(2, 2));
    assert_eq!(receiver.clone_meters().data.get("x_p50_nanoseconds"), Some(&105));
    assert!(receiver.window_elapsed(3, 3));
    assert_eq!(receiver.clone_meters().data.get("x_p50_nanoseconds"), Some(&0));
}

#[test]
fn http_scrape() {
    let mut receiver = small();
    receiver.add_interest(Interest::Count(name("req")));
    receiver.receive(vec![Sample::counted(1, 2, 5, name("req"))]);
    assert!(receiver.check_elapsed(0));
    let plain = receiver.handle_http(&name("/metrics"));
    assert_eq!(plain, "req_count 5\n");
    let vars = receiver.handle_http(&name("/vars"));
    assert_eq!(vars, "req_count 5\n");
    let json = receiver.handle_http(&name("/"));
    assert_eq!(json, "{\"req_count\":5}");
    assert!(json.contains("\"req_count\":5"));
}

#[test]
fn http_scrape_lists_integers_before_fractions() {
    let mut receiver = small();
    receiver.set_taus(vec![1]);
    receiver.add_interest(Interest::Count(name("req")));
    receiver.add_interest(Interest::AllanDeviation(name("req")));
    receiver.record(&name("req"), 100, 100, 1);
    receiver.record(&name("req"), 100, 110, 1);
    receiver.record(&name("req"), 100, 140, 1);
    assert!(receiver.window_elapsed(0, 0));
    assert_eq!(receiver.handle_http(&name("/vars")), "req_count 3\nreq_tau_1_adev 14.142\n");
    assert_eq!(
        receiver.handle_http(&name("/any")),
        "{\"req_count\":3,\"req_tau_1_adev\":14.142}"
    );
}

#[test]
fn deviations_are_rendered_where_they_are_defined() {
    let mut receiver = small();
    receiver.set_taus(vec![1, 2, 0, 301]);
    receiver.add_interest(Interest::AllanDeviation(name("k")));
    assert!(receiver.window_elapsed(0, 0));
    assert_eq!(receiver.clone_meters().data_float.len(), 0);
    for dt in [0u64, 10, 40] {
        receiver.record(&name("k"), 100, 100 + dt, 1);
    }
    assert!(receiver.window_elapsed(0, 0));
    let meters = receiver.clone_meters();
    assert_eq!(meters.data_float.len(), 1);
    assert_eq!(meters.adev(name("k"), 1), Some(&14_142));
    assert_eq!(meters.adev(name("k"), 2), None);
    for dt in [90u64, 160] {
        receiver.record(&name("k"), 100, 100 + dt, 1);
    }
    assert!(receiver.window_elapsed(0, 0));
    let meters = receiver.clone_meters();
    assert_eq!(meters.data_float.len(), 2);
    assert_eq!(meters.adev(name("k"), 1), Some(&14_142));
    assert_eq!(meters.adev(name("k"), 2), Some(&28_284));
    assert_eq!(meters.data.len(), 0);
}

#[test]
fn http_scrape_of_empty_meters() {
    let receiver = small();
    assert_eq!(receiver.handle_http(&name("/metrics")), "");
    assert_eq!(receiver.handle_http(&name("/")), "{}");
}

#[test]
fn conservation_of_counts() {
    let mut receiver = small();
    receiver.add_interest(Interest::Count(name("k")));
    receiver.receive(vec![
        Sample::counted(0, 1, 3, name("k")),
        Sample::counted(0, 1, 100, name("other")),
        Sample::counted(0, 1, 4, name("k")),
    ]);
    receiver.receive(vec![Sample::counted(0, 1, 5, name("k"))]);
    assert!(receiver.window_elapsed(1, 0));
    assert_eq!(receiver.clone_meters().count(&name("k")), Some(&12));
    receiver.receive(vec![Sample::counted(0, 1, 8, name("k"))]);
    assert!(receiver.window_elapsed(1, 0));
    assert_eq!(receiver.clone_meters().count(&name("k")), Some(&20));
}

#[test]
fn counts_stay_at_the_largest_value() {
    let mut receiver = small();
    receiver.add_interest(Interest::Count(name("k")));
    receiver.record(&name("k"), 0, 0, u64::MAX - 1);
    receiver.record(&name("k"), 0, 0, 5);
    assert!(receiver.window_elapsed(0, 0));
    assert_eq!(receiver.clone_meters().count(&name("k")), Some(&u64::MAX));
}

#[test]
fn key_schema_after_first_boundary() {
    let mut receiver = small();
    receiver.add_interest(Interest::Count(name("c")));
    receiver.add_interest(Interest::Percentile(name("p")));
    assert_eq!(receiver.clone_meters().data.len(), 0);
    assert!(receiver.window_elapsed(0, 0));
    let meters = receiver.clone_meters();
    assert_eq!(meters.data.get("c_count"), Some(&0));
    for label in ["min", "p50", "p75", "p90", "p95", "p99", "p999", "p9999", "max"] {
        assert_eq!(meters.data.get(&format!("p_{}_nanoseconds", label)), Some(&0));
    }
    assert_eq!(meters.data.len(), 10);
}

#[test]
fn snapshots_between_boundaries_are_equal() {
    let mut receiver = small();
    receiver.add_interest(Interest::Count(name("k")));
    receiver.receive(vec![Sample::counted(0, 1, 3, name("k"))]);
    assert!(receiver.window_elapsed(5, 5));
    let first = receiver.clone_meters();
    receiver.receive(vec![Sample::counted(0, 1, 4, name("k"))]);
    receiver.add_interest(Interest::Count(name("later")));
    assert!(!receiver.window_elapsed(4, 5));
    let second = receiver.clone_meters();
    assert_eq!(first.data, second.data);
    assert_eq!(first.data_float, second.data_float);
    assert_eq!(second.count(&name("k")), Some(&3));
}

#[test]
fn a_snapshot_is_a_copy() {
    let mut receiver = small();
    receiver.add_interest(Interest::Count(name("k")));
    receiver.receive(vec![Sample::counted(0, 1, 3, name("k"))]);
    assert!(receiver.window_elapsed(0, 0));
    let mut snapshot = receiver.clone_meters();
    snapshot.set_count(name("k"), 99);
    snapshot.set_adev(name("k"), 1, 1_500);
    assert_eq!(receiver.clone_meters().count(&name("k")), Some(&3));
    assert_eq!(receiver.clone_meters().adev(name("k"), 1), None);
    assert_eq!(snapshot.count(&name("k")), Some(&99));
    assert_eq!(snapshot.adev(name("k"), 1), Some(&1_500));
}

#[test]
fn adding_an_interest_twice_is_adding_it_once() {
    let mut once = small();
    once.add_interest(Interest::Percentile(name("k")));
    let mut twice = small();
    twice.add_interest(Interest::Percentile(name("k")));
    twice.add_interest(Interest::Percentile(name("k")));
    assert_eq!(once.interests().len(), 1);
    assert_eq!(twice.interests().len(), 1);
    once.record(&name("k"), 0, 7, 1);
    twice.record(&name("k"), 0, 7, 1);
    assert!(once.window_elapsed(0, 0));
    assert!(twice.window_elapsed(0, 0));
    assert_eq!(once.clone_meters().data, twice.clone_meters().data);
}

#[test]
fn a_new_interest_sees_no_earlier_data() {
    let mut receiver = small();
    receiver.record(&name("k"), 0, 7, 3);
    receiver.add_interest(Interest::Count(name("k")));
    assert!(receiver.window_elapsed(0, 0));
    assert_eq!(receiver.clone_meters().count(&name("k")), Some(&0));
    receiver.remove_interest(&Interest::Count(name("k")));
    receiver.record(&name("k"), 0, 7, 3);
    receiver.add_interest(Interest::Count(name("k")));
    assert!(receiver.window_elapsed(0, 0));
    assert_eq!(receiver.clone_meters().count(&name("k")), Some(&0));
    assert_eq!(receiver.interests().len(), 1);
}

#[test]
fn adding_a_subscribed_interest_keeps_its_total() {
    let mut receiver = small();
    receiver.add_interest(Interest::Count(name("a")));
    receiver.add_interest(Interest::Percentile(name("a")));
    receiver.set_percentiles(two_percentiles());
    receiver.record(&name("a"), 0, 7, 5);
    receiver.add_interest(Interest::Count(name("a")));
    receiver.add_interest(Interest::Percentile(name("a")));
    assert_eq!(receiver.interests().len(), 2);
    assert!(receiver.window_elapsed(0, 0));
    let meters = receiver.clone_meters();
    assert_eq!(meters.count(&name("a")), Some(&5));
    assert_eq!(meters.data.get("a_p50_nanoseconds"), Some(&7));
}

#[test]
fn removing_an_absent_interest_changes_nothing() {
    let mut receiver = small();
    receiver.add_interest(Interest::Count(name("a")));
    receiver.record(&name("a"), 0, 7, 5);
    receiver.remove_interest(&Interest::Count(name("b")));
    receiver.remove_interest(&Interest::Percentile(name("a")));
    receiver.remove_interest(&Interest::Trace(name("a"), name("/tmp/a")));
    assert_eq!(receiver.interests().len(), 1);
    assert!(receiver.window_elapsed(0, 0));
    assert_eq!(receiver.clone_meters().count(&name("a")), Some(&5));
    assert_eq!(receiver.clone_meters().data.len(), 1);
}

#[test]
fn removing_an_interest_drops_its_store() {
    let mut receiver = small();
    receiver.add_interest(Interest::Count(name("k")));
    receiver.add_interest(Interest::AllanDeviation(name("k")));
    for _ in 0..3 {
        receiver.record(&name("k"), 0, 7, 3);
    }
    assert_eq!(receiver.allans().adev(&name("k"), 1), Some(0));
    receiver.remove_interest(&Interest::AllanDeviation(name("k")));
    receiver.remove_interest(&Interest::AllanDeviation(name("k")));
    assert_eq!(receiver.allans().adev(&name("k"), 1), None);
    assert_eq!(receiver.interests().len(), 1);
    receiver.remove_interest(&Interest::Count(name("k")));
    assert_eq!(receiver.interests().len(), 0);
    receiver.record(&name("k"), 0, 7, 3);
    assert!(receiver.window_elapsed(0, 0));
    assert_eq!(receiver.clone_meters().data.len(), 0);
}

#[test]
fn control_messages_change_the_subscriptions() {
    let mut receiver = small();
    receiver.control(ControlMessage::AddInterest(Interest::Count(name("k"))));
    assert_eq!(receiver.interests().len(), 1);
    assert!(receiver.interests()[0].same(&Interest::Count(name("k"))));
    receiver.control(ControlMessage::RemoveInterest(Interest::Count(name("k"))));
    assert_eq!(receiver.interests().len(), 0);
}

#[test]
fn a_sample_that_ends_as_it_begins_reads_zero() {
    let mut receiver = small();
    receiver.set_percentiles(two_percentiles());
    receiver.set_taus(vec![1]);
    receiver.add_interest(Interest::Percentile(name("k")));
    receiver.add_interest(Interest::AllanDeviation(name("k")));
    receiver.add_interest(Interest::Count(name("k")));
    let tick = receiver.get_clocksource().counter();
    receiver.receive(vec![
        Sample::new(tick, tick, name("k")),
        Sample::new(tick + 5, tick + 5, name("k")),
        Sample::new(tick + 9, tick + 9, name("k")),
    ]);
    assert!(receiver.check_elapsed(0));
    let meters = receiver.clone_meters();
    assert_eq!(meters.data.get("k_p50_nanoseconds"), Some(&0));
    assert_eq!(meters.data.get("k_p99_nanoseconds"), Some(&0));
    assert_eq!(meters.data.get("k_count"), Some(&3));
    assert_eq!(meters.adev(name("k"), 1), Some(&0));
}

#[test]
fn one_window_renders_one_meter_for_each_quantile() {
    let mut receiver = small();
    receiver.set_percentiles(two_percentiles());
    receiver.add_interest(Interest::Percentile(name("k")));
    let mut batch = Vec::with_capacity(4);
    for i in 0..4u64 {
        batch.push(Sample::new(1_000, 1_000 + i, name("k")));
    }
    receiver.receive(batch);
    assert!(receiver.check_elapsed(0));
    let meters = receiver.clone_meters();
    assert_eq!(meters.data.len(), 2);
    assert!(meters.data.contains_key("k_p50_nanoseconds"));
    assert!(meters.data.contains_key("k_p99_nanoseconds"));
}

#[test]
fn a_sample_that_ends_before_it_begins_counts_as_zero_latency() {
    let mut receiver = small();
    receiver.set_percentiles(two_percentiles());
    receiver.add_interest(Interest::Percentile(name("k")));
    receiver.add_interest(Interest::AllanDeviation(name("k")));
    receiver.record(&name("k"), 50, 20, 1);
    receiver.record(&name("k"), 50, 50, 1);
    receiver.record(&name("k"), 50, 50, 1);
    assert_eq!(receiver.allans().adev(&name("k"), 1), Some(21_213));
    assert!(receiver.window_elapsed(0, 0));
    assert_eq!(receiver.clone_meters().data.get("k_p99_nanoseconds"), Some(&0));
}

#[test]
fn the_window_is_rendered_only_at_its_end() {
    let mut receiver = small();
    receiver.add_interest(Interest::Count(name("k")));
    receiver.record(&name("k"), 0, 1, 2);
    let end = receiver.window_time();
    assert!(end > 0);
    assert!(!receiver.window_elapsed(end - 1, end));
    assert_eq!(receiver.clone_meters().data.len(), 0);
    assert_eq!(receiver.window_time(), end);
    assert!(receiver.window_elapsed(end, end));
    assert_eq!(receiver.clone_meters().count(&name("k")), Some(&2));
    assert_eq!(receiver.window_time(), end + receiver.frequency());
}

#[test]
fn the_clock_has_not_reached_a_far_end() {
    let mut receiver = small();
    receiver.add_interest(Interest::Count(name("k")));
    assert!(!receiver.check_elapsed(u64::MAX));
    assert_eq!(receiver.clone_meters().data.len(), 0);
}

#[test]
fn draining_a_batch_empties_it_and_keeps_its_room() {
    let mut receiver = small();
    receiver.add_interest(Interest::Count(name("k")));
    let mut batch = Vec::with_capacity(4);
    for i in 0..4u64 {
        batch.push(Sample::counted(i, i + 1, 2, name("k")));
    }
    let room = batch.capacity();
    receiver.drain(&mut batch);
    assert_eq!(batch.len(), 0);
    assert_eq!(batch.capacity(), room);
    assert!(receiver.window_elapsed(0, 0));
    assert_eq!(receiver.clone_meters().count(&name("k")), Some(&8));
}
