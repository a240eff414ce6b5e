use tic::Artifact;
use tic::Config;
use tic::Interest;
use tic::Receiver;
use tic::RunStep;
use tic::Sample;

fn name(s: &str) -> String {
    s.to_string()
}

fn heatmap_start(receiver: &mut Receiver) -> u64 {
    let probe = Interest::Trace(name("probe"), name("/tmp/probe.trace"));
    receiver.add_interest(probe.clone());
    let start = match receiver.save_files().pop() {
        Some(Artifact::Trace { text, .. }) => {
            text.split(' ').next().unwrap().parse::<u64>().unwrap()
        }
        _ => panic!("the probe is the last subscription"),
    };
    receiver.remove_interest(&probe);
    start
}

fn small() -> Receiver {
    Receiver::configured(Config::new().duration(1).windows(1).capacity(16).batch_size(4))
}

#[test]
fn the_pool_is_offered_one_batch_for_each_unit_of_capacity() {
    let receiver = small();
    let pool = receiver.get_pool();
    let mut batches = 0;
    while let Some(batch) = pool.pop() {
        assert_eq!(batch.len(), 0);
        assert!(batch.capacity() >= 4);
        batches += 1;
    }
    assert_eq!(batches, 16);
}

#[test]
fn a_drained_batch_returns_to_the_pool_empty() {
    let mut receiver = small();
    let pool = receiver.get_pool();
    let mut batch = pool.pop().unwrap();
    let mut held = Vec::new();
    while let Some(other) = pool.pop() {
        held.push(other);
    }
    assert_eq!(held.len(), 15);
    for i in 0..4u64 {
        batch.push(Sample::new(i, i + 1, name("k")));
    }
    receiver.receive(batch);
    let returned = pool.pop().unwrap();
    assert_eq!(returned.len(), 0);
    assert!(returned.capacity() >= 4);
    assert!(pool.pop().is_none());
}

#[test]
fn a_full_pool_lets_a_batch_go() {
    let mut receiver = small();
    let pool = receiver.get_pool();
    receiver.receive(vec![Sample::new(0, 1, name("k"))]);
    let mut batches = 0;
    while pool.pop().is_some() {
        batches += 1;
    }
    assert_eq!(batches, 16);
}

#[test]
fn samples_are_converted_by_the_clock() {
    let mut receiver = small();
    let clock = receiver.get_clocksource();
    let first_tick = receiver.window_time() - receiver.frequency();
    let start = heatmap_start(&mut receiver);
    assert_eq!(start, clock.convert(first_tick) as u64);
    assert_ne!(start, first_tick);
    receiver.add_interest(Interest::Trace(name("k"), name("/tmp/k.trace")));
    let begin = first_tick + 3 * receiver.frequency() / 2;
    receiver.receive(vec![Sample::new(begin, begin + 1_000, name("k"))]);
    let t0 = clock.convert(begin) as u64;
    let t1 = clock.convert(begin + 1_000) as u64;
    assert_eq!((t0 - start) / 1_000_000_000, 1);
    let column = 64 - (t1 - t0).leading_zeros();
    let artifacts = receiver.save_files();
    assert_eq!(artifacts.len(), 1);
    match &artifacts[0] {
        Artifact::Trace { path, text } => {
            assert_eq!(path, "/tmp/k.trace");
            assert_eq!(text, &format!("{} 1\n", start));
        }
        Artifact::Waterfall { .. } => panic!("a trace was subscribed"),
    }
    let mut longer = Receiver::configured(Config::new().duration(2).windows(1).capacity(2));
    let clock = longer.get_clocksource();
    let first_tick = longer.window_time() - 2 * longer.frequency();
    let start = heatmap_start(&mut longer);
    longer.add_interest(Interest::Trace(name("k"), name("/tmp/k.trace")));
    let begin = first_tick + 3 * longer.frequency() / 2;
    longer.receive(vec![Sample::new(begin, begin + 1_000, name("k"))]);
    let t0 = clock.convert(begin) as u64;
    let t1 = clock.convert(begin + 1_000) as u64;
    let column = column.max(64 - (t1 - t0).leading_zeros());
    match longer.save_files().pop() {
        Some(Artifact::Trace { text, .. }) => {
            let row = (t0 - start) / 1_000_000_000;
            assert_eq!(row, 1);
            let digits = 64 - (t1 - t0).leading_zeros();
            assert_eq!(text, format!("{} 2\n{} {} 1\n", start, row, digits));
            assert!(digits <= column);
        }
        _ => panic!("a trace was subscribed"),
    }
}

#[test]
fn the_first_window_is_laid_out_from_the_clock() {
    let receiver = Receiver::configured(Config::new().duration(2).windows(3).capacity(4));
    let clock = receiver.get_clocksource();
    let frequency = receiver.frequency();
    assert_eq!(frequency, clock.frequency() as u64);
    assert!(frequency > 0);
    let now = clock.counter();
    let window_end = receiver.window_time();
    let run_end = receiver.end_time();
    assert_eq!(run_end - window_end, 2 * 2 * frequency);
    assert!(window_end > now);
    assert!(window_end - 2 * frequency <= now);
    assert_eq!(receiver.config().duration, 2);
    assert_eq!(receiver.config().windows, 3);
}

#[test]
fn default_settings() {
    let config = Receiver::configure();
    assert_eq!(config.duration, 60);
    assert_eq!(config.windows, 60);
    assert_eq!(config.capacity, 1024);
    assert_eq!(config.batch_size, 512);
    assert!(!config.service_mode);
    assert_eq!(config.http_listen, None);
    assert_eq!(config.poll_delay, None);
    let changed = Config::default()
        .service(true)
        .http_listen(name("localhost:42024"))
        .poll_delay(Some(100));
    assert!(changed.service_mode);
    assert_eq!(changed.http_listen, Some(name("localhost:42024")));
    assert_eq!(changed.poll_delay, Some(100));
}

#[test]
fn a_receiver_starts_without_subscriptions() {
    let receiver = Config::new().capacity(2).batch_size(1).build();
    assert_eq!(receiver.interests().len(), 0);
    assert_eq!(receiver.taus().len(), 300);
    assert_eq!(receiver.percentiles().len(), 9);
    assert_eq!(receiver.clone_meters().data.len(), 0);
    assert_eq!(receiver.config().capacity, 2);
}

#[test]
fn a_run_of_two_windows_ends_after_the_second() {
    let mut receiver = Receiver::configured(Config::new().duration(1).windows(2).capacity(2));
    let start = heatmap_start(&mut receiver);
    receiver.add_interest(Interest::Trace(name("k"), name("/tmp/k.trace")));
    receiver.add_interest(Interest::Waterfall(name("k"), name("/tmp/k.pgm")));
    receiver.add_interest(Interest::Waterfall(name("gone"), name("/tmp/gone.pgm")));
    receiver.remove_interest(&Interest::Waterfall(name("gone"), name("/tmp/gone.pgm")));
    receiver.record(&name("k"), start + 10, start + 30, 1);
    let first_end = receiver.window_time();
    assert!(matches!(receiver.next_step(), RunStep::NextWindow));
    assert!(receiver.window_elapsed(first_end, first_end));
    receiver.window_completed();
    assert!(matches!(receiver.next_step(), RunStep::NextWindow));
    assert!(matches!(receiver.next_step(), RunStep::NextWindow));
    assert!(receiver.window_elapsed(u64::MAX, receiver.window_time()));
    receiver.window_completed();
    assert_eq!(receiver.window_time(), first_end + 2 * receiver.frequency());
    match receiver.next_step() {
        RunStep::Finished(artifacts) => {
            assert_eq!(artifacts.len(), 2);
            match &artifacts[0] {
                Artifact::Trace { path, text } => {
                    assert_eq!(path, "/tmp/k.trace");
                    assert_eq!(text, &format!("{} 2\n0 5 1\n", start));
                }
                Artifact::Waterfall { .. } => panic!("the trace was subscribed first"),
            }
            match &artifacts[1] {
                Artifact::Waterfall { path, image } => {
                    assert_eq!(path, "/tmp/k.pgm");
                    assert!(image.starts_with("P2\n65 2\n255\n0 0 0 0 0 1 0 "));
                    assert_eq!(image.lines().count(), 5);
                }
                Artifact::Trace { .. } => panic!("the waterfall was subscribed second"),
            }
        }
        _ => panic!("the run has two windows"),
    }
    assert!(matches!(receiver.next_step(), RunStep::Finished(_)));
}

#[test]
fn a_run_of_no_windows_ends_at_once() {
    let mut receiver = Receiver::configured(Config::new().duration(1).windows(0).capacity(2));
    receiver.add_interest(Interest::Trace(name("k"), name("/tmp/k.trace")));
    let end = receiver.window_time();
    match receiver.next_step() {
        RunStep::Finished(artifacts) => assert_eq!(artifacts.len(), 1),
        _ => panic!("the run has no window"),
    }
    assert_eq!(receiver.window_time(), end);
    assert_eq!(receiver.clone_meters().data.len(), 0);
}

#[test]
fn plots_of_one_channel_share_a_heatmap() {
    let mut receiver = small();
    let start = heatmap_start(&mut receiver);
    let trace = Interest::Trace(name("k"), name("/tmp/k.trace"));
    let waterfall = Interest::Waterfall(name("k"), name("/tmp/k.pgm"));
    receiver.add_interest(trace.clone());
    receiver.record(&name("k"), start + 10, start + 30, 1);
    receiver.add_interest(waterfall.clone());
    receiver.add_interest(trace.clone());
    assert_eq!(receiver.interests().len(), 2);
    let artifacts = receiver.save_files();
    assert_eq!(artifacts.len(), 2);
    match &artifacts[0] {
        Artifact::Trace { text, .. } => assert_eq!(text, &format!("{} 1\n0 5 1\n", start)),
        Artifact::Waterfall { .. } => panic!("the trace was subscribed first"),
    }
    receiver.remove_interest(&Interest::Trace(name("k"), name("/tmp/other.trace")));
    assert_eq!(receiver.interests().len(), 2);
    assert_eq!(receiver.save_files().len(), 2);
    receiver.remove_interest(&trace);
    assert_eq!(receiver.interests().len(), 1);
    let artifacts = receiver.save_files();
    assert_eq!(artifacts.len(), 1);
    match &artifacts[0] {
        Artifact::Waterfall { path, image } => {
            assert_eq!(path, "/tmp/k.pgm");
            assert!(image.starts_with("P2\n65 1\n255\n0 0 0 0 0 1 0 "));
        }
        Artifact::Trace { .. } => panic!("the trace was removed"),
    }
    receiver.remove_interest(&waterfall);
    assert_eq!(receiver.save_files().len(), 0);
    receiver.add_interest(trace);
    match receiver.save_files().pop() {
        Some(Artifact::Trace { text, .. }) => assert_eq!(text, format!("{} 1\n", start)),
        _ => panic!("the trace was subscribed again"),
    }
}

#[test]
fn service_mode_begins_the_next_run() {
    let mut receiver =
        Receiver::configured(Config::new().duration(1).windows(1).capacity(2).service(true));
    let start = heatmap_start(&mut receiver);
    receiver.add_interest(Interest::Trace(name("k"), name("/tmp/k.trace")));
    receiver.record(&name("k"), start, start + 30, 1);
    let end = receiver.end_time();
    assert!(matches!(receiver.next_step(), RunStep::NextWindow));
    receiver.window_completed();
    match receiver.next_step() {
        RunStep::NextRun(artifacts) => match &artifacts[0] {
            Artifact::Trace { text, .. } => assert_eq!(text.lines().count(), 2),
            Artifact::Waterfall { .. } => panic!("a trace was subscribed"),
        },
        _ => panic!("a run of one window ends with its first window"),
    }
    assert_eq!(receiver.end_time(), end + receiver.frequency());
    assert!(matches!(receiver.next_step(), RunStep::NextWindow));
    receiver.window_completed();
    match receiver.next_step() {
        RunStep::NextRun(artifacts) => match &artifacts[0] {
            Artifact::Trace { text, .. } => assert_eq!(text.lines().count(), 1),
            Artifact::Waterfall { .. } => panic!("a trace was subscribed"),
        },
        _ => panic!("every run has one window"),
    }
}

#[test]
fn clear_heatmaps_keeps_the_channels() {
    let mut receiver = small();
    let start = heatmap_start(&mut receiver);
    receiver.add_interest(Interest::Trace(name("k"), name("/tmp/k.trace")));
    receiver.record(&name("k"), start + 10, start + 30, 1);
    match receiver.save_files().pop() {
        Some(Artifact::Trace { text, .. }) => assert_eq!(text.lines().count(), 2),
        _ => panic!("a trace was subscribed"),
    }
    receiver.clear_heatmaps();
    let artifacts = receiver.save_files();
    assert_eq!(artifacts.len(), 1);
    match &artifacts[0] {
        Artifact::Trace { text, .. } => assert_eq!(text.lines().count(), 1),
        Artifact::Waterfall { .. } => panic!("a trace was subscribed"),
    }
}

#[test]
fn a_sender_hands_out_full_batches() {
    let receiver = small();
    let pool = receiver.get_pool();
    let mut sender = receiver.get_sender();
    assert_eq!(sender.get_batch_size(), 4);
    for i in 0..3u64 {
        assert!(sender.send(Sample::new(i, i + 1, name("k"))).is_none());
    }
    let full = sender.send(Sample::new(3, 4, name("k"))).unwrap();
    assert_eq!(full.len(), 4);
    assert_eq!(full.iter().map(|s| s.start()).collect::<Vec<u64>>(), vec![0, 1, 2, 3]);
    let mut left = Vec::new();
    while let Some(batch) = pool.pop() {
        left.push(batch);
    }
    assert_eq!(left.len() + 2, 16);
    assert!(sender.send(Sample::new(4, 5, name("k"))).is_none());
    sender.set_batch_size(2);
    let next = sender.send(Sample::new(5, 6, name("k"))).unwrap();
    assert_eq!(next.iter().map(|s| s.start()).collect::<Vec<u64>>(), vec![4, 5]);
    let mut other = sender.clone();
    assert_eq!(other.get_batch_size(), 2);
    assert!(other.send(Sample::new(6, 7, name("k"))).is_none());
    assert!(sender.send(Sample::new(8, 9, name("k"))).is_none());
    assert_eq!(other.send(Sample::new(7, 8, name("k"))).unwrap().len(), 2);
}

#[test]
fn batches_go_round_between_sender_and_receiver() {
    let mut receiver = small();
    receiver.add_interest(Interest::Count(name("k")));
    let pool = receiver.get_pool();
    let mut sender = receiver.get_sender();
    for i in 0..40u64 {
        if let Some(full) = sender.send(Sample::new(i, i + 1, name("k"))) {
            assert_eq!(full.len(), 4);
            receiver.receive(full);
        }
    }
    assert!(receiver.window_elapsed(0, 0));
    assert_eq!(receiver.clone_meters().count(&name("k")), Some(&40));
    let mut in_pool = 0;
    while let Some(batch) = pool.pop() {
        assert_eq!(batch.len(), 0);
        in_pool += 1;
    }
    assert_eq!(in_pool + 1, 16);
}

#[test]
fn a_sender_allocates_when_the_pool_is_empty() {
    let receiver = small();
    let pool = receiver.get_pool();
    let mut held = Vec::new();
    while let Some(batch) = pool.pop() {
        held.push(batch);
    }
    assert_eq!(held.len(), 16);
    let mut sender = receiver.get_sender();
    for i in 0..3u64 {
        assert!(sender.send(Sample::new(i, i + 1, name("k"))).is_none());
    }
    assert_eq!(sender.send(Sample::new(3, 4, name("k"))).unwrap().len(), 4);
    assert!(sender.send(Sample::new(4, 5, name("k"))).is_none());
    assert!(pool.pop().is_none());
}
