use playform::stopwatch::{Stopwatch, StopwatchStats, TimerSet};

#[test]
fn test_simple() {
    let mut ts = TimerSet::new();
    ts.time("hello", |_| {});
}

#[test]
fn test_nested() {
    let mut ts = TimerSet::new();
    ts.time("hello", |ts| {
        ts.time("world", |_| {});
    });
}

#[test]
fn stopwatch_counts_windows() {
    let mut sw = Stopwatch::new();
    assert_eq!(sw.stats(), StopwatchStats::NeverRan);
    let r = sw.timed(|| 7);
    assert_eq!(r, 7);
    assert_eq!(sw.number_of_windows, 1);
    sw.record_window(3_000_000);
    assert_eq!(sw.number_of_windows, 2);
    assert!(sw.total_time >= 3_000_000);
}

#[test]
fn stopwatch_stats_values() {
    let sw = Stopwatch { total_time: 5_000_000, number_of_windows: 2 };
    assert_eq!(sw.stats(), StopwatchStats::Ran { total_ms: 5, samples: 2, average_us: 2500 });
}

#[test]
fn stopwatch_record_saturates() {
    let mut sw = Stopwatch { total_time: u64::MAX - 1, number_of_windows: 0 };
    sw.record_window(10);
    assert_eq!(sw.total_time, u64::MAX);
}

#[test]
fn timer_set_keeps_names_in_order() {
    let mut ts = TimerSet::new();
    ts.time("world", |_| {});
    ts.time("hello", |_| {});
    ts.time("world", |_| {});
    let stats = ts.stats();
    assert_eq!(stats.len(), 2);
    assert_eq!(stats[0].0, "hello");
    assert_eq!(stats[1].0, "world");
    match stats[1].1 {
        StopwatchStats::Ran { samples, .. } => assert_eq!(samples, 2),
        StopwatchStats::NeverRan => panic!("world ran"),
    }
}

#[test]
fn nested_timings_count_each_name_once_per_call() {
    let mut ts = TimerSet::new();
    let r = ts.time("outer", |ts| {
        ts.time("inner", |_| {});
        ts.time("inner", |_| 3)
    });
    assert_eq!(r, 3);
    let stats = ts.stats();
    assert_eq!(stats.len(), 2);
    assert_eq!(stats[0].0, "inner");
    assert_eq!(stats[1].0, "outer");
    match (stats[0].1, stats[1].1) {
        (StopwatchStats::Ran { samples: a, .. }, StopwatchStats::Ran { samples: b, .. }) => assert_eq!((a, b), (2, 1)),
        _ => panic!("both ran"),
    }
}

#[test]
fn nested_timers_each_count_one_window() {
    let mut ts = TimerSet::new();
    ts.time("hello", |ts| {
        ts.time("world", |_| {});
    });
    let stats = ts.stats();
    assert_eq!(stats.len(), 2);
    for (_, s) in stats {
        match s {
            StopwatchStats::Ran { samples, .. } => assert_eq!(samples, 1),
            StopwatchStats::NeverRan => panic!("every timer ran"),
        }
    }
}
