use logger::aggregate::{collapse_counters, try_collapse_counters};
use logger::message::Message;

fn counter(name: &str, time: u32, value: i64) -> Message {
    Message::Counter { counter_name: name.to_string(), time, value }
}

fn log(group: &str, time: u32, value: &str) -> Message {
    Message::Log { group_name: group.to_string(), time, value: value.to_string() }
}

#[test]
fn same_bucket_collapses_to_net_delta() {
    let batch = vec![counter("a", 100, 1), counter("a", 100, 1), counter("a", 100, -1)];
    let out = collapse_counters(&batch);
    assert_eq!(out.len(), 1);
    match &out[0] {
        Message::Counter { counter_name, time, value } => {
            assert_eq!(counter_name, "a");
            assert_eq!(*time, 100);
            assert_eq!(*value, 1);
        },
        _ => panic!("expected a counter event"),
    }
}

#[test]
fn distinct_timestamps_stay_independent() {
    let batch = vec![counter("a", 100, 1), counter("a", 200, 1), counter("a", 100, 1)];
    let mut out = collapse_counters(&batch);
    assert_eq!(out.len(), 2);
    out.sort_by_key(|m| match m {
        Message::Counter { time, .. } => *time,
        _ => 0,
    });
    assert_eq!(out[0], counter("a", 100, 2));
    assert_eq!(out[1], counter("a", 200, 1));
}

#[test]
fn distinct_names_stay_independent() {
    let batch = vec![counter("a", 100, 1), counter("b", 100, 5)];
    let mut out = collapse_counters(&batch);
    assert_eq!(out.len(), 2);
    out.sort_by_key(|m| match m {
        Message::Counter { counter_name, .. } => counter_name.clone(),
        _ => String::new(),
    });
    assert_eq!(out[0], counter("a", 100, 1));
    assert_eq!(out[1], counter("b", 100, 5));
}

#[test]
fn logs_pass_through_unaggregated() {
    let batch = vec![log("web", 1, "hello"), counter("a", 1, 1), log("web", 1, "hello")];
    let out = collapse_counters(&batch);
    // only the one counter bucket comes out; logs are written row by row
    assert_eq!(out, vec![counter("a", 1, 1)]);
}

#[test]
fn empty_batch_collapses_to_nothing() {
    let out = collapse_counters(&Vec::new());
    assert!(out.is_empty());
}

#[test]
fn order_does_not_change_sums() {
    let forward = vec![counter("a", 1, 3), counter("b", 1, -2), counter("a", 1, 4)];
    let backward = vec![counter("a", 1, 4), counter("b", 1, -2), counter("a", 1, 3)];
    let mut out1 = collapse_counters(&forward);
    let mut out2 = collapse_counters(&backward);
    let key = |m: &Message| match m {
        Message::Counter { counter_name, time, .. } => (counter_name.clone(), *time),
        _ => (String::new(), 0),
    };
    out1.sort_by_key(key);
    out2.sort_by_key(key);
    assert_eq!(out1, out2);
}

#[test]
fn overflowing_bucket_is_reported() {
    let batch = vec![counter("a", 1, i64::MAX), counter("a", 1, 1)];
    assert!(try_collapse_counters(&batch).is_none());
}

#[test]
fn mixed_signs_cancel_overflow() {
    // the partial sums leave i64 only transiently; the net value fits
    let batch = vec![counter("a", 1, i64::MAX), counter("a", 1, i64::MAX), counter("a", 1, i64::MIN)];
    let out = try_collapse_counters(&batch).unwrap();
    assert_eq!(out, vec![counter("a", 1, i64::MAX - 1)]);
}
