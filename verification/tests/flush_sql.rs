use logger::buffer::buffer_tick;
use logger::message::Message;
use logger::sql::{build_flush_sql, flush_sql_for_batch};

fn counter(name: &str, time: u32, value: i64) -> Message {
    Message::Counter { counter_name: name.to_string(), time, value }
}

fn log(group: &str, time: u32, value: &str) -> Message {
    Message::Log { group_name: group.to_string(), time, value: value.to_string() }
}

#[test]
fn log_insert_statement_text() {
    let sql = build_flush_sql(&vec![log("web", 77, "hello")], &Vec::new());
    assert_eq!(
        String::from_utf8(sql).unwrap(),
        "INSERT INTO logs (name, time, value) VALUES ('web', 77, 'hello');\n",
    );
}

#[test]
fn counter_upsert_statement_text() {
    let sql = build_flush_sql(&Vec::new(), &vec![counter("hits", 100, -3)]);
    assert_eq!(
        String::from_utf8(sql).unwrap(),
        "INSERT INTO counters (name, time, value) VALUES ('hits', 100, -3) \
         ON CONFLICT(name, time) DO UPDATE SET value = value + (-3);\n",
    );
}

#[test]
fn quotes_are_doubled_in_values_and_names() {
    let sql = build_flush_sql(&vec![log("o'brien", 1, "it's 'quoted'")], &Vec::new());
    assert_eq!(
        String::from_utf8(sql).unwrap(),
        "INSERT INTO logs (name, time, value) VALUES ('o''brien', 1, 'it''s ''quoted''');\n",
    );
}

#[test]
fn logs_in_batch_order_then_counters() {
    let batch = vec![log("a", 1, "x"), counter("c", 2, 1), log("b", 3, "y")];
    let counters = vec![counter("c", 2, 1)];
    let sql = String::from_utf8(build_flush_sql(&batch, &counters)).unwrap();
    let first = sql.find("('a', 1, 'x')").unwrap();
    let second = sql.find("('b', 3, 'y')").unwrap();
    let third = sql.find("INSERT INTO counters").unwrap();
    assert!(first < second && second < third);
}

#[test]
fn whole_flush_aggregates_then_writes() {
    let batch = vec![counter("a", 100, 1), counter("a", 100, 1), log("g", 5, "line")];
    let sql = String::from_utf8(flush_sql_for_batch(&batch).unwrap()).unwrap();
    // one row insert for the log, one upsert carrying the collapsed sum 2
    assert_eq!(sql.matches("INSERT INTO logs").count(), 1);
    assert_eq!(sql.matches("INSERT INTO counters").count(), 1);
    assert!(sql.contains("VALUES ('a', 100, 2) ON CONFLICT(name, time) DO UPDATE SET value = value + (2);"));
}

#[test]
fn overflowing_flush_is_refused() {
    let batch = vec![counter("a", 1, i64::MAX), counter("a", 1, 1)];
    assert!(flush_sql_for_batch(&batch).is_none());
}

#[test]
fn single_counter_past_time_threshold_writes_value_one() {
    // one counter +1 arrives; nothing else; the time trigger fires on a
    // later tick and the flush writes exactly one upsert of value 1
    let mut batch = Vec::new();
    let outcome = buffer_tick(&mut batch, vec![counter("hits", 42, 1)], 500, false, false);
    assert!(outcome.dispatch.is_none());
    let outcome = buffer_tick(&mut batch, Vec::new(), 500, true, false);
    let dispatched = outcome.dispatch.expect("time trigger must dispatch");
    let sql = String::from_utf8(flush_sql_for_batch(&dispatched).unwrap()).unwrap();
    assert_eq!(sql.matches("INSERT INTO").count(), 1);
    assert_eq!(
        sql,
        "INSERT INTO counters (name, time, value) VALUES ('hits', 42, 1) \
         ON CONFLICT(name, time) DO UPDATE SET value = value + (1);\n",
    );
}

#[test]
fn timestamp_and_extreme_deltas_render_exactly() {
    let sql = String::from_utf8(
        build_flush_sql(&Vec::new(), &vec![counter("m", u32::MAX, i64::MIN)]),
    )
    .unwrap();
    assert!(sql.contains("('m', 4294967295, -9223372036854775808)"));
    assert!(sql.contains("value = value + (-9223372036854775808)"));
}
