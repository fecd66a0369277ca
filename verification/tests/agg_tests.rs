use work_timer::{DayRecord, History};
use work_timer::agg::aggregate_by_day;

fn fresh_history() -> History {
    let db = sled::Config::new().temporary(true).open().unwrap();
    History::new(db)
}

fn day_record(day: i32, duration: u64, tag: &str) -> DayRecord {
    DayRecord { day, duration, tag: tag.to_string() }
}

#[test]
fn zero_fill_covers_silent_days() {
    // records for tag "X" on day 1 and day 3, none on day 2
    let records = vec![day_record(1, 100, "X"), day_record(3, 50, "X")];
    let out = aggregate_by_day(&records, 3);
    assert_eq!(out.len(), 1);
    assert_eq!(out[0].0, "X");
    // a three-day axis, most recent first, day 2 filled with zero
    assert_eq!(out[0].1, vec![(3, 50), (2, 0), (1, 100)]);
}

#[test]
fn every_tag_spans_the_same_axis() {
    let records = vec![
        day_record(10, 60, "B"),
        day_record(12, 30, "A"),
        day_record(12, 45, "B"),
    ];
    let out = aggregate_by_day(&records, 13);
    // tags ascend
    assert_eq!(out.len(), 2);
    assert_eq!(out[0].0, "A");
    assert_eq!(out[1].0, "B");
    // both series run from today back to the earliest record's day
    assert_eq!(out[0].1, vec![(13, 0), (12, 30), (11, 0), (10, 0)]);
    assert_eq!(out[1].1, vec![(13, 0), (12, 45), (11, 0), (10, 60)]);
}

#[test]
fn cells_sum_a_tags_day() {
    let records = vec![
        day_record(5, 10, "X"),
        day_record(5, 20, "X"),
        day_record(5, 40, "Y"),
    ];
    let out = aggregate_by_day(&records, 5);
    assert_eq!(out.len(), 2);
    assert_eq!(out[0].0, "X");
    assert_eq!(out[0].1, vec![(5, 30)]);
    assert_eq!(out[1].0, "Y");
    assert_eq!(out[1].1, vec![(5, 40)]);
}

#[test]
fn no_records_no_rollup() {
    let records: Vec<DayRecord> = Vec::new();
    let out = aggregate_by_day(&records, 1000);
    assert!(out.is_empty());
}

#[test]
fn huge_cell_totals_saturate() {
    let records = vec![
        day_record(1, u64::MAX, "X"),
        day_record(1, u64::MAX, "X"),
    ];
    let out = aggregate_by_day(&records, 1);
    assert_eq!(out[0].1, vec![(1, u64::MAX)]);
}

#[test]
fn total_duration_sums_the_window() {
    let mut h = fresh_history();
    h.add_record(100, 10, "Work", "X");
    h.add_record(200, 20, "Work", "Y");
    h.add_record(300, 30, "Work", "X");
    assert_eq!(h.total_duration(100, 301), 60);
    assert_eq!(h.total_duration(150, 300), 20);
    assert_eq!(h.total_duration(301, 1000), 0);
    assert_eq!(h.total_duration(0, u64::MAX), 60);
}

#[test]
fn total_duration_of_empty_store_is_zero() {
    let h = fresh_history();
    assert_eq!(h.total_duration(0, u64::MAX), 0);
}

#[test]
fn rollup_over_the_store_accounts_every_second() {
    let mut h = fresh_history();
    let now = std::time::SystemTime::now()
        .duration_since(std::time::UNIX_EPOCH)
        .unwrap()
        .as_secs();
    h.add_record(now - 10, 100, "Work", "X");
    h.add_record(now - 5, 40, "Work", "X");
    h.add_record(now - 3, 7, "Work", "Y");
    let out = h.per_tag_per_day(now - 60, now + 60);
    // tags ascend and both are present
    assert_eq!(out.len(), 2);
    assert_eq!(out[0].0, "X");
    assert_eq!(out[1].0, "Y");
    // whichever local days the records fell on, every second lands in
    // exactly one cell of its tag's series, and both series share one
    // day axis
    let sum_x: u64 = out[0].1.iter().map(|c| c.1).sum();
    let sum_y: u64 = out[1].1.iter().map(|c| c.1).sum();
    assert_eq!(sum_x, 140);
    assert_eq!(sum_y, 7);
    assert_eq!(out[0].1.len(), out[1].1.len());
    let days_x: Vec<i32> = out[0].1.iter().map(|c| c.0).collect();
    let days_y: Vec<i32> = out[1].1.iter().map(|c| c.0).collect();
    assert_eq!(days_x, days_y);
    // the axis descends one day at a time
    for w in days_x.windows(2) {
        assert_eq!(w[0] - w[1], 1);
    }
}

#[test]
fn rollup_survives_timestamps_beyond_the_calendar() {
    // a start time too large for any calendar: the dating falls back
    // to day zero instead of failing, and the rollup still accounts
    // for the record
    let mut h = fresh_history();
    h.add_record(u64::MAX - 1, 30, "Work", "Far");
    let out = h.per_tag_per_day(u64::MAX - 2, u64::MAX);
    assert_eq!(out.len(), 1);
    assert_eq!(out[0].0, "Far");
    let sum: u64 = out[0].1.iter().map(|c| c.1).sum();
    assert_eq!(sum, 30);
}

#[test]
fn rollup_survives_timestamps_at_the_calendars_edge() {
    // the last second chrono can represent in UTC; with a zone offset
    // the local datetime would leave the representable range, which
    // must degrade to day zero, never to a failure
    let edge: u64 = 8_210_298_412_799;
    let mut h = fresh_history();
    h.add_record(edge, 45, "Work", "Edge");
    let out = h.per_tag_per_day(edge - 10, edge + 1);
    assert_eq!(out.len(), 1);
    assert_eq!(out[0].0, "Edge");
    let sum: u64 = out[0].1.iter().map(|c| c.1).sum();
    assert_eq!(sum, 45);
}

#[test]
fn rollup_of_empty_store_is_empty() {
    let h = fresh_history();
    let out = h.per_tag_per_day(0, u64::MAX);
    assert!(out.is_empty());
}
