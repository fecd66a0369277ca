use work_timer::{History, Status, Timer, TimerSetting};

fn fresh_history() -> History {
    let db = sled::Config::new().temporary(true).open().unwrap();
    History::new(db)
}

fn fresh_history_with_handle() -> (History, sled::Db) {
    let db = sled::Config::new().temporary(true).open().unwrap();
    let handle = db.clone();
    (History::new(db), handle)
}

#[test]
fn range_scan_is_start_inclusive_end_exclusive() {
    let mut h = fresh_history();
    h.add_record(100, 10, "Work", "X");
    h.add_record(200, 20, "Work", "Y");
    h.add_record(300, 30, "Work", "Z");
    let rs = h.get_records(150, 300, false);
    assert_eq!(rs.len(), 1);
    assert_eq!(rs[0].start_time, 200);
    assert_eq!(rs[0].duration, 20);
    assert_eq!(rs[0].timer_name, "Work");
    assert_eq!(rs[0].tag, "Y");
}

#[test]
fn range_scan_ascending_and_reversed() {
    let mut h = fresh_history();
    h.add_record(300, 30, "Work", "Z");
    h.add_record(100, 10, "Work", "X");
    h.add_record(200, 20, "Work", "Y");
    let rs = h.get_records(100, 301, false);
    let times: Vec<u64> = rs.iter().map(|r| r.start_time).collect();
    assert_eq!(times, vec![100, 200, 300]);
    let rs = h.get_records(100, 301, true);
    let times: Vec<u64> = rs.iter().map(|r| r.start_time).collect();
    assert_eq!(times, vec![300, 200, 100]);
}

#[test]
fn modify_tag_round_trip() {
    let mut h = fresh_history();
    h.add_record(1000, 77, "Deep Work", "A");
    h.modify_tag(1000, "B");
    let rs = h.get_records(999, 1001, false);
    assert_eq!(rs.len(), 1);
    assert_eq!(rs[0].tag, "B");
    assert_eq!(rs[0].duration, 77);
    assert_eq!(rs[0].timer_name, "Deep Work");
}

#[test]
fn modify_tag_on_missing_key_changes_nothing() {
    let mut h = fresh_history();
    h.add_record(100, 10, "Work", "A");
    h.modify_tag(555, "B");
    let rs = h.get_records(0, 1000, false);
    assert_eq!(rs.len(), 1);
    assert_eq!(rs[0].tag, "A");
}

#[test]
fn remove_is_idempotent() {
    let mut h = fresh_history();
    h.add_record(100, 10, "Work", "X");
    h.add_record(200, 20, "Work", "Y");
    // removing a key that is not there neither errors nor changes anything
    h.remove(150);
    let rs = h.get_records(0, 1000, false);
    assert_eq!(rs.len(), 2);
    // removing an existing key deletes exactly that record
    h.remove(100);
    let rs = h.get_records(0, 1000, false);
    assert_eq!(rs.len(), 1);
    assert_eq!(rs[0].start_time, 200);
    // and removing it again is a no-op
    h.remove(100);
    let rs = h.get_records(0, 1000, false);
    assert_eq!(rs.len(), 1);
}

#[test]
fn same_second_overwrites() {
    let mut h = fresh_history();
    h.add_record(100, 10, "Work", "X");
    h.add_record(100, 25, "Work", "Y");
    let rs = h.get_records(0, 1000, false);
    assert_eq!(rs.len(), 1);
    assert_eq!(rs[0].duration, 25);
    assert_eq!(rs[0].tag, "Y");
}

#[test]
fn corrupt_values_are_skipped() {
    let (mut h, db) = fresh_history_with_handle();
    h.add_record(100, 10, "Work", "X");
    // a value in no recognisable shape, under a well-formed key
    db.insert(150u64.to_be_bytes().to_vec(), b"junk".to_vec()).unwrap();
    // and a value whose length field disagrees with its size
    let mut lying = Vec::new();
    lying.extend_from_slice(&7u64.to_be_bytes());
    lying.extend_from_slice(&1000u64.to_be_bytes());
    lying.extend_from_slice(b"short");
    db.insert(160u64.to_be_bytes().to_vec(), lying).unwrap();
    h.add_record(200, 20, "Work", "Y");
    let rs = h.get_records(0, 1000, false);
    let times: Vec<u64> = rs.iter().map(|r| r.start_time).collect();
    assert_eq!(times, vec![100, 200]);
}

#[test]
fn foreign_keys_are_skipped() {
    let (mut h, db) = fresh_history_with_handle();
    // keys that are not 8 bytes long belong to nobody's timeline
    db.insert(b"abc".to_vec(), b"noise".to_vec()).unwrap();
    db.insert(b"abcdefghi".to_vec(), b"noise".to_vec()).unwrap();
    h.add_record(100, 10, "Work", "X");
    let rs = h.get_records(0, u64::MAX, false);
    assert_eq!(rs.len(), 1);
    assert_eq!(rs[0].start_time, 100);
}

#[test]
fn non_ascii_names_and_tags_round_trip() {
    let mut h = fresh_history();
    h.add_record(100, 10, "Arbeit \u{00e9}\u{00e8}", "\u{65e5}\u{672c}\u{8a9e} \u{1F345}");
    let rs = h.get_records(0, 1000, false);
    assert_eq!(rs.len(), 1);
    assert_eq!(rs[0].timer_name, "Arbeit \u{00e9}\u{00e8}");
    assert_eq!(rs[0].tag, "\u{65e5}\u{672c}\u{8a9e} \u{1F345}");
}

#[test]
fn empty_strings_round_trip() {
    let mut h = fresh_history();
    h.add_record(100, 0, "", "");
    let rs = h.get_records(0, 1000, false);
    assert_eq!(rs.len(), 1);
    assert_eq!(rs[0].duration, 0);
    assert_eq!(rs[0].timer_name, "");
    assert_eq!(rs[0].tag, "");
}

#[test]
fn records_survive_reopening_the_same_tree() {
    let (mut h, db) = fresh_history_with_handle();
    h.add_record(100, 10, "Work", "X");
    h.close();
    // a second History over the same tree sees the flushed record
    let h2 = History::new(db);
    let rs = h2.get_records(0, 1000, false);
    assert_eq!(rs.len(), 1);
    assert_eq!(rs[0].start_time, 100);
}

#[test]
fn empty_window_yields_nothing() {
    let mut h = fresh_history();
    h.add_record(100, 10, "Work", "X");
    assert!(h.get_records(200, 300, false).is_empty());
    assert!(h.get_records(100, 100, false).is_empty());
    // an inverted window holds nothing either
    assert!(h.get_records(300, 200, false).is_empty());
}

#[test]
fn stop_and_record_writes_work_runs_only() {
    let mut h = fresh_history();
    let mut t = Timer::new();
    let work = TimerSetting {
        name: "Work".to_string(),
        icon: "W".to_string(),
        limit_time: 25,
        for_work: true,
        count_up: true,
        notify: false,
    };
    t.start(&work);
    t.poll_at(90);
    let started = t.get_start_time();
    let r = work_timer::stop_and_record(&mut t, &mut h, "Study");
    assert_eq!(r, Some((90, "Work".to_string())));
    assert!(t.status() == Status::Stopped);
    let rs = h.get_records(started, started + 1, false);
    assert_eq!(rs.len(), 1);
    assert_eq!(rs[0].duration, 90);
    assert_eq!(rs[0].timer_name, "Work");
    assert_eq!(rs[0].tag, "Study");

    let brk = TimerSetting { for_work: false, name: "Break".to_string(), ..work };
    t.start(&brk);
    t.poll_at(30);
    let started2 = t.get_start_time();
    let r = work_timer::stop_and_record(&mut t, &mut h, "Study");
    assert_eq!(r, None);
    // nothing new was written beyond the first record
    let all = h.get_records(0, u64::MAX, false);
    assert_eq!(all.len(), 1);
    let _ = started2;
}
