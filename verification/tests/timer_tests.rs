use work_timer::{secs_to_string, Status, Timer, TimerSetting};

fn work_profile() -> TimerSetting {
    TimerSetting {
        name: "Work".to_string(),
        icon: "W".to_string(),
        limit_time: 1,
        for_work: true,
        count_up: false,
        notify: true,
    }
}

fn break_profile() -> TimerSetting {
    TimerSetting {
        name: "Break".to_string(),
        icon: "B".to_string(),
        limit_time: 1,
        for_work: false,
        count_up: false,
        notify: false,
    }
}

#[test]
fn new_timer_is_stopped() {
    let mut t = Timer::new();
    assert!(t.status() == Status::Stopped);
    assert!(t.current_name().is_none());
    assert!(!t.notify());
    let (fired, text) = t.poll_at(12345);
    assert!(!fired);
    assert_eq!(text, "00:00");
    assert!(t.status() == Status::Stopped);
}

#[test]
fn timeout_fires_exactly_once() {
    let mut t = Timer::new();
    t.start(&work_profile());
    assert!(t.status() == Status::Started);
    let (fired, _) = t.poll_at(59);
    assert!(!fired);
    assert!(t.status() == Status::Started);
    let (fired, _) = t.poll_at(60);
    assert!(fired);
    assert!(t.status() == Status::TimeOut);
    let (fired, _) = t.poll_at(61);
    assert!(!fired);
    let (fired, _) = t.poll_at(3600);
    assert!(!fired);
    assert!(t.status() == Status::TimeOut);
}

#[test]
fn timeout_fires_on_first_poll_past_limit() {
    let mut t = Timer::new();
    t.start(&work_profile());
    // the first poll already lies past the limit
    let (fired, _) = t.poll_at(300);
    assert!(fired);
    let (fired, _) = t.poll_at(301);
    assert!(!fired);
}

#[test]
fn countdown_sign_flip() {
    let mut t = Timer::new();
    t.start(&work_profile());
    let (_, text) = t.poll_at(59);
    assert_eq!(text, "00:01");
    let (_, text) = t.poll_at(60);
    assert_eq!(text, "00:00");
    let (_, text) = t.poll_at(61);
    assert_eq!(text, "-00:01");
}

#[test]
fn count_up_display() {
    let mut t = Timer::new();
    let mut p = work_profile();
    p.count_up = true;
    p.limit_time = 25;
    t.start(&p);
    let (_, text) = t.poll_at(0);
    assert_eq!(text, "00:00");
    let (_, text) = t.poll_at(59);
    assert_eq!(text, "00:59");
    let (_, text) = t.poll_at(60);
    assert_eq!(text, "01:00");
    let (_, text) = t.poll_at(3_600);
    assert_eq!(text, "01:00:00");
    let (_, text) = t.poll_at(3_661);
    assert_eq!(text, "01:01:01");
}

#[test]
fn stop_returns_work_runs_only() {
    let mut t = Timer::new();
    t.start(&work_profile());
    t.poll_at(42);
    let r = t.stop();
    assert_eq!(r, Some((42, "Work".to_string())));
    assert!(t.status() == Status::Stopped);
    assert!(t.current_name().is_none());

    t.start(&break_profile());
    t.poll_at(42);
    let r = t.stop();
    assert_eq!(r, None);
    assert!(t.status() == Status::Stopped);

    // stopping an idle timer yields nothing and moves nothing
    let started = t.get_start_time();
    assert_eq!(t.stop(), None);
    assert!(t.status() == Status::Stopped);
    assert!(t.current_name().is_none());
    assert_eq!(t.get_start_time(), started);
}

#[test]
fn start_abandons_running_run() {
    let mut t = Timer::new();
    t.start(&work_profile());
    t.poll_at(30);
    // starting again discards the 30 seconds without recording them
    t.start(&break_profile());
    assert!(t.status() == Status::Started);
    assert_eq!(t.current_name(), Some("Break"));
    let (fired, _) = t.poll_at(10);
    assert!(!fired);
}

#[test]
fn current_name_and_notify_follow_profile() {
    let mut t = Timer::new();
    t.start(&work_profile());
    assert_eq!(t.current_name(), Some("Work"));
    assert!(t.notify());
    t.stop();
    assert_eq!(t.current_name(), None);
    assert!(!t.notify());
}

#[test]
fn start_stamps_wall_clock() {
    let mut t = Timer::new();
    t.start(&work_profile());
    // some moment well after 2020
    assert!(t.get_start_time() > 1_577_836_800);
}

#[test]
fn update_reads_monotonic_clock() {
    let mut t = Timer::new();
    let mut p = work_profile();
    p.count_up = false;
    t.start(&p);
    // moments after starting, a one-minute countdown has not fired
    let (fired, text) = t.update();
    assert!(!fired);
    assert!(t.status() == Status::Started);
    // the full minute remains, or very nearly so
    assert!(text == "01:00" || text.starts_with("00:"));
}

#[test]
fn clock_format_exact_values() {
    assert_eq!(secs_to_string(0, ""), "00:00");
    assert_eq!(secs_to_string(1, ""), "00:01");
    assert_eq!(secs_to_string(59, ""), "00:59");
    assert_eq!(secs_to_string(60, ""), "01:00");
    assert_eq!(secs_to_string(61, ""), "01:01");
    assert_eq!(secs_to_string(3_599, ""), "59:59");
    assert_eq!(secs_to_string(3_600, ""), "01:00:00");
    assert_eq!(secs_to_string(3_661, ""), "01:01:01");
    assert_eq!(secs_to_string(86_399, ""), "23:59:59");
    // the hour field grows past two digits instead of being cut
    assert_eq!(secs_to_string(360_061, ""), "100:01:01");
    assert_eq!(secs_to_string(1, "-"), "-00:01");
    assert_eq!(secs_to_string(3_600, "-"), "-01:00:00");
}

#[test]
fn timer_setting_new_defaults() {
    let s = TimerSetting::new();
    assert_eq!(s.name, "new");
    assert_eq!(s.icon, "");
    assert_eq!(s.limit_time, 1);
    assert!(!s.for_work);
    assert!(!s.count_up);
    assert!(!s.notify);
}
