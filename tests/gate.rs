use houserat::config::Period;
use houserat::time::{Duration, TimeOfDay, Timestamp};
use houserat::{Hysteresis, Metadata};

fn now() -> Timestamp {
    Timestamp::from_millis(chrono::Local::now().timestamp_millis())
}

fn to_naivetime(s: &str) -> TimeOfDay {
    TimeOfDay::parse_hh_mm(s).unwrap()
}

#[test]
fn hysteresis_test_no_cooldown() {
    let mut hysteresis = Hysteresis::new(None);
    let now = now();
    assert!(hysteresis.should_notify(now, "a"));
    assert!(hysteresis.should_notify(now.plus(Duration::seconds(1)), "a"))
}

#[test]
fn hysteresis_test_cooldown() {
    let mut hysteresis = Hysteresis::new(Some(Duration::seconds(5)));
    let now = now();
    assert!(hysteresis.should_notify(now, "a"));
    assert!(!hysteresis.should_notify(now.plus(Duration::seconds(1)), "a"));
    assert!(hysteresis.should_notify(now.plus(Duration::seconds(3)), "b"));
    assert!(hysteresis.should_notify(now.plus(Duration::seconds(5)), "a"));
    assert!(!hysteresis.should_notify(now.plus(Duration::seconds(6)), "a"));
    assert!(!hysteresis.should_notify(now.plus(Duration::seconds(7)), "b"));
    assert!(hysteresis.should_notify(now.plus(Duration::seconds(8)), "b"));
    assert!(!hysteresis.should_notify(now.plus(Duration::seconds(9)), "a"));
    assert!(hysteresis.should_notify(now.plus(Duration::seconds(10)), "a"));
}

#[test]
fn metadata_test_no_cooldown() {
    let mut notification = Metadata::new("".to_string(), None, None, "".to_string(), 0);
    let now = now();
    assert!(notification.should_notify(&None, now));
    assert!(notification.should_notify(&None, now.plus(Duration::seconds(1))))
}

#[test]
fn metadata_test_cooldown() {
    let mut notification = Metadata::new("".to_string(), None, None, "".to_string(), 0);
    let cooldown = Some(Duration::seconds(5));
    let now = now();
    assert!(notification.should_notify(&cooldown, now));
    assert!(!notification.should_notify(&cooldown, now.plus(Duration::seconds(1))));
    assert!(notification.should_notify(&cooldown, now.plus(Duration::seconds(5))));
    assert!(!notification.should_notify(&cooldown, now.plus(Duration::seconds(6))));
    assert!(!notification.should_notify(&cooldown, now.plus(Duration::seconds(9))));
    assert!(notification.should_notify(&cooldown, now.plus(Duration::seconds(10))));
}

#[test]
fn metadata_records_only_what_goes_out() {
    let mut m = Metadata::new("Ann".to_string(), None, None, "Bob".to_string(), 7);
    let t0 = Timestamp::from_millis(1_000_000);
    assert!(m.should_notify(&None, t0));
    assert_eq!(m.last_notified, None);
    let cooldown = Some(Duration::seconds(5));
    assert!(m.should_notify(&cooldown, t0));
    assert_eq!(m.last_notified, Some(t0));
    assert!(!m.should_notify(&cooldown, t0.plus(Duration::milliseconds(4_999))));
    assert_eq!(m.last_notified, Some(t0));
}

#[test]
fn cooldown_keys_are_independent() {
    let mut h = Hysteresis::new(Some(Duration::seconds(5)));
    let t0 = Timestamp::from_millis(0);
    assert!(h.should_notify(t0, "phone"));
    assert!(!h.should_notify(t0.plus(Duration::seconds(1)), "phone"));
    assert!(h.should_notify(t0.plus(Duration::seconds(1)), "laptop"));
    assert!(!h.should_notify(t0.plus(Duration::seconds(2)), "laptop"));
}

#[test]
fn test_period() {
    let now = to_naivetime("23:30");
    let period1 = Period::new(to_naivetime("23:00"), to_naivetime("06:00"));
    let period2 = Period::new(to_naivetime("00:00"), to_naivetime("06:00"));
    assert_eq!(period1.is_between(now), true);
    assert_eq!(period2.is_between(now), false);
}

#[test]
fn quiet_period_outside_and_edges() {
    let period = Period::new(to_naivetime("23:00"), to_naivetime("06:00"));
    assert!(!period.is_between(to_naivetime("07:00")));
    assert!(period.is_between(to_naivetime("06:00")));
    assert!(period.is_between(to_naivetime("00:00")));
    let day = Period::new(to_naivetime("09:00"), to_naivetime("17:00"));
    assert!(day.is_between(to_naivetime("12:00")));
    assert!(!day.is_between(to_naivetime("17:01")));
}

#[test]
fn time_of_day_reading() {
    let t = to_naivetime("23:30");
    assert_eq!(t, TimeOfDay { secs: 23 * 3600 + 30 * 60, nano: 0 });
    assert_eq!(TimeOfDay::parse_hh_mm("07:05").unwrap().secs, 7 * 3600 + 5 * 60);
    assert!(TimeOfDay::parse_hh_mm("25:00").is_none());
    assert!(TimeOfDay::parse_hh_mm("noon").is_none());
    assert!(TimeOfDay::from_hms_nano(23, 59, 60, 0).is_none());
    assert_eq!(TimeOfDay::from_hms_nano(1, 2, 3, 4), Some(TimeOfDay { secs: 3723, nano: 4 }));
}
