use vstd::prelude::*;
use chrono::Timelike;

verus! {

/// The largest number of whole seconds whose span in milliseconds fits `i64`.
pub const MAX_SECONDS: i64 = 9_223_372_036_854_775;

/// A point in time, in milliseconds since the Unix epoch.
#[derive(Clone, Copy, PartialEq, Eq, Debug, Structural)]
pub struct Timestamp {
    pub millis: i64,
}

/// A signed span of time, in milliseconds.
#[derive(Clone, Copy, PartialEq, Eq, Debug, Structural)]
pub struct Duration {
    pub millis: i64,
}

/// Whether at least `cooldown` has passed from `last` to `now`.
pub open spec fn cooled_down(last: Timestamp, now: Timestamp, cooldown: Duration) -> bool {
    now.millis - last.millis >= cooldown.millis
}

impl Duration {
    pub fn seconds(s: i64) -> (r: Duration)
        requires
            -MAX_SECONDS <= s <= MAX_SECONDS,
        ensures
            r.millis == s * 1000,
    {
        Duration { millis: s * 1000 }
    }

    pub fn milliseconds(ms: i64) -> (r: Duration)
        ensures
            r.millis == ms,
    {
        Duration { millis: ms }
    }
}

impl Timestamp {
    pub fn from_millis(ms: i64) -> (r: Timestamp)
        ensures
            r.millis == ms,
    {
        Timestamp { millis: ms }
    }

    /// The point `d` later than this one.
    pub fn plus(self, d: Duration) -> (r: Timestamp)
        requires
            i64::MIN <= self.millis + d.millis <= i64::MAX,
        ensures
            r.millis == self.millis + d.millis,
    {
        Timestamp { millis: self.millis + d.millis }
    }

    /// Whether at least `cooldown` has passed since `last`.
    pub fn cooled_down_since(self, last: Timestamp, cooldown: Duration) -> (r: bool)
        ensures
            r == cooled_down(last, self, cooldown),
    {
        (self.millis as i128) - (last.millis as i128) >= cooldown.millis as i128
    }
}

/// The number of seconds in a day.
pub const SECONDS_PER_DAY: u32 = 86400;

/// A time of day on a wall clock: whole seconds since midnight, and the
/// nanoseconds past that second (above one billion only within a leap second).
#[derive(Clone, Copy, PartialEq, Eq, Debug, Structural)]
pub struct TimeOfDay {
    pub secs: u32,
    pub nano: u32,
}

impl TimeOfDay {
    pub open spec fn wf(self) -> bool {
        self.secs < SECONDS_PER_DAY && self.nano < 2_000_000_000
    }

    /// The clock order: earlier times of day are smaller.
    pub open spec fn spec_le(self, o: TimeOfDay) -> bool {
        self.secs < o.secs || (self.secs == o.secs && self.nano <= o.nano)
    }

    pub fn le(&self, o: &TimeOfDay) -> (r: bool)
        ensures
            r == self.spec_le(*o),
    {
        self.secs < o.secs || (self.secs == o.secs && self.nano <= o.nano)
    }

    /// The time `hour:minute:second` and `nano` nanoseconds, or `None` where
    /// a field is out of its range.
    pub fn from_hms_nano(hour: u32, minute: u32, second: u32, nano: u32) -> (r: Option<TimeOfDay>)
        ensures
            (hour < 24 && minute < 60 && second < 60 && nano < 2_000_000_000) <==> r is Some,
            r matches Some(t) ==> t.wf() && t.secs == hour * 3600 + minute * 60 + second
                && t.nano == nano,
    {
        if hour < 24 && minute < 60 && second < 60 && nano < 2_000_000_000 {
            Some(TimeOfDay { secs: hour * 3600 + minute * 60 + second, nano })
        } else {
            None
        }
    }

    /// Reads a time written as `HH:MM`; see `hour_minute_of`.
    pub fn parse_hh_mm(s: &str) -> (r: Option<TimeOfDay>)
        ensures
            match hour_minute_of(s@) {
                Some((h, m)) => r matches Some(t) && t.wf() && t.secs == h * 3600 + m * 60
                    && t.nano == 0,
                None => r is None,
            },
    {
        match read_hour_minute(s) {
            Some((h, m)) => TimeOfDay::from_hms_nano(h, m, 0, 0),
            None => None,
        }
    }
}

/// The hour and minute that chrono reads from a text in the format `%H:%M`,
/// or `None` where it refuses the text.
pub uninterp spec fn hour_minute_of(s: Seq<char>) -> Option<(u32, u32)>;

/// Relies on chrono's `NaiveTime::parse_from_str` with the format `%H:%M`:
/// the result depends on the text alone, and a time that it returns has an
/// hour below 24 and a minute below 60.
#[verifier::external_body]
fn read_hour_minute(s: &str) -> (r: Option<(u32, u32)>)
    ensures
        r == hour_minute_of(s@),
        r matches Some((h, m)) ==> h < 24 && m < 60,
{
    chrono::NaiveTime::parse_from_str(s, "%H:%M").ok().map(|t| (t.hour(), t.minute()))
}

} // verus!
