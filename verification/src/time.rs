//! Durations and points in time.
use vstd::prelude::*;

verus! {

/// A span of time, in whole seconds and nanoseconds.
#[derive(Clone, Copy, Debug, PartialEq, Eq, Structural)]
pub struct Duration {
    pub secs: u64,
    pub nanos: u32,
}

impl Duration {
    /// A whole number of seconds.
    pub fn from_secs(secs: u64) -> (r: Duration)
        ensures
            r == (Duration { secs, nanos: 0 }),
    {
        Duration { secs, nanos: 0 }
    }

    /// The whole milliseconds of the span.
    pub open spec fn millis(self) -> nat {
        (self.secs * 1000 + self.nanos / 1_000_000) as nat
    }

    /// A whole number of milliseconds.
    pub fn from_millis(millis: u64) -> (r: Duration)
        ensures
            r.secs == millis / 1000,
            r.nanos == (millis % 1000) * 1_000_000,
            r.millis() == millis,
    {
        let rest: u32 = (millis % 1000) as u32;
        Duration { secs: millis / 1000, nanos: rest * 1_000_000 }
    }

    /// The whole seconds of the span.
    pub fn as_secs(&self) -> (r: u64)
        ensures
            r == self.secs,
    {
        self.secs
    }

    /// The whole milliseconds of the span.
    pub fn as_millis(&self) -> (r: u128)
        ensures
            r == self.millis(),
    {
        self.secs as u128 * 1000 + (self.nanos / 1_000_000) as u128
    }
}

/// A point in time: seconds since the start of 1970 in UTC, and nanoseconds.
#[derive(Clone, Copy, Debug, PartialEq, Eq, Structural)]
pub struct Timestamp {
    secs: i64,
    nanos: u32,
}

/// The seconds and nanoseconds that make a point in time: the years that a
/// calendar date can have, and a nanosecond past the end of a second only in a
/// leap second.
pub open spec fn in_calendar(secs: int, nanos: int) -> bool {
    &&& -8_334_601_228_800 <= secs <= 8_210_266_876_799
    &&& 0 <= nanos < 1_000_000_000 || (1_000_000_000 <= nanos < 2_000_000_000 && secs % 60 == 59)
}

impl Timestamp {
    /// Seconds since the start of 1970.
    pub closed spec fn seconds(self) -> int {
        self.secs as int
    }

    /// Nanoseconds within the second.
    pub closed spec fn subsec(self) -> int {
        self.nanos as int
    }

    #[verifier::type_invariant]
    spec fn calendar(self) -> bool {
        in_calendar(self.secs as int, self.nanos as int)
    }

    /// The point in time with the given seconds and nanoseconds.
    pub closed spec fn stamp(secs: int, nanos: int) -> Timestamp {
        Timestamp { secs: secs as i64, nanos: nanos as u32 }
    }

    /// The point in time with the given seconds and nanoseconds, if there is one.
    pub fn new(secs: i64, nanos: u32) -> (r: Option<Timestamp>)
        ensures
            r is Some <==> in_calendar(secs as int, nanos as int),
            r matches Some(t) ==> t.seconds() == secs && t.subsec() == nanos,
    {
        if secs < -8_334_601_228_800 || secs > 8_210_266_876_799 {
            return None;
        }
        if nanos >= 1_000_000_000 {
            let shifted: i64 = secs + 8_334_601_228_800;
            proof {
                assert(8_334_601_228_800int == 60 * 138_910_020_480int);
                assert(shifted % 60 == secs as int % 60);
            }
            if nanos >= 2_000_000_000 || shifted % 60 != 59 {
                return None;
            }
        }
        Some(Timestamp { secs, nanos })
    }

    /// Whether one point in time is before another.
    pub open spec fn before(self, other: Timestamp) -> bool {
        self.seconds() < other.seconds() || (self.seconds() == other.seconds() && self.subsec()
            < other.subsec())
    }

    /// Tests whether one point in time is before another.
    pub fn is_before(&self, other: &Timestamp) -> (r: bool)
        ensures
            r == self.before(*other),
    {
        self.secs < other.secs || (self.secs == other.secs && self.nanos < other.nanos)
    }

    /// The point in time some seconds earlier, if there is one.
    pub fn earlier(&self, secs: i128) -> (r: Option<Timestamp>)
        requires
            self.subsec() < 1_000_000_000,
        ensures
            r is Some <==> in_calendar(self.seconds() - secs, self.subsec()),
            r matches Some(t) ==> t.seconds() == self.seconds() - secs && t.subsec()
                == self.subsec(),
    {
        if secs > 20_000_000_000_000 || secs < -20_000_000_000_000 {
            proof {
                use_type_invariant(self);
            }
            return None;
        }
        let then: i128 = self.secs as i128 - secs;
        if then < i64::MIN as i128 || then > i64::MAX as i128 {
            return None;
        }
        Timestamp::new(then as i64, self.nanos)
    }

    /// The whole seconds from one point in time to a later one, 0 where it is not later.
    pub open spec fn seconds_until(self, later: Timestamp) -> int {
        let nanos = (later.seconds() - self.seconds()) * 1_000_000_000 + later.subsec()
            - self.subsec();
        if nanos > 0 {
            nanos / 1_000_000_000
        } else {
            0
        }
    }

    /// Counts the whole seconds to a later point in time.
    pub fn secs_until(&self, later: &Timestamp) -> (r: u64)
        ensures
            r == self.seconds_until(*later),
    {
        proof {
            use_type_invariant(self);
            use_type_invariant(later);
        }
        let nanos: i128 = (later.secs as i128 - self.secs as i128) * 1_000_000_000
            + later.nanos as i128 - self.nanos as i128;
        if nanos > 0 {
            (nanos as u128 / 1_000_000_000) as u64
        } else {
            0
        }
    }
}

/// Of two different points in time one is before the other, and only one.
pub proof fn lemma_total(a: Timestamp, b: Timestamp)
    ensures
        a == b || a.before(b) || b.before(a),
        !(a.before(b) && b.before(a)),
{
}

/// A point in time is the one with its seconds and nanoseconds.
pub proof fn lemma_stamp(t: Timestamp)
    ensures
        Timestamp::stamp(t.seconds(), t.subsec()) == t,
{
}

// ---------------------------------------------------------------------------
// The clock and the calendar
// ---------------------------------------------------------------------------

/// Calls `chrono::Utc::now`. Nothing is said of the result but that it is a
/// point in time outside a leap second. The call panics on a machine whose clock
/// stands before the year 1970.
#[verifier::external_body]
fn clock() -> (r: Timestamp)
    ensures
        r.subsec() < 1_000_000_000,
{
    let t = chrono::Utc::now();
    Timestamp { secs: t.timestamp(), nanos: t.timestamp_subsec_nanos() }
}

/// The text that `chrono::DateTime::to_rfc3339` gives for a point in time in
/// UTC, by name.
pub uninterp spec fn rfc3339(secs: int, nanos: int) -> Seq<char>;

/// The years 0 to 9999, whose dates RFC 3339 can write.
pub open spec fn four_digit_year(secs: int) -> bool {
    -62_167_219_200 <= secs <= 253_402_300_799
}

/// Whether a text is read as a point in time, where its year has four digits.
pub open spec fn reads_as(s: Seq<char>, secs: int, nanos: int) -> bool {
    four_digit_year(secs) ==> rfc3339_read(s) == Ok::<(int, int), Seq<char>>((secs, nanos))
}

/// Calls `chrono::DateTime::from_timestamp` and `to_rfc3339`: the text depends
/// on the point in time alone, and `parse_from_rfc3339` reads the same point in
/// time in it where its year has four digits.
#[verifier::external_body]
fn format_rfc3339(secs: i64, nanos: u32) -> (r: String)
    requires
        in_calendar(secs as int, nanos as int),
    ensures
        r@ == rfc3339(secs as int, nanos as int),
        reads_as(r@, secs as int, nanos as int),
{
    chrono::DateTime::from_timestamp(secs, nanos).unwrap().to_rfc3339()
}

/// The text that `chrono::DateTime::format` gives for a point in time in UTC
/// with a pattern, by name.
pub uninterp spec fn formatted(secs: int, nanos: int, pattern: Seq<char>) -> Seq<char>;

/// The pattern of the times in front of log lines: a date and a time of day with
/// milliseconds.
pub open spec fn log_pattern() -> Seq<char> {
    "%Y-%m-%dT%H:%M:%S%.3fZ"@
}

/// Calls `chrono::DateTime::from_timestamp` and `format`: the text depends on the
/// point in time and the pattern alone. Only the pattern of log lines is let
/// through, since `chrono` panics on a pattern that it cannot read.
#[verifier::external_body]
fn format_time(secs: i64, nanos: u32, pattern: &str) -> (r: String)
    requires
        in_calendar(secs as int, nanos as int),
        pattern@ == log_pattern(),
    ensures
        r@ == formatted(secs as int, nanos as int, pattern@),
{
    chrono::DateTime::from_timestamp(secs, nanos).unwrap().format(pattern).to_string()
}

/// The text of a point in time in front of a log line.
pub open spec fn log_time(secs: int, nanos: int) -> Seq<char> {
    formatted(secs, nanos, log_pattern())
}

/// The seconds and nanoseconds of the point in time that
/// `chrono::DateTime::parse_from_rfc3339` reads in a text, or its error
/// message, by name.
pub uninterp spec fn rfc3339_read(s: Seq<char>) -> Result<(int, int), Seq<char>>;

/// Calls `chrono::DateTime::parse_from_rfc3339`: what comes back depends on the
/// text alone.
#[verifier::external_body]
fn read_rfc3339(s: &str) -> (r: Result<Timestamp, String>)
    ensures
        match r {
            Ok(t) => rfc3339_read(s@) == Ok::<(int, int), Seq<char>>((t.seconds(), t.subsec())),
            Err(e) => rfc3339_read(s@) == Err::<(int, int), Seq<char>>(e@),
        },
{
    match chrono::DateTime::parse_from_rfc3339(s) {
        Ok(t) => Ok(Timestamp { secs: t.timestamp(), nanos: t.timestamp_subsec_nanos() }),
        Err(e) => Err(e.to_string()),
    }
}

/// The seconds and nanoseconds of the date and time that
/// `chrono::NaiveDateTime::parse_from_str` reads in a text with a pattern, taken
/// to be in UTC, by name.
pub uninterp spec fn read_with(s: Seq<char>, pattern: Seq<char>) -> Option<(int, int)>;

/// Calls `chrono::NaiveDateTime::parse_from_str`, and takes the date and time to
/// be in UTC: what comes back depends on the text and the pattern alone.
#[verifier::external_body]
fn read_naive(s: &str, pattern: &str) -> (r: Option<Timestamp>)
    ensures
        match r {
            Some(t) => read_with(s@, pattern@) == Some((t.seconds(), t.subsec())),
            None => read_with(s@, pattern@) is None,
        },
{
    match chrono::NaiveDateTime::parse_from_str(s, pattern) {
        Ok(t) => Some(
            Timestamp { secs: t.and_utc().timestamp(), nanos: t.and_utc().timestamp_subsec_nanos() },
        ),
        Err(_) => None,
    }
}

/// The point in time of a date and a time of day without a zone.
pub open spec fn naive_read(s: Seq<char>) -> Option<(int, int)> {
    read_with(s, "%Y-%m-%dT%H:%M:%S"@)
}

/// Whether a point in time is read back from its form of RFC 3339.
pub open spec fn reads_back(t: Timestamp) -> bool {
    rfc3339_read(rfc3339(t.seconds(), t.subsec())) == Ok::<(int, int), Seq<char>>(
        (t.seconds(), t.subsec()),
    )
}

/// The present point in time.
pub fn now() -> (r: Timestamp)
    ensures
        r.subsec() < 1_000_000_000,
{
    clock()
}

impl Timestamp {
    /// The point in time in the form of RFC 3339.
    pub fn to_rfc3339(&self) -> (r: String)
        ensures
            r@ == rfc3339(self.seconds(), self.subsec()),
            four_digit_year(self.seconds()) ==> reads_back(*self),
    {
        proof {
            use_type_invariant(self);
        }
        format_rfc3339(self.secs, self.nanos)
    }

    /// The point in time as it stands in front of a log line.
    pub fn to_log_time(&self) -> (r: String)
        ensures
            r@ == log_time(self.seconds(), self.subsec()),
    {
        proof {
            use_type_invariant(self);
        }
        format_time(self.secs, self.nanos, "%Y-%m-%dT%H:%M:%S%.3fZ")
    }

    /// Reads a point in time in the form of RFC 3339.
    pub fn parse_rfc3339(s: &str) -> (r: Result<Timestamp, String>)
        ensures
            match r {
                Ok(t) => rfc3339_read(s@) == Ok::<(int, int), Seq<char>>(
                    (t.seconds(), t.subsec()),
                ) && t == Timestamp::stamp(t.seconds(), t.subsec()),
                Err(e) => rfc3339_read(s@) == Err::<(int, int), Seq<char>>(e@),
            },
    {
        read_rfc3339(s)
    }

    /// Reads a date and time without a zone, taken to be in UTC.
    pub fn parse_naive(s: &str) -> (r: Option<Timestamp>)
        ensures
            match r {
                Some(t) => naive_read(s@) == Some((t.seconds(), t.subsec())),
                None => naive_read(s@) is None,
            },
    {
        read_naive(s, "%Y-%m-%dT%H:%M:%S")
    }
}

} // verus!
