//! Points in time as the scheduler and the job list use them.

use chrono::{TimeZone, Utc};
use vstd::prelude::*;

verus! {

/// The first second that a calendar date can be given for: the start of the year -262143.
pub const FIRST_SECOND: i64 = -8_334_601_228_800;

/// The last second that a calendar date can be given for: the end of the year 262142.
pub const LAST_SECOND: i64 = 8_210_266_876_799;

/// The format of the dates in the job list.
pub const TIMESTAMP_FORMAT: &'static str = "%Y-%m-%d %H:%M:%S";

/// The format of the next run of a schedule.
pub const NEXT_RUN_FORMAT: &'static str = "%Y-%m-%d %H:%M UTC";

/// A point in time that the calendar reaches: whole seconds since the start of 1970
/// in UTC, and the nanoseconds since the last whole second.
#[derive(Debug, Clone, Copy, PartialEq, Eq, Structural)]
pub struct Timestamp {
    seconds: i64,
    nanos: u32,
}

impl Timestamp {
    #[verifier::type_invariant]
    spec fn well_formed(self) -> bool {
        in_calendar(self.seconds as int) && self.nanos < 1_000_000_000
    }

    /// The whole seconds since the start of 1970.
    pub closed spec fn secs(self) -> i64 {
        self.seconds
    }

    /// The nanoseconds since the last whole second.
    pub closed spec fn subsec(self) -> u32 {
        self.nanos
    }

    /// Whether this point in time is not after `other`.
    pub open spec fn at_or_before(self, other: Timestamp) -> bool {
        self.secs() < other.secs() || (self.secs() == other.secs() && self.subsec()
            <= other.subsec())
    }

    /// The point in time with the given seconds and nanoseconds, where there is one.
    pub fn new(seconds: i64, nanos: u32) -> (r: Option<Timestamp>)
        ensures
            r is Some <==> in_calendar(seconds as int) && nanos < 1_000_000_000,
            r is Some <==> -8_334_601_228_800 <= seconds <= 8_210_266_876_799 && nanos
                < 1_000_000_000,
            r matches Some(t) ==> t.secs() == seconds && t.subsec() == nanos,
    {
        match utc_date(seconds) {
            Some(seconds) => if nanos < 1_000_000_000 {
                Some(Timestamp { seconds, nanos })
            } else {
                None
            },
            None => None,
        }
    }

    /// The whole seconds since the start of 1970.
    pub fn seconds(&self) -> (r: i64)
        ensures
            r == self.secs(),
            in_calendar(r as int),
    {
        proof {
            use_type_invariant(self);
        }
        self.seconds
    }

    /// The nanoseconds since the last whole second.
    pub fn nanos(&self) -> (r: u32)
        ensures
            r == self.subsec(),
            r < 1_000_000_000,
    {
        proof {
            use_type_invariant(self);
        }
        self.nanos
    }

    /// Whether this point in time is not after `other`.
    pub fn not_after(&self, other: &Timestamp) -> (r: bool)
        ensures
            r == self.at_or_before(*other),
    {
        self.seconds < other.seconds || (self.seconds == other.seconds && self.nanos
            <= other.nanos)
    }

    /// The point in time the given number of seconds later.
    pub fn plus(&self, seconds: i64) -> (r: Timestamp)
        requires
            seconds >= 0,
            self.secs() + seconds <= LAST_SECOND,
        ensures
            r.secs() == self.secs() + seconds,
            r.subsec() == self.subsec(),
    {
        proof {
            use_type_invariant(self);
        }
        Timestamp { seconds: self.seconds + seconds, nanos: self.nanos }
    }

    /// The point in time the given number of seconds earlier.
    pub fn minus(&self, seconds: i64) -> (r: Timestamp)
        requires
            seconds >= 0,
            FIRST_SECOND <= self.secs() - seconds,
        ensures
            r.secs() == self.secs() - seconds,
            r.subsec() == self.subsec(),
            in_calendar(self.secs() as int),
    {
        proof {
            use_type_invariant(self);
        }
        Timestamp { seconds: self.seconds - seconds, nanos: self.nanos }
    }
}

/// Whether the calendar reaches the given second.
pub open spec fn in_calendar(seconds: int) -> bool {
    FIRST_SECOND <= seconds <= LAST_SECOND
}

/// `Utc.timestamp_opt(seconds, 0).single()` of chrono, as the timestamp of the date
/// it gives: there is a date exactly for the seconds that the calendar reaches, and
/// its timestamp is the one it was made from.
#[verifier::external_body]
fn utc_date(seconds: i64) -> (r: Option<i64>)
    ensures
        r == (if in_calendar(seconds as int) {
            Some(seconds)
        } else {
            None
        }),
{
    Utc.timestamp_opt(seconds, 0).single().map(|date| date.timestamp())
}

/// What `DateTime::<Utc>::format` of chrono writes for the date of a second under a
/// format string.
pub uninterp spec fn utc_format(seconds: i64, format: Seq<char>) -> Seq<char>;

/// `DateTime::<Utc>::format` of chrono, rendered as a string. The text is a function
/// of the date and of the format string. In the format of the job list the year has four
/// digits or more, each other number has two digits, and five separators stand between them,
/// so that the text has nineteen characters or more. It is not described further here.
#[verifier::external_body]
fn format_utc(seconds: i64, format: &str) -> (r: String)
    requires
        in_calendar(seconds as int),
        format@ == TIMESTAMP_FORMAT@ || format@ == NEXT_RUN_FORMAT@,
    ensures
        r@ == utc_format(seconds, format@),
        format@ == TIMESTAMP_FORMAT@ ==> r@.len() >= 19,
{
    Utc.timestamp_opt(seconds, 0).unwrap().format(format).to_string()
}

/// The text of a point in time in the job list.
pub open spec fn timestamp_text(value: Timestamp) -> Seq<char> {
    utc_format(value.secs(), TIMESTAMP_FORMAT@)
}

/// The text of a point in time in the job list, a dash where there is none.
pub open spec fn optional_timestamp_text(value: Option<Timestamp>) -> Seq<char> {
    match value {
        Some(t) => timestamp_text(t),
        None => "-"@,
    }
}

/// The text of a point in time in the job list.
pub fn format_timestamp(value: Timestamp) -> (r: String)
    ensures
        r@ == timestamp_text(value),
        r@ == utc_format(value.secs(), "%Y-%m-%d %H:%M:%S"@),
        r@.len() >= 19,
{
    format_utc(value.seconds(), TIMESTAMP_FORMAT)
}

/// The text of a point in time in the job list, a dash exactly where there is none.
pub fn format_optional_timestamp(value: Option<Timestamp>) -> (r: String)
    ensures
        r@ == optional_timestamp_text(value),
        r@ == "-"@ <==> value is None,
        value matches Some(t) ==> r@ == utc_format(t.secs(), "%Y-%m-%d %H:%M:%S"@),
{
    proof {
        reveal_strlit("-");
    }
    match value {
        Some(t) => format_timestamp(t),
        None => "-".to_string(),
    }
}

/// The text of the next run of a schedule.
pub fn format_next_run(value: Timestamp) -> (r: String)
    ensures
        r@ == utc_format(value.secs(), NEXT_RUN_FORMAT@),
        r@ == utc_format(value.secs(), "%Y-%m-%d %H:%M UTC"@),
{
    format_utc(value.seconds(), NEXT_RUN_FORMAT)
}

/// Points in time are in the order of the nanoseconds since the start of 1970.
pub proof fn law_time_is_counted_in_nanoseconds(a: Timestamp, b: Timestamp)
    requires
        a.subsec() < 1_000_000_000,
        b.subsec() < 1_000_000_000,
    ensures
        a.at_or_before(b) <==> a.secs() * 1_000_000_000 + a.subsec() <= b.secs() * 1_000_000_000
            + b.subsec(),
{
}

} // verus!
