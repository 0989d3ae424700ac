//! A point in time with the offset of its time zone, and what the calendar
//! makes of it.
//!
//! The calendar is the `chrono` crate's. A moment is held as plain numbers;
//! each text that the calendar gives for it has a name, which stands for
//! what `chrono` returns for those numbers.

use vstd::prelude::*;

verus! {

/// The furthest that a moment may lie from the epoch, in seconds. The
/// calendar reaches a little further on both sides.
pub const MAX_SECONDS: i64 = 8_000_000_000_000i64;

/// Whether the three numbers make a moment: the seconds lie within
/// `MAX_SECONDS` of the epoch, the nanoseconds are below a second, or below
/// two in the last second of a minute (a leap second), and the offset is
/// less than a day.
pub open spec fn valid_moment(seconds: int, nanos: int, offset: int) -> bool {
    &&& -MAX_SECONDS <= seconds <= MAX_SECONDS
    &&& 0 <= nanos < 2_000_000_000
    &&& (nanos >= 1_000_000_000 ==> seconds % 60 == 59)
    &&& -86_400 < offset < 86_400
}

/// One of the texts that the calendar gives for a moment.
#[derive(Debug, Clone, Copy, PartialEq, Eq, Structural)]
pub enum Field {
    /// The year, `%Y`.
    Year,
    /// The month as two digits, `%m`.
    Month,
    /// The day of the month as two digits, `%d`.
    Day,
    /// The hour as two digits, `%H`.
    Hour,
    /// The minute as two digits, `%M`.
    Minute,
    /// The second as two digits, `%S`.
    Second,
    /// The fraction of the second as nine digits, `%f`.
    Fraction,
    /// The day of the week as a digit from 1, Monday, to 7, `%u`.
    Weekday,
    /// The name of the day of the week, `%A`.
    WeekdayName,
    /// The name of the month, `%B`.
    MonthName,
}

impl Field {
    /// The format that asks the calendar for this field.
    pub open spec fn pattern_text(self) -> Seq<char> {
        match self {
            Field::Year => "%Y"@,
            Field::Month => "%m"@,
            Field::Day => "%d"@,
            Field::Hour => "%H"@,
            Field::Minute => "%M"@,
            Field::Second => "%S"@,
            Field::Fraction => "%f"@,
            Field::Weekday => "%u"@,
            Field::WeekdayName => "%A"@,
            Field::MonthName => "%B"@,
        }
    }

    /// The format that asks the calendar for this field.
    pub fn pattern(&self) -> (p: &'static str)
        ensures
            p@ == self.pattern_text(),
    {
        match self {
            Field::Year => "%Y",
            Field::Month => "%m",
            Field::Day => "%d",
            Field::Hour => "%H",
            Field::Minute => "%M",
            Field::Second => "%S",
            Field::Fraction => "%f",
            Field::Weekday => "%u",
            Field::WeekdayName => "%A",
            Field::MonthName => "%B",
        }
    }
}

/// Whether `pattern` is the format of a field.
pub open spec fn field_pattern(pattern: Seq<char>) -> bool {
    exists|field: Field| pattern == #[trigger] field.pattern_text()
}

/// What `chrono` writes for the moment of the three numbers under the
/// format `pattern`.
pub uninterp spec fn formatted(seconds: int, nanos: int, offset: int, pattern: Seq<char>) -> Seq<
    char,
>;

/// What `chrono` writes for the moment of the three numbers as a timestamp
/// of RFC 3339.
pub uninterp spec fn rfc3339(seconds: int, nanos: int, offset: int) -> Seq<char>;

/// Formats a moment under the format of a field.
///
/// Makes the `chrono::DateTime` of `seconds` and `nanos` after the epoch
/// (`DateTime::from_timestamp`) in the zone that is `offset` seconds east of
/// Greenwich (`FixedOffset::east_opt`, `DateTime::with_timezone`), and calls
/// `DateTime::format` on it. The contract gives the text a name and claims
/// no more than that the text depends on these four arguments alone.
#[verifier::external_body]
fn format_moment(seconds: i64, nanos: u32, offset: i32, pattern: &str) -> (out: String)
    requires
        valid_moment(seconds as int, nanos as int, offset as int),
        field_pattern(pattern@),
    ensures
        out@ == formatted(seconds as int, nanos as int, offset as int, pattern@),
{
    let zone = chrono::FixedOffset::east_opt(offset).unwrap();
    let utc = chrono::DateTime::from_timestamp(seconds, nanos).unwrap();
    utc.with_timezone(&zone).format(pattern).to_string()
}

/// Writes a moment as a timestamp of RFC 3339.
///
/// Makes the `chrono::DateTime` as `format_moment` does and calls
/// `DateTime::to_rfc3339` on it. The contract gives the text a name and
/// claims no more than that the text depends on these three arguments alone.
#[verifier::external_body]
fn rfc3339_of_moment(seconds: i64, nanos: u32, offset: i32) -> (out: String)
    requires
        valid_moment(seconds as int, nanos as int, offset as int),
    ensures
        out@ == rfc3339(seconds as int, nanos as int, offset as int),
{
    let zone = chrono::FixedOffset::east_opt(offset).unwrap();
    let utc = chrono::DateTime::from_timestamp(seconds, nanos).unwrap();
    utc.with_timezone(&zone).to_rfc3339()
}

/// The milliseconds from the epoch to a moment.
///
/// Calls `DateTime::timestamp_millis` on the `chrono::DateTime` of `seconds`
/// and `nanos` after the epoch. `chrono` computes it as a thousand times the
/// seconds, plus the whole milliseconds in the nanoseconds.
#[verifier::external_body]
fn millis_of_moment(seconds: i64, nanos: u32) -> (ms: i64)
    requires
        valid_moment(seconds as int, nanos as int, 0),
    ensures
        ms == seconds * 1000 + nanos / 1_000_000,
{
    chrono::DateTime::from_timestamp(seconds, nanos).unwrap().timestamp_millis()
}

/// A point in time and the offset of its time zone.
#[derive(Debug, Clone, Copy, PartialEq, Eq)]
pub struct Moment {
    seconds: i64,
    nanos: u32,
    offset: i32,
}

impl View for Moment {
    type V = (int, int, int);

    /// The seconds from the epoch, the nanoseconds into the second, and the
    /// seconds that the zone is east of Greenwich.
    closed spec fn view(&self) -> (int, int, int) {
        (self.seconds as int, self.nanos as int, self.offset as int)
    }
}

impl Moment {
    #[verifier::type_invariant]
    spec fn valid(self) -> bool {
        valid_moment(self.seconds as int, self.nanos as int, self.offset as int)
    }

    /// The moment of the three numbers, where they make one.
    pub fn new(seconds: i64, nanos: u32, offset: i32) -> (moment: Option<Moment>)
        ensures
            moment is Some <==> valid_moment(seconds as int, nanos as int, offset as int),
            moment is Some ==> moment->Some_0@ == (seconds as int, nanos as int, offset as int),
    {
        if seconds < -MAX_SECONDS || seconds > MAX_SECONDS {
            return None;
        }
        if nanos >= 2_000_000_000 {
            return None;
        }
        // A multiple of 60 that lifts every second in range above 0.
        let lifted: i64 = seconds + 8_000_000_000_040;
        if nanos >= 1_000_000_000 && lifted % 60 != 59 {
            return None;
        }
        if offset <= -86_400 || offset >= 86_400 {
            return None;
        }
        Some(Moment { seconds, nanos, offset })
    }

    /// The seconds from the epoch to this moment.
    pub fn timestamp(&self) -> (seconds: i64)
        ensures
            seconds == self@.0,
            valid_moment(self@.0, self@.1, self@.2),
    {
        proof {
            use_type_invariant(self);
        }
        self.seconds
    }

    /// The nanoseconds into the second.
    pub fn nanos(&self) -> (nanos: u32)
        ensures
            nanos == self@.1,
    {
        self.nanos
    }

    /// The seconds that the zone of this moment is east of Greenwich.
    pub fn offset(&self) -> (offset: i32)
        ensures
            offset == self@.2,
    {
        self.offset
    }

    /// The milliseconds from the epoch to this moment.
    pub fn timestamp_millis(&self) -> (ms: i64)
        ensures
            ms == self@.0 * 1000 + self@.1 / 1_000_000,
    {
        proof {
            use_type_invariant(self);
        }
        millis_of_moment(self.seconds, self.nanos)
    }

    /// The text of `field` for this moment.
    pub fn field(&self, field: Field) -> (out: String)
        ensures
            out@ == formatted(self@.0, self@.1, self@.2, field.pattern_text()),
    {
        proof {
            use_type_invariant(self);
        }
        let pattern = field.pattern();
        format_moment(self.seconds, self.nanos, self.offset, pattern)
    }

    /// This moment as a timestamp of RFC 3339.
    pub fn to_rfc3339(&self) -> (out: String)
        ensures
            out@ == rfc3339(self@.0, self@.1, self@.2),
    {
        proof {
            use_type_invariant(self);
        }
        rfc3339_of_moment(self.seconds, self.nanos, self.offset)
    }
}

} // verus!
