//! Instants, ranges of instants, calendar dates and time spans.
use time::error::ComponentRange;
use vstd::prelude::*;
use vstd::string::to_string_from_display_ensures;

verus! {

pub const NANOS_PER_SECOND: i128 = 1_000_000_000;

/// The first second of the year -9999, counted from the Unix epoch.
pub const MIN_SECONDS: i64 = -377_705_116_800;

/// The last second of the year 9999, counted from the Unix epoch.
pub const MAX_SECONDS: i64 = 253_402_300_799;

/// The first nanosecond of the year -9999, counted from the Unix epoch.
pub const MIN_NANOS: i128 = -377_705_116_800_000_000_000;

/// The last nanosecond of the year 9999, counted from the Unix epoch.
pub const MAX_NANOS: i128 = 253_402_300_799_999_999_999;

/// The largest distance of a local clock from UTC: one second less than 26 hours.
pub const MAX_OFFSET_SECONDS: i32 = 93_599;

/// An error of the `time` crate: a component was out of its range.
#[verifier::external_type_specification]
#[verifier::external_body]
pub struct ExComponentRange(time::error::ComponentRange);

/// Whether `text` is what the error displays.
pub open spec fn range_error_displays(error: ComponentRange, text: Seq<char>) -> bool {
    forall|shown: String|
        #![trigger to_string_from_display_ensures::<ComponentRange>(&error, shown)]
        to_string_from_display_ensures::<ComponentRange>(&error, shown) ==> shown@ == text
}

/// `time::OffsetDateTime::from_unix_timestamp`, its result given in nanoseconds since the
/// Unix epoch: succeeds between the years -9999 and 9999.
#[verifier::external_body]
fn nanos_of_unix_timestamp(timestamp: i64) -> (res: Result<i128, ComponentRange>)
    ensures
        match res {
            Ok(nanos) => {
                &&& MIN_SECONDS <= timestamp <= MAX_SECONDS
                &&& nanos == timestamp * NANOS_PER_SECOND
            },
            Err(e) => {
                &&& !(MIN_SECONDS <= timestamp <= MAX_SECONDS)
                &&& range_error_displays(e, "timestamp was not in range"@)
            },
        },
{
    time::OffsetDateTime::from_unix_timestamp(timestamp).map(|t| t.unix_timestamp_nanos())
}

/// `nanos` moved back by a number of minutes, held between the years -9999 and 9999.
pub open spec fn minutes_before(nanos: int, minutes: int) -> int {
    let moved = nanos - minutes * 60 * NANOS_PER_SECOND;
    if moved < MIN_NANOS {
        MIN_NANOS as int
    } else if moved > MAX_NANOS {
        MAX_NANOS as int
    } else {
        moved
    }
}

/// `time::OffsetDateTime::saturating_sub` of a `time::Duration::minutes`, on the UTC date and
/// time given in nanoseconds since the Unix epoch: subtracts, and stops at the first or the
/// last representable nanosecond. `time::Duration::minutes` panics where the number of
/// seconds does not fit.
#[verifier::external_body]
fn saturating_sub_minutes(nanos: i128, minutes: i64) -> (res: i128)
    requires
        MIN_NANOS <= nanos <= MAX_NANOS,
        i64::MIN <= minutes * 60 <= i64::MAX,
    ensures
        res == minutes_before(nanos as int, minutes as int),
{
    let instant = time::OffsetDateTime::from_unix_timestamp_nanos(nanos).unwrap();
    instant.saturating_sub(time::Duration::minutes(minutes)).unix_timestamp_nanos()
}

/// A date and time with a UTC offset: an instant, and the offset in which it is written.
#[derive(Debug, Clone, Copy)]
pub struct UtcDateTime {
    unix_nanos: i128,
    offset_seconds: i32,
}

/// Whether an instant, written in the given offset, lies between the years -9999 and 9999.
pub open spec fn is_date_time(unix_nanos: int, offset_seconds: int) -> bool {
    &&& -MAX_OFFSET_SECONDS <= offset_seconds <= MAX_OFFSET_SECONDS
    &&& MIN_NANOS <= unix_nanos + offset_seconds * NANOS_PER_SECOND <= MAX_NANOS
}

impl UtcDateTime {
    /// Nanoseconds since the Unix epoch.
    pub closed spec fn nanos(self) -> int {
        self.unix_nanos as int
    }

    /// Seconds by which the local clock is ahead of UTC.
    pub closed spec fn offset(self) -> int {
        self.offset_seconds as int
    }

    /// Whole seconds since the Unix epoch, rounded down.
    pub open spec fn seconds(self) -> int {
        self.nanos() / NANOS_PER_SECOND as int
    }

    #[verifier::type_invariant]
    pub open spec fn wf(self) -> bool {
        is_date_time(self.nanos(), self.offset())
    }

    /// A date and time from its instant and its offset, if it is representable.
    pub fn from_parts(unix_nanos: i128, offset_seconds: i32) -> (res: Option<UtcDateTime>)
        ensures
            match res {
                Some(t) => {
                    &&& is_date_time(unix_nanos as int, offset_seconds as int)
                    &&& t.nanos() == unix_nanos
                    &&& t.offset() == offset_seconds
                },
                None => !is_date_time(unix_nanos as int, offset_seconds as int),
            },
    {
        if offset_seconds < -MAX_OFFSET_SECONDS || offset_seconds > MAX_OFFSET_SECONDS {
            return None;
        }
        let shift: i128 = offset_seconds as i128 * NANOS_PER_SECOND;
        if unix_nanos < MIN_NANOS - shift || unix_nanos > MAX_NANOS - shift {
            return None;
        }
        Some(UtcDateTime { unix_nanos, offset_seconds })
    }

    /// The UTC date and time at a number of seconds since the Unix epoch.
    pub fn from_unix_timestamp(timestamp: i64) -> (res: Result<UtcDateTime, ComponentRange>)
        ensures
            match res {
                Ok(t) => {
                    &&& MIN_SECONDS <= timestamp <= MAX_SECONDS
                    &&& t.nanos() == timestamp * NANOS_PER_SECOND
                    &&& t.offset() == 0
                },
                Err(e) => {
                    &&& !(MIN_SECONDS <= timestamp <= MAX_SECONDS)
                    &&& range_error_displays(e, "timestamp was not in range"@)
                },
            },
    {
        match nanos_of_unix_timestamp(timestamp) {
            Ok(unix_nanos) => Ok(UtcDateTime { unix_nanos, offset_seconds: 0 }),
            Err(e) => Err(e),
        }
    }

    /// Nanoseconds since the Unix epoch.
    pub fn unix_timestamp_nanos(&self) -> (nanos: i128)
        ensures
            nanos == self.nanos(),
    {
        self.unix_nanos
    }

    /// Seconds by which the local clock is ahead of UTC.
    pub fn offset_seconds(&self) -> (seconds: i32)
        ensures
            seconds == self.offset(),
    {
        self.offset_seconds
    }

    /// Whole seconds since the Unix epoch, rounded down.
    pub fn unix_timestamp(&self) -> (seconds: i64)
        ensures
            seconds == self.seconds(),
    {
        proof {
            use_type_invariant(self);
        }
        if self.unix_nanos >= 0 {
            (self.unix_nanos as u128 / 1_000_000_000) as i64
        } else {
            let back: u128 = (-(self.unix_nanos + 1)) as u128;
            -1 - (back / 1_000_000_000) as i64
        }
    }

    /// The date and time a number of minutes earlier, in the same offset. Where that is not
    /// representable, the first or the last one that is.
    pub fn saturating_sub_minutes(&self, minutes: i64) -> (res: UtcDateTime)
        requires
            i64::MIN <= minutes * 60 <= i64::MAX,
        ensures
            res.offset() == self.offset(),
            res.nanos() + self.offset() * NANOS_PER_SECOND == minutes_before(
                self.nanos() + self.offset() * NANOS_PER_SECOND,
                minutes as int,
            ),
    {
        proof {
            use_type_invariant(self);
        }
        let shift: i128 = self.offset_seconds as i128 * NANOS_PER_SECOND;
        let moved = saturating_sub_minutes(self.unix_nanos + shift, minutes);
        UtcDateTime { unix_nanos: moved - shift, offset_seconds: self.offset_seconds }
    }
}

/// One end of a range of instants.
#[derive(Debug, Clone, Copy)]
pub enum Bound {
    Included(UtcDateTime),
    Excluded(UtcDateTime),
    Unbounded,
}

/// A range of instants.
#[derive(Debug, Clone, Copy)]
pub struct DateRange {
    pub start: Bound,
    pub end: Bound,
}

impl DateRange {
    /// Whether the instant is not before the range.
    pub open spec fn after_start(self, nanos: int) -> bool {
        match self.start {
            Bound::Included(t) => t.nanos() <= nanos,
            Bound::Excluded(t) => t.nanos() < nanos,
            Bound::Unbounded => true,
        }
    }

    /// Whether the instant is not past the range.
    pub open spec fn before_end(self, nanos: int) -> bool {
        match self.end {
            Bound::Included(t) => nanos <= t.nanos(),
            Bound::Excluded(t) => nanos < t.nanos(),
            Bound::Unbounded => true,
        }
    }

    pub open spec fn has(self, nanos: int) -> bool {
        self.after_start(nanos) && self.before_end(nanos)
    }

    /// The range from `start` up to, and without, `end`.
    pub fn between(start: UtcDateTime, end: UtcDateTime) -> (range: DateRange)
        ensures
            range.start == Bound::Included(start),
            range.end == Bound::Excluded(end),
    {
        DateRange { start: Bound::Included(start), end: Bound::Excluded(end) }
    }

    /// Whether the range holds the instant.
    pub fn contains(&self, t: &UtcDateTime) -> (held: bool)
        ensures
            held == self.has(t.nanos()),
    {
        let nanos = t.unix_timestamp_nanos();
        let after = match &self.start {
            Bound::Included(s) => s.unix_timestamp_nanos() <= nanos,
            Bound::Excluded(s) => s.unix_timestamp_nanos() < nanos,
            Bound::Unbounded => true,
        };
        let before = match &self.end {
            Bound::Included(e) => nanos <= e.unix_timestamp_nanos(),
            Bound::Excluded(e) => nanos < e.unix_timestamp_nanos(),
            Bound::Unbounded => true,
        };
        after && before
    }
}

/// A calendar date.
#[derive(Debug, Clone, Copy, PartialEq, Eq, Hash, Structural)]
pub struct Date {
    pub year: i32,
    pub month: u8,
    pub day: u8,
}

pub open spec fn is_leap_year(year: int) -> bool {
    year % 4 == 0 && (year % 100 != 0 || year % 400 == 0)
}

pub open spec fn days_in_month(year: int, month: int) -> int {
    if month == 2 {
        if is_leap_year(year) {
            29
        } else {
            28
        }
    } else if month == 4 || month == 6 || month == 9 || month == 11 {
        30
    } else {
        31
    }
}

/// What is wrong with a calendar date, if anything is.
pub open spec fn date_error(year: int, month: int, day: int) -> Option<Seq<char>> {
    if !(1 <= month <= 12) {
        Some("month was not in range"@)
    } else if !(-9999 <= year <= 9999) {
        Some("year was not in range"@)
    } else if !(1 <= day <= days_in_month(year, month)) {
        Some("day was not in range"@)
    } else {
        None
    }
}

/// `time::Date::from_calendar_date`, its month made from a number by `time::Month::try_from`:
/// succeeds on the days of the calendar from the year -9999 to the year 9999, and otherwise
/// names the component that is out of range.
#[verifier::external_body]
pub(crate) fn from_calendar_date(year: i32, month: u8, day: u8) -> (res: Result<Date, ComponentRange>)
    ensures
        match res {
            Ok(date) => {
                &&& date_error(year as int, month as int, day as int) is None
                &&& date == (Date { year, month, day })
            },
            Err(e) => {
                &&& date_error(year as int, month as int, day as int) matches Some(text)
                &&& range_error_displays(e, text)
            },
        },
{
    let date = time::Date::from_calendar_date(year, time::Month::try_from(month)?, day)?;
    Ok(Date { year: date.year(), month: u8::from(date.month()), day: date.day() })
}

/// A time span of whole seconds and nanoseconds.
#[derive(Debug, Clone, Copy)]
pub struct Duration {
    secs: u64,
    nanos: u32,
}

/// What `std::time::Duration` shows of a time span in its `Debug` form.
pub uninterp spec fn duration_text(secs: u64, nanos: u32) -> Seq<char>;

/// The `Debug` form of a `std::time::Duration`: a function of the seconds and of the
/// nanoseconds, of which there are fewer than in a second.
#[verifier::external_body]
fn show_duration(secs: u64, nanos: u32) -> (text: String)
    requires
        nanos < 1_000_000_000,
    ensures
        text@ == duration_text(secs, nanos),
{
    format!("{:?}", std::time::Duration::new(secs, nanos))
}

impl Duration {
    pub closed spec fn whole_seconds(self) -> u64 {
        self.secs
    }

    pub closed spec fn subsecond_nanos(self) -> u32 {
        self.nanos
    }

    #[verifier::type_invariant]
    pub open spec fn wf(self) -> bool {
        self.subsecond_nanos() < 1_000_000_000
    }

    /// A span of seconds and nanoseconds, whole seconds of the latter carried over.
    pub fn new(secs: u64, nanos: u32) -> (span: Duration)
        requires
            secs + nanos / 1_000_000_000 <= u64::MAX,
        ensures
            span.whole_seconds() == secs + nanos / 1_000_000_000,
            span.subsecond_nanos() == nanos % 1_000_000_000,
    {
        Duration { secs: secs + (nanos / 1_000_000_000) as u64, nanos: nanos % 1_000_000_000 }
    }

    /// A span of whole seconds.
    pub fn from_secs(secs: u64) -> (span: Duration)
        ensures
            span.whole_seconds() == secs,
            span.subsecond_nanos() == 0,
    {
        Duration { secs, nanos: 0 }
    }

    pub fn as_secs(&self) -> (secs: u64)
        ensures
            secs == self.whole_seconds(),
    {
        self.secs
    }

    pub fn subsec_nanos(&self) -> (nanos: u32)
        ensures
            nanos == self.subsecond_nanos(),
    {
        self.nanos
    }

    /// The span with its unit, as in `5s` or `1.5ms`.
    pub fn debug_text(&self) -> (text: String)
        ensures
            text@ == duration_text(self.whole_seconds(), self.subsecond_nanos()),
    {
        proof {
            use_type_invariant(self);
        }
        show_duration(self.secs, self.nanos)
    }
}

/// A second begins at its count and lasts until the next.
pub proof fn law_seconds(t: UtcDateTime)
    ensures
        t.seconds() * 1_000_000_000 <= t.nanos() < (t.seconds() + 1) * 1_000_000_000,
{
}

/// What is representable: offsets of less than 26 hours, and local times from the first
/// nanosecond of the year -9999 to the last of the year 9999.
pub proof fn law_representable(unix_nanos: int, offset_seconds: int)
    ensures
        is_date_time(unix_nanos, offset_seconds) <==> {
            &&& -93_600 < offset_seconds < 93_600
            &&& -377_705_116_800 * 1_000_000_000 <= unix_nanos + offset_seconds * 1_000_000_000
                < 253_402_300_800 * 1_000_000_000
        },
        MIN_SECONDS == -377_705_116_800,
        MAX_SECONDS == 253_402_300_799,
        NANOS_PER_SECOND == 1_000_000_000,
{
}

/// Minutes are subtracted exactly where the result is representable. Otherwise the result is
/// the limit on that side.
pub proof fn law_minutes_before(nanos: int, minutes: int)
    ensures
        ({
            let first = -377_705_116_800 * 1_000_000_000;
            let last = 253_402_300_800 * 1_000_000_000 - 1;
            let exact = nanos - minutes * 60_000_000_000;
            &&& first <= minutes_before(nanos, minutes) <= last
            &&& first <= exact <= last ==> minutes_before(nanos, minutes) == exact
            &&& exact < first ==> minutes_before(nanos, minutes) == first
            &&& exact > last ==> minutes_before(nanos, minutes) == last
        }),
{
}

/// A range holds an instant that lies between its bounds, each bound itself only where it is
/// included.
pub proof fn law_range_bounds(range: DateRange, nanos: int)
    ensures
        range.has(nanos) <==> {
            &&& match range.start {
                Bound::Included(s) => s.nanos() <= nanos,
                Bound::Excluded(s) => s.nanos() < nanos,
                Bound::Unbounded => true,
            }
            &&& match range.end {
                Bound::Included(e) => nanos <= e.nanos(),
                Bound::Excluded(e) => nanos < e.nanos(),
                Bound::Unbounded => true,
            }
        },
{
}

/// An error displays a text if it cannot show anything else.
pub proof fn law_range_error_text(error: ComponentRange, text: Seq<char>)
    ensures
        range_error_displays(error, text) <==> forall|shown: String| #[trigger]
            to_string_from_display_ensures::<ComponentRange>(&error, shown) ==> shown@ == text,
{
}

/// A range holds the instants between its bounds.
pub proof fn law_range_holds(range: DateRange, t: UtcDateTime, held: bool)
    requires
        call_ensures(DateRange::contains, (&range, &t), held),
    ensures
        held <==> {
            &&& match range.start {
                Bound::Included(start) => start.nanos() <= t.nanos(),
                Bound::Excluded(start) => start.nanos() < t.nanos(),
                Bound::Unbounded => true,
            }
            &&& match range.end {
                Bound::Included(end) => t.nanos() <= end.nanos(),
                Bound::Excluded(end) => t.nanos() < end.nanos(),
                Bound::Unbounded => true,
            }
        },
{
}

/// A date and time gives back the instant and the offset that it was made from.
pub proof fn law_date_time_keeps_parts(
    unix_nanos: i128,
    offset_seconds: i32,
    made: Option<UtcDateTime>,
    t: UtcDateTime,
    nanos: i128,
    offset: i32,
    seconds: i64,
)
    requires
        call_ensures(UtcDateTime::from_parts, (unix_nanos, offset_seconds), made),
        made == Some(t),
        call_ensures(UtcDateTime::unix_timestamp_nanos, (&t,), nanos),
        call_ensures(UtcDateTime::offset_seconds, (&t,), offset),
        call_ensures(UtcDateTime::unix_timestamp, (&t,), seconds),
    ensures
        nanos == unix_nanos,
        offset == offset_seconds,
        seconds * 1_000_000_000 <= unix_nanos < (seconds + 1) * 1_000_000_000,
{
}

/// A time span is as long as the seconds and the nanoseconds that it was made from together.
pub proof fn law_span_keeps_length(secs: u64, nanos: u32, span: Duration, whole: u64, rest: u32)
    requires
        call_ensures(Duration::new, (secs, nanos), span),
        call_ensures(Duration::as_secs, (&span,), whole),
        call_ensures(Duration::subsec_nanos, (&span,), rest),
    ensures
        whole * 1_000_000_000 + rest == secs * 1_000_000_000 + nanos,
        rest < 1_000_000_000,
{
}

/// The days of the calendar: up to the 31st in seven months, up to the 30th in four, and in the
/// second up to the 28th, or to the 29th in every fourth year but for those centuries that are
/// no multiple of four.
pub proof fn law_calendar(year: int, month: int, day: int)
    ensures
        date_error(year, month, day) is None <==> {
            &&& -9999 <= year <= 9999
            &&& 1 <= month <= 12
            &&& 1 <= day
            &&& day <= 31
            &&& day == 31 ==> (month == 1 || month == 3 || month == 5 || month == 7 || month == 8
                || month == 10 || month == 12)
            &&& month == 2 ==> day <= 29
            &&& month == 2 && day == 29 ==> year % 4 == 0 && (year % 100 == 0 ==> year % 400 == 0)
        },
{
}

} // verus!
