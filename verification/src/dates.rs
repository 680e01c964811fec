//! Calendar days and moments, computed by `chrono`.
use chrono::Datelike;
use vstd::prelude::*;

verus! {

/// The first day that `chrono` can hold, counted from January 1, year 1 as day 1.
pub const FIRST_DAY: i32 = -95_746_129;

/// The last day that `chrono` can hold.
pub const LAST_DAY: i32 = 95_745_399;

/// The first second of the moments that are handled: a day before year 0.
pub const FIRST_SECOND: i64 = -62_167_305_600;

/// The last second of the moments that are handled: a day after year 9999.
pub const LAST_SECOND: i64 = 253_402_387_199;

/// The first second of year 0.
pub const YEAR_ZERO: i64 = -62_167_219_200;

/// The last second of year 9999.
pub const YEAR_9999_END: i64 = 253_402_300_799;

/// How a day is written.
pub const DAY_FORMAT: &'static str = "%Y-%m-%d";

/// How the moment of a backup is written in its name.
pub const BACKUP_FORMAT: &'static str = "%Y%m%d-%H%M%S";

/// How the moment of an archived copy is written in its name.
pub const ARCHIVE_FORMAT: &'static str = "%Y%m%dT%H%M%S";

/// A moment: seconds since the Unix epoch and nanoseconds after that second. A
/// count of nanoseconds beyond one second stands for a leap second.
#[derive(Debug, Clone, Copy, PartialEq, Eq, Structural)]
pub struct Moment {
    pub secs: i64,
    pub nanos: u32,
}

impl Moment {
    /// Whether the moment exists and is in the handled range.
    pub open spec fn valid(self) -> bool {
        &&& FIRST_SECOND <= self.secs <= LAST_SECOND
        &&& self.nanos < 1_000_000_000 || (self.nanos < 2_000_000_000 && self.secs % 60 == 59)
    }

    /// Whether the moment has a year of four digits and is no leap second.
    pub open spec fn plain(self) -> bool {
        YEAR_ZERO <= self.secs <= YEAR_9999_END && self.nanos < 1_000_000_000
    }

    /// Whether the moment exists and is in the handled range.
    pub fn is_valid(&self) -> (r: bool)
        ensures
            r == self.valid(),
    {
        let leap: bool = if self.secs >= 0 {
            self.secs % 60 == 59
        } else {
            -(self.secs + 1) % 60 == 0
        };
        FIRST_SECOND <= self.secs && self.secs <= LAST_SECOND && (self.nanos < 1_000_000_000 || (
        self.nanos < 2_000_000_000 && leap))
    }
}

/// The day that `chrono` reads in a text of the form year-month-day.
pub uninterp spec fn parsed_date(text: Seq<char>) -> Option<i32>;

/// The year-month-day text that `chrono` writes for a day.
pub uninterp spec fn formatted_date(day: i32) -> Seq<char>;

/// The moment that `chrono` reads in an RFC 3339 text: seconds and nanoseconds.
pub uninterp spec fn parsed_moment(text: Seq<char>) -> Option<(i64, u32)>;

/// The RFC 3339 text that `chrono` writes for a moment in UTC.
pub uninterp spec fn formatted_moment(secs: i64, nanos: u32) -> Seq<char>;

/// The text that `chrono` writes for a moment in UTC by a format.
pub uninterp spec fn formatted(secs: i64, nanos: u32, format: Seq<char>) -> Seq<char>;

/// Reads a day with `chrono::NaiveDate::parse_from_str` and the format
/// `%Y-%m-%d`. The day is given by its number from January 1, year 1; which
/// texts are days is left to `chrono`, which only knows days in its own range.
#[verifier::external_body]
fn parse_date(text: &str) -> (r: Option<i32>)
    ensures
        r == parsed_date(text@),
        r matches Some(d) ==> FIRST_DAY <= d <= LAST_DAY,
{
    chrono::NaiveDate::parse_from_str(text, "%Y-%m-%d").ok().map(|d| d.num_days_from_ce())
}

/// Goes back by a number of days with `chrono::NaiveDate::checked_sub_signed`:
/// the day with the difference as its number, if `chrono` can hold it.
#[verifier::external_body]
fn days_before(day: i32, days: i64) -> (r: Option<i32>)
    requires
        FIRST_DAY <= day <= LAST_DAY,
        0 <= days <= i32::MAX,
    ensures
        r == (if FIRST_DAY <= day - days {
            Some((day - days) as i32)
        } else {
            None
        }),
{
    let date = chrono::NaiveDate::from_num_days_from_ce_opt(day).unwrap();
    date.checked_sub_signed(chrono::Duration::days(days)).map(|d| d.num_days_from_ce())
}

/// Writes a day with `chrono::NaiveDate::format` and the format `%Y-%m-%d`.
#[verifier::external_body]
fn format_date(day: i32) -> (r: String)
    requires
        FIRST_DAY <= day <= LAST_DAY,
    ensures
        r@ == formatted_date(day),
{
    let date = chrono::NaiveDate::from_num_days_from_ce_opt(day).unwrap();
    date.format("%Y-%m-%d").to_string()
}

/// Reads a moment with `chrono::DateTime::parse_from_rfc3339`. Years have four
/// digits there and offsets are under a day, so the moment is in the handled
/// range; which texts are moments is left to `chrono`.
#[verifier::external_body]
pub(crate) fn parse_moment(text: &str) -> (r: Option<Moment>)
    ensures
        match r {
            Some(m) => parsed_moment(text@) == Some((m.secs, m.nanos)) && m.valid(),
            None => parsed_moment(text@) is None,
        },
{
    let parsed = chrono::DateTime::parse_from_rfc3339(text).ok();
    parsed.map(|t| Moment { secs: t.timestamp(), nanos: t.timestamp_subsec_nanos() })
}

/// Writes a moment with `chrono::DateTime::to_rfc3339`, in UTC. The text keeps
/// every digit of the nanoseconds, so reading it gives the moment back, given a
/// year of four digits.
#[verifier::external_body]
pub(crate) fn format_moment(m: &Moment) -> (r: String)
    requires
        m.valid(),
    ensures
        r@ == formatted_moment(m.secs, m.nanos),
        m.plain() ==> parsed_moment(r@) == Some((m.secs, m.nanos)),
{
    chrono::DateTime::<chrono::Utc>::from_timestamp(m.secs, m.nanos).unwrap().to_rfc3339()
}

/// Writes a moment with `chrono::DateTime::format`, in UTC. The formats hold
/// only year, month, day, hour, minute and second, which every moment has.
#[verifier::external_body]
fn format_as(m: &Moment, format: &str) -> (r: String)
    requires
        m.valid(),
        format@ == DAY_FORMAT@ || format@ == BACKUP_FORMAT@ || format@ == ARCHIVE_FORMAT@,
    ensures
        r@ == formatted(m.secs, m.nanos, format@),
{
    let t = chrono::DateTime::<chrono::Utc>::from_timestamp(m.secs, m.nanos).unwrap();
    t.format(format).to_string()
}

/// The text of the day of a moment.
///
/// For the day by the clock on the wall, the moment is that whose time in UTC is
/// what the clock shows.
pub fn day_text(m: &Moment) -> (r: String)
    requires
        m.valid(),
    ensures
        r@ == formatted(m.secs, m.nanos, DAY_FORMAT@),
{
    format_as(m, DAY_FORMAT)
}

/// The stamp of a moment in the name of a backup.
pub fn backup_stamp(m: &Moment) -> (r: String)
    requires
        m.valid(),
    ensures
        r@ == formatted(m.secs, m.nanos, BACKUP_FORMAT@),
{
    format_as(m, BACKUP_FORMAT)
}

/// The stamp of a moment in the name of an archived copy.
pub fn archive_stamp(m: &Moment) -> (r: String)
    requires
        m.valid(),
    ensures
        r@ == formatted(m.secs, m.nanos, ARCHIVE_FORMAT@),
{
    format_as(m, ARCHIVE_FORMAT)
}

/// The nanoseconds from one moment to another. The seconds are those of the
/// clock, one more or less where the earlier time of day falls in a leap second.
pub open spec fn elapsed_nanos(now: Moment, then: Moment) -> int {
    let now_time = now.secs % 86_400;
    let then_time = then.secs % 86_400;
    let leap: int = if now_time > then_time && then.nanos >= 1_000_000_000 {
        1
    } else if now_time < then_time && now.nanos >= 1_000_000_000 {
        -1
    } else {
        0
    };
    (now.secs - then.secs + leap) * 1_000_000_000 + (now.nanos - then.nanos)
}

/// A number of nanoseconds in whole seconds, rounded towards zero.
pub open spec fn whole_seconds(nanos: int) -> int {
    if nanos >= 0 {
        nanos / 1_000_000_000
    } else {
        -((-nanos) / 1_000_000_000)
    }
}

/// The whole seconds between two moments: the difference of two
/// `chrono::DateTime` values and its `num_seconds`, which rounds towards zero.
#[verifier::external_body]
pub(crate) fn seconds_since(now: &Moment, then: &Moment) -> (r: i64)
    requires
        now.valid(),
        then.valid(),
    ensures
        r == whole_seconds(elapsed_nanos(*now, *then)),
{
    let a = chrono::DateTime::<chrono::Utc>::from_timestamp(now.secs, now.nanos).unwrap();
    let b = chrono::DateTime::<chrono::Utc>::from_timestamp(then.secs, then.nanos).unwrap();
    (a - b).num_seconds()
}

/// The text of the day that lies the given number of days before another, if
/// that is a day.
pub open spec fn lookback_spec(today: Seq<char>, days: int) -> Option<Seq<char>> {
    match parsed_date(today) {
        Some(d) => if FIRST_DAY <= d - days {
            Some(formatted_date((d - days) as i32))
        } else {
            None
        },
        None => None,
    }
}

/// The text of the day `days` before `today`, if `today` is a day and the other
/// one exists.
pub fn lookback_date(today: &str, days: i64) -> (r: Option<String>)
    requires
        0 <= days <= i32::MAX,
    ensures
        crate::model::text_data(r) == lookback_spec(today@, days as int),
{
    match parse_date(today) {
        None => None,
        Some(day) => match days_before(day, days) {
            None => None,
            Some(earlier) => Some(format_date(earlier)),
        },
    }
}

} // verus!
