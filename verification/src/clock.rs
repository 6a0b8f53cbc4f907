//! Instants and calendar days, as plain numbers.
use chrono::{DateTime, NaiveDate, Timelike, Utc};
use chrono_tz::Europe::Amsterdam;
use vstd::prelude::*;

verus! {

/// Nanoseconds in a second.
pub const SECOND: i128 = 1_000_000_000;

/// Seconds in a minute.
pub const MINUTE: i64 = 60;

/// Seconds in an hour.
pub const HOUR: i64 = 3_600;

/// Seconds in a day.
pub const DAY: i64 = 86_400;

/// The first day of the calendar, counted from 1970-01-01.
pub const FIRST_DAY: i32 = -96_465_292;

/// The last day of the calendar, counted from 1970-01-01.
pub const LAST_DAY: i32 = 95_026_236;

/// An instant: whole seconds since the Unix epoch, and the nanoseconds past them.
/// In a leap second the nanoseconds run on past a whole second.
#[derive(Clone, Copy, PartialEq, Eq, Debug, Structural)]
pub struct Timestamp {
    pub secs: i64,
    pub nanos: u32,
}

/// A calendar day, counted from 1970-01-01.
#[derive(Clone, Copy, PartialEq, Eq, Debug, Structural)]
pub struct Day {
    pub num: i32,
}

/// Whether a number of seconds since the epoch falls on a day of the calendar.
pub open spec fn on_calendar(secs: int) -> bool {
    FIRST_DAY * DAY <= secs < (LAST_DAY + 1) * DAY
}

impl Timestamp {
    /// Whether this instant falls on a day of the calendar.
    pub open spec fn valid(self) -> bool {
        on_calendar(self.secs as int)
    }

    /// Strictly earlier than `other`.
    pub open spec fn lt(self, other: Timestamp) -> bool {
        self.secs < other.secs || (self.secs == other.secs && self.nanos < other.nanos)
    }

    /// Earlier than `other`, or the same instant.
    pub open spec fn le(self, other: Timestamp) -> bool {
        !other.lt(self)
    }

    /// This instant moved by a number of seconds.
    pub open spec fn shifted(self, secs: int) -> Timestamp {
        Timestamp { secs: (self.secs + secs) as i64, nanos: self.nanos }
    }

    /// The nanoseconds from the epoch to this instant.
    pub open spec fn total(self) -> int {
        self.secs * SECOND + self.nanos
    }

    /// The second of the day (UTC) of this instant.
    pub open spec fn second_of_day(self) -> int {
        self.secs as int % DAY as int
    }

    /// The leap second to count between `since` and this instant: the one in which
    /// the instant with the earlier time of day lies.
    pub open spec fn leap_since(self, since: Timestamp) -> int {
        if self.second_of_day() > since.second_of_day() && since.nanos >= SECOND {
            1
        } else if self.second_of_day() < since.second_of_day() && self.nanos >= SECOND {
            -1
        } else {
            0
        }
    }

    /// The nanoseconds that passed from `since` to this instant, with a leap
    /// second counted.
    pub open spec fn elapsed(self, since: Timestamp) -> int {
        self.total() - since.total() + self.leap_since(since) * SECOND
    }

    /// Whether this instant does not lie in a leap second.
    pub open spec fn is_plain(self) -> bool {
        self.nanos < SECOND
    }

    /// The calendar day (UTC) of this instant.
    pub open spec fn day(self) -> Day {
        Day { num: self.day_num() as i32 }
    }

    /// The calendar day (UTC) of this instant, as a number.
    pub open spec fn day_num(self) -> int {
        self.secs as int / DAY as int
    }

    /// The calendar day (UTC) of this instant, as a number.
    pub fn day_number(self) -> (r: i64)
        ensures
            r == self.day_num(),
    {
        if self.secs >= 0 {
            self.secs / DAY
        } else {
            let past: i64 = -1 - self.secs;
            -1 - past / DAY
        }
    }

    /// Whether this instant is strictly before `other`.
    pub fn before(self, other: Timestamp) -> (r: bool)
        ensures
            r == self.lt(other),
    {
        self.secs < other.secs || (self.secs == other.secs && self.nanos < other.nanos)
    }

    /// Whether more than `secs` seconds pass from this instant to `other`.
    pub fn more_than_before(self, other: Timestamp, secs: i64) -> (r: bool)
        ensures
            r == (self.total() + secs * SECOND < other.total()),
    {
        let limit: i128 = (self.secs as i128 + secs as i128) * SECOND + self.nanos as i128;
        let end: i128 = other.secs as i128 * SECOND + other.nanos as i128;
        limit < end
    }

    /// Whether more than `secs` seconds passed from `since` to this instant, with
    /// a leap second counted.
    pub fn is_past(self, since: Timestamp, secs: i64) -> (r: bool)
        ensures
            r == (self.elapsed(since) > secs * SECOND),
    {
        let second: i64 = second_of_day(self.secs);
        let then_second: i64 = second_of_day(since.secs);
        let leap: i128 = if second > then_second && since.nanos as i128 >= SECOND {
            1
        } else if second < then_second && self.nanos as i128 >= SECOND {
            -1
        } else {
            0
        };
        let end: i128 = (self.secs as i128 + leap) * SECOND + self.nanos as i128;
        let start: i128 = since.secs as i128 * SECOND + since.nanos as i128;
        end - start > secs as i128 * SECOND
    }

    /// This instant moved by a number of seconds.
    pub fn shift(self, secs: i64) -> (r: Timestamp)
        requires
            on_calendar(self.secs + secs),
        ensures
            r == self.shifted(secs as int),
            r.secs == self.secs + secs,
            r.valid(),
    {
        Timestamp { secs: self.secs + secs, nanos: self.nanos }
    }

    /// The calendar day (UTC) of this instant.
    pub fn date(self) -> (r: Day)
        requires
            self.valid(),
        ensures
            r == self.day(),
            r.valid(),
            r.num * DAY <= self.secs < (r.num + 1) * DAY,
    {
        Day { num: self.day_number() as i32 }
    }
}

fn second_of_day(secs: i64) -> (r: i64)
    ensures
        r == secs as int % DAY as int,
{
    if secs >= 0 {
        secs % DAY
    } else {
        let past: i64 = -1 - secs;
        DAY - 1 - past % DAY
    }
}

impl Day {
    /// Whether the calendar has this day.
    pub open spec fn valid(self) -> bool {
        FIRST_DAY <= self.num <= LAST_DAY
    }

    /// The instant a number of seconds after the midnight (UTC) that starts this day.
    pub open spec fn at(self, secs: int) -> Timestamp {
        Timestamp { secs: (self.num * DAY + secs) as i64, nanos: 0 }
    }

    /// The day before this one, unless it is the first.
    pub fn pred(self) -> (r: Option<Day>)
        ensures
            r == if self.num > FIRST_DAY {
                Some(Day { num: (self.num - 1) as i32 })
            } else {
                None
            },
    {
        if self.num > FIRST_DAY {
            Some(Day { num: self.num - 1 })
        } else {
            None
        }
    }
}

/// `chrono::Utc::now`: the present instant. Nothing is known of it but that it
/// lies on the calendar, not before the epoch, and is no leap second.
#[verifier::external_body]
pub(crate) fn now() -> (r: Timestamp)
    ensures
        r.valid(),
        r.secs >= 0,
        r.nanos < 1_000_000_000,
{
    let t: DateTime<Utc> = Utc::now();
    Timestamp { secs: t.timestamp(), nanos: t.timestamp_subsec_nanos() }
}

/// The present instant.
pub fn present() -> (r: Timestamp)
    ensures
        r.valid(),
        r.secs >= 0,
        r.nanos < 1_000_000_000,
{
    now()
}

/// A day written in a given format.
pub uninterp spec fn day_text(day: int, format: Seq<char>) -> Seq<char>;

/// `NaiveDate::format`: a function of the day and of the format, named
/// [`day_text`]. The day must be one the calendar has, and the format one of
/// the two in use, which `chrono` knows.
#[verifier::external_body]
fn format_day(day: Day, format: &str) -> (r: String)
    requires
        day.valid(),
        format@ == "%d/%m/%Y"@ || format@ == "%d/%m"@,
    ensures
        r@ == day_text(day.num as int, format@),
{
    NaiveDate::from_epoch_days(day.num).unwrap().format(format).to_string()
}

/// A day as day/month/year, as shown in mails.
pub open spec fn long_label(day: Day) -> Seq<char> {
    day_text(day.num as int, "%d/%m/%Y"@)
}

/// A day as day/month, as shown on the matchday screen.
pub open spec fn short_label(day: Day) -> Seq<char> {
    day_text(day.num as int, "%d/%m"@)
}

impl Day {
    /// This day as day/month/year.
    pub fn label(self) -> (r: String)
        requires
            self.valid(),
        ensures
            r@ == long_label(self),
    {
        format_day(self, "%d/%m/%Y")
    }

    /// This day as day/month.
    pub fn brief(self) -> (r: String)
        requires
            self.valid(),
        ensures
            r@ == short_label(self),
    {
        format_day(self, "%d/%m")
    }
}

/// The wall clock in Amsterdam (hour, minute, zone) at a second of the epoch.
pub uninterp spec fn amsterdam_text(secs: int) -> Seq<char>;

/// `DateTime::with_timezone` to Amsterdam and `DateTime::format` with
/// `%H:%M %Z`: a function of the second alone, named [`amsterdam_text`].
#[verifier::external_body]
fn format_amsterdam(secs: i64) -> (r: String)
    requires
        on_calendar(secs as int),
    ensures
        r@ == amsterdam_text(secs as int),
{
    let t: DateTime<Utc> = DateTime::from_timestamp(secs, 0).unwrap();
    t.with_timezone(&Amsterdam).format("%H:%M %Z").to_string()
}

/// The wall clock in Amsterdam at an instant, as shown in mails.
pub fn amsterdam_clock(t: Timestamp) -> (r: String)
    requires
        t.valid(),
    ensures
        r@ == amsterdam_text(t.secs as int),
{
    format_amsterdam(t.secs)
}

/// The hour of the day in Amsterdam at a second of the epoch.
pub uninterp spec fn amsterdam_hour_of(secs: int) -> u32;

/// `DateTime::with_timezone` to Amsterdam and `Timelike::hour`: a function of
/// the second alone, named [`amsterdam_hour_of`], below 24.
#[verifier::external_body]
pub(crate) fn amsterdam_hour(secs: i64) -> (r: u32)
    requires
        on_calendar(secs as int),
    ensures
        r == amsterdam_hour_of(secs as int),
        r < 24,
{
    let t: DateTime<Utc> = DateTime::from_timestamp(secs, 0).unwrap();
    t.with_timezone(&Amsterdam).hour()
}

/// The day a `YYYY-MM-DD` text stands for, if any.
pub uninterp spec fn parsed_day(s: Seq<char>) -> Option<i32>;

/// `NaiveDate::parse_from_str` with `%Y-%m-%d`: a function of the text alone,
/// named [`parsed_day`]; a day it gives is one the calendar has.
#[verifier::external_body]
pub(crate) fn parse_ymd(s: &str) -> (r: Option<Day>)
    ensures
        r == match parsed_day(s@) {
            Some(num) => Some(Day { num }),
            None => None,
        },
        r is Some ==> r->0.valid(),
{
    NaiveDate::parse_from_str(s, "%Y-%m-%d").ok().map(|d| Day { num: d.to_epoch_days() })
}

/// Of two instants the one with fewer seconds is earlier; within one second the
/// one with fewer nanoseconds is. One of two different instants is the earlier,
/// never both.
pub proof fn instants_are_in_order(a: Timestamp, b: Timestamp, c: Timestamp)
    ensures
        a.secs < b.secs ==> a.lt(b),
        a.secs == b.secs && a.nanos < b.nanos ==> a.lt(b),
        a == b ==> !a.lt(b),
        a.lt(b) ==> !b.lt(a),
        a != b ==> a.lt(b) || b.lt(a),
        a.lt(b) && b.lt(c) ==> a.lt(c),
        a.le(b) <==> a.lt(b) || a == b,
{
}

/// Moving an instant and moving it back gives it again; moving it forward makes
/// it later, by just that many seconds.
pub proof fn shifts_can_be_undone(t: Timestamp, secs: int)
    requires
        i64::MIN <= t.secs + secs <= i64::MAX,
    ensures
        t.shifted(secs).secs == t.secs + secs,
        t.shifted(secs).nanos == t.nanos,
        t.shifted(secs).shifted(-secs) == t,
        secs > 0 ==> t.lt(t.shifted(secs)),
{
}

/// An instant lies between the midnight that starts its day and the next one.
pub proof fn days_hold_their_instants(t: Timestamp)
    requires
        t.valid(),
    ensures
        t.day().num * 86_400 <= t.secs < t.day().num * 86_400 + 86_400,
        t.day_num() == t.day().num,
{
}

/// Between instants that lie in no leap second the time that passes is that of
/// their readings; a leap second in which the earlier one lies adds a second,
/// within the day.
pub proof fn time_passes(since: Timestamp, t: Timestamp)
    ensures
        since.nanos < 1_000_000_000 && t.nanos < 1_000_000_000 ==> t.elapsed(since) == (t.secs
            - since.secs) * 1_000_000_000 + (t.nanos - since.nanos),
        since.nanos >= 1_000_000_000 && since.day_num() == t.day_num() && since.secs < t.secs
            ==> t.elapsed(since) == (t.secs - since.secs + 1) * 1_000_000_000 + (t.nanos
            - since.nanos),
        since.nanos >= 1_000_000_000 && t.nanos < 1_000_000_000 && t.secs as int % 86_400
            <= since.secs as int % 86_400 ==> t.elapsed(since) == (t.secs - since.secs)
            * 1_000_000_000 + (t.nanos - since.nanos),
        since.nanos < 1_000_000_000 && t.nanos >= 1_000_000_000 && t.secs as int % 86_400
            < since.secs as int % 86_400 ==> t.elapsed(since) == (t.secs - since.secs - 1)
            * 1_000_000_000 + (t.nanos - since.nanos),
        since.nanos < 1_000_000_000 && t.nanos >= 1_000_000_000 && t.secs as int % 86_400
            >= since.secs as int % 86_400 ==> t.elapsed(since) == (t.secs - since.secs)
            * 1_000_000_000 + (t.nanos - since.nanos),
{
    assert(since.secs == since.day_num() * 86_400 + since.second_of_day());
    assert(t.secs == t.day_num() * 86_400 + t.second_of_day());
}

/// What an instant answers when asked: which comes first, how it moves, the day that it
/// falls on; and which day comes before a day.
pub proof fn instants_answer(
    t: Timestamp,
    other: Timestamp,
    secs: i64,
    first: bool,
    more: bool,
    past: bool,
    moved: Timestamp,
    day: Day,
    before: Option<Day>,
)
    requires
        call_ensures(Timestamp::before, (t, other), first),
        call_ensures(Timestamp::more_than_before, (t, other, secs), more),
        call_ensures(Timestamp::is_past, (t, other, secs), past),
        call_ensures(Timestamp::shift, (t, secs), moved),
        call_ensures(Timestamp::date, (t,), day),
        call_ensures(Day::pred, (day,), before),
    ensures
        first <==> t.secs < other.secs || (t.secs == other.secs && t.nanos < other.nanos),
        more <==> (other.secs - t.secs) * 1_000_000_000 + other.nanos - t.nanos > secs
            * 1_000_000_000,
        t.nanos < 1_000_000_000 && other.nanos < 1_000_000_000 ==> (past <==> (t.secs - other.secs)
            * 1_000_000_000 + t.nanos - other.nanos > secs * 1_000_000_000),
        moved.secs == t.secs + secs,
        moved.nanos == t.nanos,
        day.num * 86_400 <= t.secs < (day.num + 1) * 86_400,
        before is Some ==> before->0.num == day.num - 1,
        before is None <==> day.num <= -96_465_292,
{
    if t.nanos < 1_000_000_000 && other.nanos < 1_000_000_000 {
        time_passes(other, t);
    }
}

/// A day is written with its year in full and without it in short, and an instant by
/// the clock of Amsterdam.
pub proof fn days_are_written_in_two_ways(
    day: Day,
    long: String,
    short: String,
    t: Timestamp,
    local: String,
)
    requires
        call_ensures(Day::label, (day,), long),
        call_ensures(Day::brief, (day,), short),
        call_ensures(amsterdam_clock, (t,), local),
    ensures
        long@ == day_text(day.num as int, "%d/%m/%Y"@),
        short@ == day_text(day.num as int, "%d/%m"@),
        local@ == amsterdam_text(t.secs as int),
{
}

} // verus!
