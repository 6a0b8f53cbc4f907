//! The matchday: from 15:00 CEST to 08:00 CEST the next morning (13:00 UTC to
//! 06:00 UTC), so that night games belong to the evening they follow.
use vstd::prelude::*;

use crate::clock::{days_hold_their_instants, on_calendar, Day, Timestamp, DAY, HOUR};

verus! {

/// Seconds after midnight UTC at which a matchday starts.
pub const STARTS_AT: i64 = 46_800;

/// Seconds after the next midnight UTC at which a matchday ends.
pub const ENDS_AT: i64 = 21_600;

/// Whether an instant belongs to the matchday of `day`.
pub open spec fn in_matchday(day: Day, t: Timestamp) -> bool {
    day.at(STARTS_AT as int).le(t) && t.lt(day.at(DAY + ENDS_AT))
}

/// The instants at which the matchday of `day` starts and ends.
pub fn window(day: Day) -> (r: (Timestamp, Timestamp))
    ensures
        r.0 == day.at(STARTS_AT as int),
        r.1 == day.at(DAY + ENDS_AT),
        r.0.secs == day.num * DAY + STARTS_AT,
        r.1.secs == (day.num + 1) * DAY + ENDS_AT,
        r.0.lt(r.1),
{
    let midnight: i64 = (day.num as i64) * DAY;
    let start: Timestamp = Timestamp { secs: midnight + STARTS_AT, nanos: 0 };
    let end: Timestamp = Timestamp { secs: midnight + DAY + ENDS_AT, nanos: 0 };
    (start, end)
}

/// The day it is in CEST (two hours ahead of UTC) at an instant.
pub open spec fn cest_day(now: Timestamp) -> Day {
    now.shifted(2 * HOUR).day()
}

/// The day it is in CEST at an instant.
pub fn cest_date(now: Timestamp) -> (r: Day)
    requires
        now.valid(),
        on_calendar(now.secs + 2 * HOUR),
    ensures
        r == cest_day(now),
        r.valid(),
{
    now.shift(2 * HOUR).date()
}

/// No instant belongs to two matchdays.
pub proof fn matchdays_do_not_overlap(a: Day, b: Day, t: Timestamp)
    requires
        in_matchday(a, t),
        in_matchday(b, t),
    ensures
        a == b,
{
}

/// A matchday holds the instants from 13:00 to 06:00 the next morning, in UTC.
pub proof fn matchdays_run_from_afternoon_to_morning(day: Day, t: Timestamp)
    ensures
        in_matchday(day, t) <==> day.num * 86_400 + 13 * 3_600 <= t.secs < (day.num + 1) * 86_400
            + 6 * 3_600,
{
}

/// The day in CEST starts two hours before the day in UTC.
pub proof fn cest_is_two_hours_ahead(now: Timestamp)
    requires
        now.valid(),
        on_calendar(now.secs + 7_200),
    ensures
        cest_day(now).num * 86_400 <= now.secs + 7_200 < cest_day(now).num * 86_400 + 86_400,
{
    days_hold_their_instants(now.shifted(2 * HOUR));
}

/// A matchday runs from 13:00 to 06:00 on the next day, in UTC.
pub proof fn windows_run_from_afternoon_to_morning(day: Day, r: (Timestamp, Timestamp))
    requires
        call_ensures(window, (day,), r),
    ensures
        ({
            let (start, end) = r;
            &&& start.secs == day.num * 86_400 + 13 * 3_600
            &&& end.secs == (day.num + 1) * 86_400 + 6 * 3_600
            &&& start.nanos == 0
            &&& end.nanos == 0
        }),
{
}

} // verus!
