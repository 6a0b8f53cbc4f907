//! What the background jobs do next, and what the command line asks for.
use vstd::prelude::*;

use crate::clock::{
    amsterdam_hour, amsterdam_hour_of, on_calendar, parse_ymd, parsed_day, Day, Timestamp, DAY,
    FIRST_DAY, MINUTE, SECOND,
};
use crate::models::{opt_str, Match};
use crate::text::{str_eq, trim, trimmed};

verus! {

/// Seconds between two polls while a match is on.
pub const LIVE_INTERVAL: u64 = 60;

/// Seconds between two polls while nothing happens.
pub const IDLE_INTERVAL: u64 = 600;

/// How long before kickoff polling gets fast.
pub const BEFORE_KICKOFF_MINUTES: i64 = 10;

/// How long after kickoff polling stays fast for a match that the feed has not
/// moved on.
pub const AFTER_KICKOFF_MINUTES: i64 = 180;

/// Whether a match is on, or so close to its kickoff that it may be.
pub open spec fn active(m: Match, at: Timestamp) -> bool {
    ||| m.status@ == "IN_PLAY"@
    ||| m.status@ == "PAUSED"@
    ||| {
        &&& m.status@ == "SCHEDULED"@ || m.status@ == "TIMED"@
        &&& m.kickoff_at.total() <= at.total() + BEFORE_KICKOFF_MINUTES * MINUTE * SECOND
        &&& at.total() <= m.kickoff_at.total() + AFTER_KICKOFF_MINUTES * MINUTE * SECOND
    }
}

/// Whether a match is on, or may be.
pub fn is_active(m: &Match, at: Timestamp) -> (r: bool)
    ensures
        r == active(*m, at),
{
    let status: &str = m.status.as_str();
    if str_eq(status, "IN_PLAY") || str_eq(status, "PAUSED") {
        return true;
    }
    if !str_eq(status, "SCHEDULED") && !str_eq(status, "TIMED") {
        return false;
    }
    !at.more_than_before(m.kickoff_at, BEFORE_KICKOFF_MINUTES * MINUTE)
        && !m.kickoff_at.more_than_before(at, AFTER_KICKOFF_MINUTES * MINUTE)
}

/// Whether one of some matches is on, or about to be.
pub open spec fn any_active(matches: Seq<Match>, at: Timestamp) -> bool {
    exists|i: int| 0 <= i < matches.len() && active(#[trigger] matches[i], at)
}

/// Whether any match is on, or may be.
pub fn any_match_active(matches: &Vec<Match>, at: Timestamp) -> (r: bool)
    ensures
        r == exists|i: int| 0 <= i < matches@.len() && active(#[trigger] matches@[i], at),
        r == any_active(matches@, at),
{
    let mut i: usize = 0;
    while i < matches.len()
        invariant
            i <= matches.len(),
            forall|k: int| 0 <= k < i ==> !active(#[trigger] matches@[k], at),
        decreases matches.len() - i,
    {
        if is_active(&matches[i], at) {
            assert(active(matches@[i as int], at));
            return true;
        }
        i = i + 1;
    }
    false
}

/// How long to wait before the next poll, in seconds. Where it is not known
/// whether a match is on, one is taken to be.
pub fn next_delay(is_on: Option<bool>) -> (r: u64)
    ensures
        r == match is_on {
            Some(false) => IDLE_INTERVAL,
            _ => LIVE_INTERVAL,
        },
{
    match is_on {
        Some(false) => IDLE_INTERVAL,
        _ => LIVE_INTERVAL,
    }
}

/// The daily mails that may go out.
#[derive(Clone, Copy, PartialEq, Eq, Debug, Structural)]
pub struct DailyMails {
    /// The day whose results may be told.
    pub results_of: Option<Day>,
    /// The day whose matches may be announced.
    pub matches_of: Option<Day>,
}

/// The daily mails that may go out on a day, from given hours on.
pub open spec fn mails_due(day: Day, hour: u32, digest_hour: u32, matches_hour: u32) -> DailyMails {
    DailyMails {
        results_of: if hour >= digest_hour && day.num > FIRST_DAY {
            Some(Day { num: (day.num - 1) as i32 })
        } else {
            None
        },
        matches_of: if hour >= matches_hour {
            Some(day)
        } else {
            None
        },
    }
}

/// The daily mails that may go out on a day at a local hour: the day before is
/// told from one hour on, the day itself announced from another.
pub fn mails_at_hour(day: Day, hour: u32, digest_hour: u32, matches_hour: u32) -> (r: DailyMails)
    ensures
        r == mails_due(day, hour, digest_hour, matches_hour),
{
    let results_of: Option<Day> = if hour >= digest_hour {
        day.pred()
    } else {
        None
    };
    let matches_of: Option<Day> = if hour >= matches_hour {
        Some(day)
    } else {
        None
    };
    DailyMails { results_of, matches_of }
}

/// The daily mails that may go out at an instant. Hours are those of Amsterdam,
/// so they hold through changes of daylight saving; days are those of UTC.
pub fn daily_mails(at: Timestamp, digest_hour: u32, matches_hour: u32) -> (r: DailyMails)
    requires
        at.valid(),
    ensures
        r == mails_due(
            at.day(),
            amsterdam_hour_of(at.secs as int),
            digest_hour,
            matches_hour,
        ),
{
    mails_at_hour(at.date(), amsterdam_hour(at.secs), digest_hour, matches_hour)
}

/// Whether an unfinished signup is dropped: it ran out more than a day ago.
pub fn is_stale_signup(expires_at: Timestamp, consumed: bool, at: Timestamp) -> (r: bool)
    ensures
        r == (!consumed && expires_at.total() + DAY * SECOND < at.total()),
{
    !consumed && expires_at.more_than_before(at, DAY)
}

/// What the command line asks for.
#[derive(Clone, Copy, PartialEq, Eq, Debug, Structural)]
pub enum Command {
    /// Print a fresh key pair for push notifications.
    GenVapid,
    /// Fill the database with sample data.
    Seed,
    /// Send the reminders once.
    Notify,
    /// Push the live scores once.
    LiveScore,
    /// Send the rank alerts once.
    RankAlerts,
    /// Send the results of a day once.
    DailyDigest,
    /// Announce the matches of a day once.
    TodayMatches,
    /// Recompute points, streaks and badges once.
    RecomputeStreaks,
    /// Run the server.
    Serve,
}

/// The command that a first argument stands for; anything else runs the server.
pub open spec fn command_of(arg: Option<Seq<char>>) -> Command {
    match arg {
        Some(s) => if s == "gen-vapid"@ {
            Command::GenVapid
        } else if s == "seed"@ {
            Command::Seed
        } else if s == "notify"@ {
            Command::Notify
        } else if s == "live-score"@ {
            Command::LiveScore
        } else if s == "rank-alerts"@ {
            Command::RankAlerts
        } else if s == "daily-digest"@ {
            Command::DailyDigest
        } else if s == "today-matches"@ {
            Command::TodayMatches
        } else if s == "recompute-streaks"@ {
            Command::RecomputeStreaks
        } else {
            Command::Serve
        },
        None => Command::Serve,
    }
}

/// The command that a first argument stands for.
pub fn command(arg: Option<&str>) -> (r: Command)
    ensures
        r == command_of(opt_str(arg)),
{
    match arg {
        Some(s) => if str_eq(s, "gen-vapid") {
            Command::GenVapid
        } else if str_eq(s, "seed") {
            Command::Seed
        } else if str_eq(s, "notify") {
            Command::Notify
        } else if str_eq(s, "live-score") {
            Command::LiveScore
        } else if str_eq(s, "rank-alerts") {
            Command::RankAlerts
        } else if str_eq(s, "daily-digest") {
            Command::DailyDigest
        } else if str_eq(s, "today-matches") {
            Command::TodayMatches
        } else if str_eq(s, "recompute-streaks") {
            Command::RecomputeStreaks
        } else {
            Command::Serve
        },
        None => Command::Serve,
    }
}

/// The day an argument stands for, or a given one where it stands for none.
pub open spec fn day_or(arg: Option<Seq<char>>, default: Day) -> Day {
    match arg {
        Some(s) => match parsed_day(trimmed(s)) {
            Some(num) => Day { num },
            None => default,
        },
        None => default,
    }
}

/// The day an argument stands for, given what it was read as.
pub fn chosen_day(read: Option<Day>, default: Day) -> (r: Day)
    ensures
        r == match read {
            Some(day) => day,
            None => default,
        },
{
    match read {
        Some(day) => day,
        None => default,
    }
}

fn read_day(arg: Option<&str>) -> (r: Option<Day>)
    ensures
        match arg {
            Some(s) => match parsed_day(trimmed(s@)) {
                Some(num) => r == Some(Day { num }),
                None => r is None,
            },
            None => r is None,
        },
        r is Some ==> r->0.valid(),
{
    match arg {
        Some(s) => parse_ymd(trim(s).as_str()),
        None => None,
    }
}

/// The day whose results to send: the one given, or yesterday.
pub fn digest_day(arg: Option<&str>, at: Timestamp) -> (r: Day)
    requires
        at.valid(),
        on_calendar(at.secs - DAY),
    ensures
        r == day_or(opt_str(arg), at.shifted(-DAY).day()),
        r.valid(),
{
    chosen_day(read_day(arg), at.shift(-DAY).date())
}

/// The day whose matches to announce: the one given, or today.
pub fn preview_day(arg: Option<&str>, at: Timestamp) -> (r: Day)
    requires
        at.valid(),
    ensures
        r == day_or(opt_str(arg), at.day()),
        r.valid(),
{
    chosen_day(read_day(arg), at.date())
}

/// While a match is on polling is fast, whatever its kickoff.
pub proof fn live_matches_are_active(m: Match, at: Timestamp)
    requires
        m.status@ == "IN_PLAY"@ || m.status@ == "PAUSED"@,
    ensures
        active(m, at),
{
}

/// Polling is fast exactly while a match is on, and from ten minutes before the
/// kickoff of a scheduled one to three hours after it.
pub proof fn polling_is_fast_around_a_match(m: Match, at: Timestamp)
    ensures
        ({
            let passed = (at.secs - m.kickoff_at.secs) * 1_000_000_000 + at.nanos
                - m.kickoff_at.nanos;
            active(m, at) <==> m.status@ == "IN_PLAY"@ || m.status@ == "PAUSED"@ || ((m.status@
                == "SCHEDULED"@ || m.status@ == "TIMED"@) && -10 * 60 * 1_000_000_000 <= passed
                <= 180 * 60 * 1_000_000_000)
        }),
{
}

/// From its hour on yesterday's results are told and today's matches announced; not
/// before.
pub proof fn mails_have_their_hour(day: Day, hour: u32, digest_hour: u32, matches_hour: u32)
    requires
        day.num > FIRST_DAY,
    ensures
        ({
            let due = mails_due(day, hour, digest_hour, matches_hour);
            &&& due.results_of is Some <==> hour >= digest_hour
            &&& due.results_of is Some ==> due.results_of->0.num == day.num - 1
            &&& due.matches_of is Some <==> hour >= matches_hour
            &&& due.matches_of is Some ==> due.matches_of->0 == day
        }),
{
}

/// A day that can be read is taken; without one, or with one that cannot be read,
/// the other day is.
pub proof fn days_are_taken_where_given(arg: Seq<char>, default: Day)
    ensures
        day_or(None, default) == default,
        parsed_day(trimmed(arg)) is None ==> day_or(Some(arg), default) == default,
        parsed_day(trimmed(arg)) is Some ==> day_or(Some(arg), default).num == parsed_day(
            trimmed(arg),
        )->0,
{
}

/// The feed is asked every minute while a match is on, or where that is not known, and
/// every ten minutes otherwise.
pub proof fn polling_follows_the_matches(
    matches: &Vec<Match>,
    at: Timestamp,
    on: bool,
    known: Option<bool>,
    delay: u64,
)
    requires
        call_ensures(any_match_active, (matches, at), on),
        call_ensures(next_delay, (known,), delay),
    ensures
        on <==> exists|i: int|
            0 <= i < matches@.len() && ((#[trigger] matches@[i]).status@ == "IN_PLAY"@
                || matches@[i].status@ == "PAUSED"@ || ((matches@[i].status@ == "SCHEDULED"@
                || matches@[i].status@ == "TIMED"@) && -10 * 60 * 1_000_000_000 <= (at.secs
                - matches@[i].kickoff_at.secs) * 1_000_000_000 + at.nanos
                - matches@[i].kickoff_at.nanos <= 180 * 60 * 1_000_000_000)),
        known == Some(false) ==> delay == 600,
        known != Some(false) ==> delay == 60,
{
    if on {
        let i = choose|i: int| 0 <= i < matches@.len() && active(#[trigger] matches@[i], at);
        polling_is_fast_around_a_match(matches@[i], at);
    }
    assert forall|i: int| 0 <= i < matches@.len() && !on implies !active(
        #[trigger] matches@[i],
        at,
    ) by {}
}

/// The mails of the day go out by the clock of Amsterdam: the results are those of the
/// day before, the matches those of the day.
pub proof fn mails_go_out_by_the_clock(
    at: Timestamp,
    digest_hour: u32,
    matches_hour: u32,
    r: DailyMails,
)
    requires
        call_ensures(daily_mails, (at, digest_hour, matches_hour), r),
        at.valid(),
        at.secs >= 0,
    ensures
        r.results_of is Some <==> amsterdam_hour_of(at.secs as int) >= digest_hour,
        r.matches_of is Some <==> amsterdam_hour_of(at.secs as int) >= matches_hour,
        r.results_of is Some ==> (r.results_of->0.num + 1) * 86_400 <= at.secs < (
        r.results_of->0.num + 2) * 86_400,
        r.matches_of is Some ==> r.matches_of->0.num * 86_400 <= at.secs < (r.matches_of->0.num + 1)
            * 86_400,
{
}

/// A signup that nobody used is dropped once it ran out more than a day ago.
pub proof fn old_signups_are_dropped(
    expires_at: Timestamp,
    consumed: bool,
    at: Timestamp,
    r: bool,
)
    requires
        call_ensures(is_stale_signup, (expires_at, consumed, at), r),
    ensures
        r <==> !consumed && (at.secs - expires_at.secs) * 1_000_000_000 + at.nanos
            - expires_at.nanos > 86_400 * 1_000_000_000,
{
}

/// Each command has its name; without one, or with another, the program serves.
pub proof fn commands_have_names(arg: Option<&str>, r: Command)
    requires
        call_ensures(command, (arg,), r),
    ensures
        arg is None ==> r == Command::Serve,
        arg is Some ==> {
            let name = arg->0@;
            &&& name == "gen-vapid"@ <==> r == Command::GenVapid
            &&& name == "seed"@ <==> r == Command::Seed
            &&& name == "notify"@ <==> r == Command::Notify
            &&& name == "live-score"@ <==> r == Command::LiveScore
            &&& name == "rank-alerts"@ <==> r == Command::RankAlerts
            &&& name == "daily-digest"@ <==> r == Command::DailyDigest
            &&& name == "today-matches"@ <==> r == Command::TodayMatches
            &&& name == "recompute-streaks"@ <==> r == Command::RecomputeStreaks
        },
{
    reveal_strlit("gen-vapid");
    reveal_strlit("seed");
    reveal_strlit("notify");
    reveal_strlit("live-score");
    reveal_strlit("rank-alerts");
    reveal_strlit("daily-digest");
    reveal_strlit("today-matches");
    reveal_strlit("recompute-streaks");
    assert("gen-vapid"@.len() == 9 && "seed"@.len() == 4 && "notify"@.len() == 6);
    assert("live-score"@.len() == 10 && "rank-alerts"@.len() == 11 && "daily-digest"@.len() == 12);
    assert("today-matches"@.len() == 13 && "recompute-streaks"@.len() == 17);
}

/// Asked for no day, the digest is about the day before and the preview about this one;
/// asked for one, both are about that one.
pub proof fn commands_take_a_day(
    arg: Option<&str>,
    at: Timestamp,
    digest: Day,
    preview: Day,
    read: Option<Day>,
    other: Day,
    chosen: Day,
)
    requires
        call_ensures(digest_day, (arg, at), digest),
        call_ensures(preview_day, (arg, at), preview),
        call_ensures(chosen_day, (read, other), chosen),
        at.valid(),
        on_calendar(at.secs - DAY),
    ensures
        arg is None || parsed_day(trimmed(arg->0@)) is None ==> {
            &&& (digest.num + 1) * 86_400 <= at.secs < (digest.num + 2) * 86_400
            &&& preview.num * 86_400 <= at.secs < (preview.num + 1) * 86_400
        },
        arg is Some && parsed_day(trimmed(arg->0@)) is Some ==> digest.num == parsed_day(
            trimmed(arg->0@),
        )->0 && preview.num == digest.num,
        read is Some ==> chosen == read->0,
        read is None ==> chosen == other,
{
}

} // verus!
