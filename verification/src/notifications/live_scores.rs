//! Live scores: every goal and final whistle, told once to all who want it.
use vstd::prelude::*;

use crate::clock::{Timestamp, HOUR, SECOND};
use crate::i18n::{user_locale, Locale};
use crate::leaderboard::LeaderboardRow;
use crate::models::{as_opt_str, opt_text};
use crate::notifications::{contents, leaderboard_url, Contact, Push, PushText};
use crate::text::{decimal, str_eq, to_decimal};

verus! {

/// How long after kickoff a score is still news.
pub const NEWS_HOURS: i64 = 6;

/// How many players the standings in a push name.
pub const STANDINGS_SIZE: usize = 5;

/// A match with its current score, and the score that was last told.
#[derive(Debug)]
pub struct ScoreCandidate {
    pub id: i64,
    pub home_team: String,
    pub away_team: String,
    pub kickoff_at: Timestamp,
    pub home_score: Option<i32>,
    pub away_score: Option<i32>,
    pub status: String,
    pub last_pushed_home: Option<i32>,
    pub last_pushed_away: Option<i32>,
    pub last_pushed_status: Option<String>,
}

/// A goal or a final whistle worth telling.
#[derive(Debug)]
pub struct ScoreEvent {
    pub home_team: String,
    pub away_team: String,
    pub home: i32,
    pub away: i32,
    pub is_final: bool,
    /// The score went down: a goal was disallowed.
    pub is_disallowed: bool,
}

/// A score that may be missing, as a number.
pub open spec fn goals(n: Option<i32>) -> int {
    match n {
        Some(g) => g as int,
        None => 0,
    }
}

fn goals_of(n: Option<i32>) -> (r: i32)
    ensures
        r == goals(n),
{
    match n {
        Some(g) => g,
        None => 0,
    }
}

impl ScoreCandidate {
    /// Whether the goals told last add up, and those of now too.
    pub open spec fn adds_up(self) -> bool {
        &&& i32::MIN <= goals(self.last_pushed_home) + goals(self.last_pushed_away) <= i32::MAX
        &&& i32::MIN <= goals(self.home_score) + goals(self.away_score) <= i32::MAX
    }

    /// Whether the goals told last add up, and those of now too.
    pub fn is_countable(&self) -> (r: bool)
        ensures
            r == self.adds_up(),
    {
        let told: i64 = goals_of(self.last_pushed_home) as i64 + goals_of(
            self.last_pushed_away,
        ) as i64;
        let now: i64 = goals_of(self.home_score) as i64 + goals_of(self.away_score) as i64;
        i32::MIN as i64 <= told && told <= i32::MAX as i64 && i32::MIN as i64 <= now && now
            <= i32::MAX as i64
    }

    /// Whether the score or the status differs from what was last told.
    pub open spec fn changed(self) -> bool {
        ||| self.home_score != self.last_pushed_home
        ||| self.away_score != self.last_pushed_away
        ||| opt_text(self.last_pushed_status) != Some(self.status@)
    }

    /// Whether the match is on, or kicked off a short while ago.
    pub open spec fn is_news(self, at: Timestamp) -> bool {
        ||| self.status@ == "IN_PLAY"@
        ||| self.status@ == "PAUSED"@
        ||| self.kickoff_at.total() + NEWS_HOURS * HOUR * SECOND >= at.total()
    }

    /// Whether there is something to look at.
    pub open spec fn considered(self, at: Timestamp) -> bool {
        self.changed() && self.is_news(at)
    }

    /// Whether the match ended since it was last told of.
    pub open spec fn ended(self) -> bool {
        self.status@ == "FINISHED"@ && opt_text(self.last_pushed_status) != Some("FINISHED"@)
    }

    /// Whether the score changed to a known one; the first 0-0 only means that
    /// the match began.
    pub open spec fn scored(self) -> bool {
        &&& self.home_score != self.last_pushed_home || self.away_score != self.last_pushed_away
        &&& self.home_score is Some && self.away_score is Some
        &&& !(self.last_pushed_home is None && self.last_pushed_away is None && self.home_score
            == Some(0i32) && self.away_score == Some(0i32))
    }

    /// Whether a changed score means fewer goals than were told.
    pub open spec fn corrected(self) -> bool {
        self.scored() && goals(self.home_score) + goals(self.away_score) < goals(
            self.last_pushed_home,
        ) + goals(self.last_pushed_away)
    }

    /// Whether there is something to tell; a match that was never told of only
    /// sets the base line.
    pub open spec fn newsworthy(self) -> bool {
        self.last_pushed_status is Some && (self.scored() || self.ended())
    }

    /// Whether this is what to tell of the match.
    pub open spec fn tells(self, ev: ScoreEvent) -> bool {
        &&& ev.home_team == self.home_team
        &&& ev.away_team == self.away_team
        &&& ev.home == goals(self.home_score)
        &&& ev.away == goals(self.away_score)
        &&& ev.is_final == self.ended()
        &&& ev.is_disallowed == self.corrected()
    }

    /// The match once its present score was told.
    pub open spec fn told(self) -> ScoreCandidate {
        ScoreCandidate {
            last_pushed_home: self.home_score,
            last_pushed_away: self.away_score,
            last_pushed_status: Some(self.status),
            ..self
        }
    }

    fn is_considered(&self, at: Timestamp) -> (r: bool)
        ensures
            r == self.considered(at),
    {
        let known: bool = match as_opt_str(&self.last_pushed_status) {
            Some(s) => str_eq(s, self.status.as_str()),
            None => false,
        };
        let changed: bool = self.home_score != self.last_pushed_home || self.away_score
            != self.last_pushed_away || !known;
        let live: bool = str_eq(self.status.as_str(), "IN_PLAY") || str_eq(
            self.status.as_str(),
            "PAUSED",
        );
        changed && (live || !self.kickoff_at.more_than_before(at, NEWS_HOURS * HOUR))
    }

    /// What to tell of the match, if anything.
    pub fn event(&self) -> (r: Option<ScoreEvent>)
        requires
            self.adds_up(),
        ensures
            match r {
                Some(ev) => self.newsworthy() && self.tells(ev),
                None => !self.newsworthy(),
            },
            r is Some ==> {
                &&& self.home_score is Some ==> r->0.home == self.home_score->0
                &&& self.away_score is Some ==> r->0.away == self.away_score->0
            },
            r is None && self.last_pushed_status is Some && self.home_score is Some
                && self.away_score is Some && !(self.last_pushed_home is None
                && self.last_pushed_away is None) ==> self.home_score == self.last_pushed_home
                && self.away_score == self.last_pushed_away,
    {
        let had_prior: bool = self.last_pushed_status.is_some();
        let was_final: bool = match as_opt_str(&self.last_pushed_status) {
            Some(s) => str_eq(s, "FINISHED"),
            None => false,
        };
        let is_final: bool = str_eq(self.status.as_str(), "FINISHED") && !was_final;
        let scores_changed: bool = self.home_score != self.last_pushed_home || self.away_score
            != self.last_pushed_away;
        let opening_nil: bool = self.last_pushed_home.is_none() && self.last_pushed_away.is_none()
            && self.home_score == Some(0i32) && self.away_score == Some(0i32);
        let is_goal: bool = scores_changed && self.home_score.is_some()
            && self.away_score.is_some() && !opening_nil;
        let prev_total: i32 = goals_of(self.last_pushed_home) + goals_of(self.last_pushed_away);
        let new_total: i32 = goals_of(self.home_score) + goals_of(self.away_score);
        let is_disallowed: bool = is_goal && new_total < prev_total;
        if had_prior && (is_goal || is_final) {
            Some(
                ScoreEvent {
                    home_team: self.home_team.clone(),
                    away_team: self.away_team.clone(),
                    home: goals_of(self.home_score),
                    away: goals_of(self.away_score),
                    is_final,
                    is_disallowed,
                },
            )
        } else {
            None
        }
    }

    fn mark_told(&self) -> (r: ScoreCandidate)
        ensures
            r == self.told(),
    {
        ScoreCandidate {
            id: self.id,
            home_team: self.home_team.clone(),
            away_team: self.away_team.clone(),
            kickoff_at: self.kickoff_at,
            home_score: self.home_score,
            away_score: self.away_score,
            status: self.status.clone(),
            last_pushed_home: self.home_score,
            last_pushed_away: self.away_score,
            last_pushed_status: Some(self.status.clone()),
        }
    }
}

/// The matches there is something to tell of, in order.
pub open spec fn news(matches: Seq<ScoreCandidate>, at: Timestamp) -> Seq<ScoreCandidate>
    decreases matches.len(),
{
    if matches.len() == 0 {
        Seq::empty()
    } else {
        let before = news(matches.drop_last(), at);
        if matches.last().considered(at) && matches.last().newsworthy() {
            before.push(matches.last())
        } else {
            before
        }
    }
}

/// Whether some events tell of some matches, one each.
pub open spec fn tell_all(events: Seq<ScoreEvent>, matches: Seq<ScoreCandidate>) -> bool {
    &&& events.len() == matches.len()
    &&& forall|i: int| 0 <= i < events.len() ==> matches[i].tells(#[trigger] events[i])
}

/// The matches once all that was considered has been told.
pub open spec fn all_told(matches: Seq<ScoreCandidate>, at: Timestamp) -> Seq<ScoreCandidate> {
    Seq::new(
        matches.len(),
        |i: int|
            if matches[i].considered(at) {
                matches[i].told()
            } else {
                matches[i]
            },
    )
}

/// What to tell of all matches now. Each one that was considered takes its
/// present score as the base line, told or not.
pub fn send_live_score_updates(matches: &mut Vec<ScoreCandidate>, at: Timestamp) -> (r: Vec<
    ScoreEvent,
>)
    requires
        forall|i: int| 0 <= i < old(matches)@.len() ==> (#[trigger] old(matches)@[i]).adds_up(),
    ensures
        tell_all(r@, news(old(matches)@, at)),
        final(matches)@ == all_told(old(matches)@, at),
{
    let ghost start = matches@;
    let n: usize = matches.len();
    let mut out: Vec<ScoreEvent> = Vec::new();
    let mut i: usize = 0;
    while i < n
        invariant
            i <= n,
            n == matches@.len(),
            n == start.len(),
            forall|k: int| 0 <= k < n ==> (#[trigger] start[k]).adds_up(),
            forall|k: int| 0 <= k < i ==> #[trigger] matches@[k] == all_told(start, at)[k],
            forall|k: int| i <= k < n ==> #[trigger] matches@[k] == start[k],
            tell_all(out@, news(start.take(i as int), at)),
        decreases n - i,
    {
        assert(start.take(i + 1).drop_last() =~= start.take(i as int));
        assert(start.take(i + 1).last() == matches@[i as int]);
        if matches[i].is_considered(at) {
            if let Some(ev) = matches[i].event() {
                out.push(ev);
            }
            let told: ScoreCandidate = matches[i].mark_told();
            matches.set(i, told);
        }
        i = i + 1;
    }
    assert(start.take(n as int) =~= start);
    assert(matches@ =~= all_told(start, at));
    out
}

/// One line of the standings.
pub open spec fn standing_text(row: LeaderboardRow, rank: int) -> Seq<char> {
    decimal(rank) + ". "@ + row.display_name@ + " "@ + decimal(row.points as int)
}

/// The first `n` lines of the standings, on one line.
pub open spec fn standings_text(board: Seq<LeaderboardRow>, n: int) -> Seq<char>
    decreases n,
{
    if n <= 0 {
        Seq::empty()
    } else if n == 1 {
        standing_text(board[0], 1)
    } else {
        standings_text(board, n - 1) + " · "@ + standing_text(board[n - 1], n)
    }
}

/// How many lines of a leaderboard the standings have.
pub open spec fn standings_len(board: Seq<LeaderboardRow>) -> int {
    if board.len() < STANDINGS_SIZE {
        board.len() as int
    } else {
        STANDINGS_SIZE as int
    }
}

/// The top of a leaderboard, on one line.
pub fn standings_line(board: &Vec<LeaderboardRow>) -> (r: String)
    ensures
        r@ == standings_text(board@, standings_len(board@)),
{
    let n: usize = if board.len() < STANDINGS_SIZE {
        board.len()
    } else {
        STANDINGS_SIZE
    };
    let mut line: String = String::new();
    let mut i: usize = 0;
    while i < n
        invariant
            i <= n,
            n <= board.len(),
            n <= STANDINGS_SIZE,
            line@ == standings_text(board@, i as int),
        decreases n - i,
    {
        let ghost before = line@;
        if i > 0 {
            line.append(" · ");
        }
        let mut one: String = to_decimal((i + 1) as i64);
        one.append(". ");
        one.append(board[i].display_name.as_str());
        one.append(" ");
        one.append(to_decimal(board[i].points).as_str());
        assert(one@ == standing_text(board@[i as int], i + 1));
        line.append(one.as_str());
        assert(line@ =~= standings_text(board@, i + 1));
        i = i + 1;
    }
    line
}

/// The score of an event with its teams.
pub open spec fn score_text(ev: ScoreEvent) -> Seq<char> {
    ev.home_team@ + " "@ + decimal(ev.home as int) + "-"@ + decimal(ev.away as int) + " "@
        + ev.away_team@
}

/// The title under which an event is told.
pub open spec fn title_text(ev: ScoreEvent, loc: Locale) -> Seq<char> {
    let label = if ev.is_final {
        loc.pick("🏁 Score final : "@, "🏁 Final score: "@)
    } else if ev.is_disallowed {
        loc.pick("🚫 But refusé : "@, "🚫 Goal disallowed: "@)
    } else {
        loc.pick("⚽ But ! "@, "⚽ Goal! "@)
    };
    label + score_text(ev)
}

/// The title under which an event is told.
pub fn title(ev: &ScoreEvent, loc: Locale) -> (r: String)
    ensures
        r@ == title_text(*ev, loc),
{
    let label: &str = if ev.is_final {
        loc.f("🏁 Score final : ", "🏁 Final score: ")
    } else if ev.is_disallowed {
        loc.f("🚫 But refusé : ", "🚫 Goal disallowed: ")
    } else {
        loc.f("⚽ But ! ", "⚽ Goal! ")
    };
    let mut score: String = ev.home_team.clone();
    score.append(" ");
    score.append(to_decimal(ev.home as i64).as_str());
    score.append("-");
    score.append(to_decimal(ev.away as i64).as_str());
    score.append(" ");
    score.append(ev.away_team.as_str());
    let mut text: String = label.to_owned();
    text.append(score.as_str());
    text
}

/// The push that tells a member of an event.
pub open spec fn event_push(
    ev: ScoreEvent,
    contact: Contact,
    standings: Seq<char>,
    tenant_url: Seq<char>,
) -> PushText {
    let loc = user_locale(contact.lang@);
    PushText {
        user_id: contact.user_id,
        title: title_text(ev, loc),
        body: loc.pick("Classement"@, "Standings"@) + ": "@ + standings,
        url: tenant_url + "/leaderboard"@,
    }
}

/// The pushes that tell of an event, to the first `n` members who want them.
pub open spec fn event_pushes(
    ev: ScoreEvent,
    contacts: Seq<Contact>,
    standings: Seq<char>,
    tenant_url: Seq<char>,
    n: int,
) -> Seq<PushText>
    decreases n,
{
    if n <= 0 {
        Seq::empty()
    } else {
        let before = event_pushes(ev, contacts, standings, tenant_url, n - 1);
        if contacts[n - 1].notify_push {
            before.push(event_push(ev, contacts[n - 1], standings, tenant_url))
        } else {
            before
        }
    }
}

/// The pushes that tell of the first `n` events.
pub open spec fn all_pushes(
    events: Seq<ScoreEvent>,
    contacts: Seq<Contact>,
    standings: Seq<char>,
    tenant_url: Seq<char>,
    n: int,
) -> Seq<PushText>
    decreases n,
{
    if n <= 0 {
        Seq::empty()
    } else {
        all_pushes(events, contacts, standings, tenant_url, n - 1) + event_pushes(
            events[n - 1],
            contacts,
            standings,
            tenant_url,
            contacts.len() as int,
        )
    }
}

fn push_event(
    out: &mut Vec<Push>,
    ev: &ScoreEvent,
    contacts: &Vec<Contact>,
    standings: &str,
    tenant_url: &str,
)
    ensures
        contents(final(out)@) == contents(old(out)@) + event_pushes(
            *ev,
            contacts@,
            standings@,
            tenant_url@,
            contacts@.len() as int,
        ),
{
    let ghost start = out@;
    let mut i: usize = 0;
    assert(contents(out@) =~= contents(start) + event_pushes(
        *ev,
        contacts@,
        standings@,
        tenant_url@,
        0,
    ));
    while i < contacts.len()
        invariant
            i <= contacts.len(),
            contents(out@) == contents(start) + event_pushes(
                *ev,
                contacts@,
                standings@,
                tenant_url@,
                i as int,
            ),
        decreases contacts.len() - i,
    {
        if contacts[i].notify_push {
            let loc: Locale = Locale::of_user(contacts[i].lang.as_str());
            let mut body: String = loc.f("Classement", "Standings").to_owned();
            body.append(": ");
            body.append(standings);
            let push: Push = Push {
                user_id: contacts[i].user_id,
                title: title(ev, loc),
                body,
                url: leaderboard_url(tenant_url),
            };
            let ghost before = out@;
            let ghost told = push.content();
            out.push(push);
            assert(contents(out@) =~= contents(before).push(told));
        }
        assert(contents(out@) =~= contents(start) + event_pushes(
            *ev,
            contacts@,
            standings@,
            tenant_url@,
            i + 1,
        ));
        i = i + 1;
    }
}

/// The pushes that tell the members of a space of some events, with the top of
/// their leaderboard.
pub fn live_score_for_tenant(
    events: &Vec<ScoreEvent>,
    contacts: &Vec<Contact>,
    board: &Vec<LeaderboardRow>,
    tenant_url: &str,
) -> (r: Vec<Push>)
    ensures
        contents(r@) == all_pushes(
            events@,
            contacts@,
            standings_text(board@, standings_len(board@)),
            tenant_url@,
            events@.len() as int,
        ),
{
    let standings: String = standings_line(board);
    let mut out: Vec<Push> = Vec::new();
    let mut i: usize = 0;
    assert(contents(out@) =~= all_pushes(events@, contacts@, standings@, tenant_url@, 0));
    while i < events.len()
        invariant
            i <= events.len(),
            contents(out@) == all_pushes(
                events@,
                contacts@,
                standings@,
                tenant_url@,
                i as int,
            ),
        decreases events.len() - i,
    {
        push_event(&mut out, &events[i], contacts, standings.as_str(), tenant_url);
        i = i + 1;
    }
    out
}

/// No score is told twice: right after a run there is nothing left to tell.
pub proof fn scores_are_told_once(
    matches: Seq<ScoreCandidate>,
    at: Timestamp,
    later: Timestamp,
)
    requires
        at.total() <= later.total(),
    ensures
        news(all_told(matches, at), later) == Seq::<ScoreCandidate>::empty(),
    decreases matches.len(),
{
    if matches.len() > 0 {
        let after = all_told(matches, at);
        assert(after.drop_last() =~= all_told(matches.drop_last(), at));
        scores_are_told_once(matches.drop_last(), at, later);
        assert(!after.last().considered(later));
    }
}

/// A match that was never told of only sets the base line.
pub proof fn first_sightings_are_silent(c: ScoreCandidate)
    requires
        c.last_pushed_status is None,
    ensures
        !c.newsworthy(),
        !c.told().changed(),
{
}

/// A match that is not on and kicked off longer ago is never told of, whatever
/// the feed changes.
pub proof fn old_matches_are_silent(matches: Seq<ScoreCandidate>, at: Timestamp)
    requires
        forall|i: int| 0 <= i < matches.len() ==> !(#[trigger] matches[i]).is_news(at),
    ensures
        news(matches, at) == Seq::<ScoreCandidate>::empty(),
        all_told(matches, at) == matches,
    decreases matches.len(),
{
    if matches.len() > 0 {
        let front = matches.drop_last();
        assert forall|i: int| 0 <= i < front.len() implies !(#[trigger] front[i]).is_news(at) by {
            assert(front[i] == matches[i]);
        }
        old_matches_are_silent(front, at);
        assert(!matches[matches.len() - 1].is_news(at));
    }
    assert(all_told(matches, at) =~= matches);
}

/// Kickoff, half time and the first 0-0 are no news.
pub proof fn status_changes_alone_are_silent(c: ScoreCandidate)
    requires
        c.home_score == c.last_pushed_home && c.away_score == c.last_pushed_away || (
        c.last_pushed_home is None && c.last_pushed_away is None && c.home_score == Some(0i32)
            && c.away_score == Some(0i32)),
        c.status@ != "FINISHED"@,
    ensures
        !c.newsworthy(),
{
}

/// Fewer goals than were told are a correction, never a goal.
pub proof fn corrections_are_no_goals(c: ScoreCandidate, ev: ScoreEvent, loc: Locale)
    requires
        c.newsworthy(),
        c.tells(ev),
        c.scored(),
        !c.ended(),
        goals(c.home_score) + goals(c.away_score) < goals(c.last_pushed_home) + goals(
            c.last_pushed_away,
        ),
    ensures
        title_text(ev, loc) == loc.pick("🚫 But refusé : "@, "🚫 Goal disallowed: "@)
            + score_text(ev),
{
}

/// Of a match that was told of before, a change of either side's score is told, as
/// long as both scores are known, and so is the end; the first 0-0 is not.
pub proof fn every_goal_is_told(c: ScoreCandidate)
    requires
        c.last_pushed_status is Some,
    ensures
        c.home_score is Some && c.away_score is Some && c.home_score != c.last_pushed_home && !(
        c.home_score->0 == 0 && c.away_score->0 == 0) ==> c.newsworthy(),
        c.home_score is Some && c.away_score is Some && c.away_score != c.last_pushed_away && !(
        c.home_score->0 == 0 && c.away_score->0 == 0) ==> c.newsworthy(),
        c.home_score is Some && c.away_score is Some && c.last_pushed_home is Some
            && c.home_score != c.last_pushed_home ==> c.newsworthy(),
        c.home_score is Some && c.away_score is Some && c.last_pushed_away is Some
            && c.away_score != c.last_pushed_away ==> c.newsworthy(),
        c.home_score is Some && c.away_score is Some && (c.last_pushed_home is Some
            || c.last_pushed_away is Some) && (c.home_score != c.last_pushed_home || c.away_score
            != c.last_pushed_away) ==> c.newsworthy(),
        c.status@ == "FINISHED"@ && c.last_pushed_status->0@ != "FINISHED"@ ==> c.newsworthy(),
        (c.home_score is None || c.away_score is None) && c.status@ != "FINISHED"@
            ==> !c.newsworthy(),
{
}

/// What is told of a match: its teams, both scores as they now are, whether it has
/// just ended, and whether the goals have become fewer.
pub proof fn events_carry_the_score(c: ScoreCandidate, ev: ScoreEvent)
    requires
        c.tells(ev),
    ensures
        ev.home_team == c.home_team,
        ev.away_team == c.away_team,
        c.home_score is Some ==> ev.home == c.home_score->0,
        c.away_score is Some ==> ev.away == c.away_score->0,
        ev.is_final <==> c.status@ == "FINISHED"@ && !(c.last_pushed_status is Some
            && c.last_pushed_status->0@ == "FINISHED"@),
        c.home_score is Some && c.away_score is Some && c.last_pushed_home is Some
            && c.last_pushed_away is Some ==> (ev.is_disallowed <==> c.home_score->0
            + c.away_score->0 < c.last_pushed_home->0 + c.last_pushed_away->0),
        c.home_score is None || c.away_score is None ==> !ev.is_disallowed,
{
}

/// Each match in turn is told of or not: it is, where it is on or kicked off no
/// more than six hours ago, and has a goal or its end to tell.
pub proof fn each_match_is_told_of_or_not(
    matches: Seq<ScoreCandidate>,
    c: ScoreCandidate,
    at: Timestamp,
)
    ensures
        ({
            let recent = c.status@ == "IN_PLAY"@ || c.status@ == "PAUSED"@ || (at.secs
                - c.kickoff_at.secs) * 1_000_000_000 + at.nanos - c.kickoff_at.nanos <= 6 * 3_600
                * 1_000_000_000;
            let all = news(matches.push(c), at);
            &&& recent && c.newsworthy() ==> all == news(matches, at).push(c)
            &&& !recent || !c.newsworthy() ==> all == news(matches, at)
            &&& news(Seq::empty(), at) == Seq::<ScoreCandidate>::empty()
        }),
{
    assert(matches.push(c).drop_last() =~= matches);
}

/// A recent match takes its present score and status as told, whether or not there
/// was something to tell; any other match stays as it was.
pub proof fn told_scores_are_remembered(matches: Seq<ScoreCandidate>, at: Timestamp, i: int)
    requires
        0 <= i < matches.len(),
    ensures
        ({
            let c = matches[i];
            let after = all_told(matches, at)[i];
            let recent = c.status@ == "IN_PLAY"@ || c.status@ == "PAUSED"@ || (at.secs
                - c.kickoff_at.secs) * 1_000_000_000 + at.nanos - c.kickoff_at.nanos <= 6 * 3_600
                * 1_000_000_000;
            &&& all_told(matches, at).len() == matches.len()
            &&& recent ==> after.last_pushed_home == c.home_score && after.last_pushed_away
                == c.away_score && after.last_pushed_status is Some
                && after.last_pushed_status->0@ == c.status@
            &&& !recent ==> after == c
            &&& after.id == c.id && after.home_team == c.home_team && after.away_team
                == c.away_team && after.kickoff_at == c.kickoff_at && after.home_score
                == c.home_score && after.away_score == c.away_score && after.status == c.status
        }),
{
}

proof fn pushes_of_a_prefix(
    ev: ScoreEvent,
    contacts: Seq<Contact>,
    c: Contact,
    standings: Seq<char>,
    tenant_url: Seq<char>,
    n: int,
)
    requires
        n <= contacts.len(),
    ensures
        event_pushes(ev, contacts.push(c), standings, tenant_url, n) == event_pushes(
            ev,
            contacts,
            standings,
            tenant_url,
            n,
        ),
    decreases n,
{
    if n > 0 {
        pushes_of_a_prefix(ev, contacts, c, standings, tenant_url, n - 1);
        assert(contacts.push(c)[n - 1] == contacts[n - 1]);
    }
}

/// Each member in turn is told of an event if they want pushes: with the score
/// under a title in their language, and the standings.
pub proof fn each_member_is_told_or_not(
    ev: ScoreEvent,
    contacts: Seq<Contact>,
    c: Contact,
    standings: Seq<char>,
    tenant_url: Seq<char>,
)
    ensures
        ({
            let n = contacts.len() as int;
            let before = event_pushes(ev, contacts, standings, tenant_url, n);
            let after = event_pushes(ev, contacts.push(c), standings, tenant_url, n + 1);
            &&& event_pushes(ev, Seq::empty(), standings, tenant_url, 0).len() == 0
            &&& !c.notify_push ==> after == before
            &&& c.notify_push ==> {
                &&& after == before.push(after.last())
                &&& after.last().user_id == c.user_id
                &&& after.last().url == tenant_url + "/leaderboard"@
                &&& c.lang@ == "fr"@ ==> after.last().title == title_text(ev, Locale::Fr)
                    && after.last().body == "Classement"@ + ": "@ + standings
                &&& c.lang@ != "fr"@ ==> after.last().title == title_text(ev, Locale::En)
                    && after.last().body == "Standings"@ + ": "@ + standings
            }
        }),
{
    pushes_of_a_prefix(ev, contacts, c, standings, tenant_url, contacts.len() as int);
    reveal_strlit("fr");
    reveal_strlit("en");
    assert("fr"@[0] != "en"@[0]);
}

/// The events are told one after the other, each to all.
pub proof fn events_are_told_in_turn(
    events: Seq<ScoreEvent>,
    contacts: Seq<Contact>,
    standings: Seq<char>,
    tenant_url: Seq<char>,
    n: int,
)
    requires
        0 <= n < events.len(),
    ensures
        all_pushes(events, contacts, standings, tenant_url, 0).len() == 0,
        all_pushes(events, contacts, standings, tenant_url, n + 1) == all_pushes(
            events,
            contacts,
            standings,
            tenant_url,
            n,
        ) + event_pushes(events[n], contacts, standings, tenant_url, contacts.len() as int),
{
}

/// A title says what happened and gives the teams with their scores: the end before
/// a correction, a correction before a goal.
pub proof fn titles_say_what_happened(ev: ScoreEvent)
    ensures
        ({
            let score = ev.home_team@ + " "@ + decimal(ev.home as int) + "-"@ + decimal(
                ev.away as int,
            ) + " "@ + ev.away_team@;
            &&& ev.is_final ==> title_text(ev, Locale::Fr) == "🏁 Score final : "@ + score
                && title_text(ev, Locale::En) == "🏁 Final score: "@ + score
            &&& !ev.is_final && ev.is_disallowed ==> title_text(ev, Locale::Fr)
                == "🚫 But refusé : "@ + score && title_text(ev, Locale::En)
                == "🚫 Goal disallowed: "@ + score
            &&& !ev.is_final && !ev.is_disallowed ==> title_text(ev, Locale::Fr) == "⚽ But ! "@
                + score && title_text(ev, Locale::En) == "⚽ Goal! "@ + score
        }),
{
}

/// The standings give the rank, the name and the points of the first five, in
/// their order.
pub proof fn standings_name_the_first_five(board: Seq<LeaderboardRow>, n: int)
    requires
        1 <= n < board.len(),
    ensures
        standings_len(board) <= 5,
        standings_len(board) <= board.len(),
        board.len() >= 5 ==> standings_len(board) == 5,
        board.len() < 5 ==> standings_len(board) == board.len(),
        standings_text(board, 1) == "1"@ + ". "@ + board[0].display_name@ + " "@ + decimal(
            board[0].points as int,
        ),
        standings_text(board, n + 1) == standings_text(board, n) + " · "@ + decimal(n + 1)
            + ". "@ + board[n].display_name@ + " "@ + decimal(board[n].points as int),
{
    reveal_strlit("1");
    reveal_with_fuel(standings_text, 2);
    assert(decimal(1) =~= "1"@);
    assert(standings_text(board, n) + " · "@ + standing_text(board[n], n + 1) =~= standings_text(
        board,
        n,
    ) + " · "@ + decimal(n + 1) + ". "@ + board[n].display_name@ + " "@ + decimal(
        board[n].points as int,
    ));
}

proof fn news_is_among_the_matches(matches: Seq<ScoreCandidate>, at: Timestamp, c: ScoreCandidate)
    ensures
        news(matches, at).contains(c) <==> matches.contains(c) && c.considered(at)
            && c.newsworthy(),
    decreases matches.len(),
{
    if matches.len() > 0 {
        let front = matches.drop_last();
        let last = matches.last();
        news_is_among_the_matches(front, at, c);
        assert(matches[matches.len() - 1] == last);
        let before = news(front, at);
        let all = news(matches, at);
        if matches.contains(c) {
            let k = choose|k: int| 0 <= k < matches.len() && matches[k] == c;
            if k < front.len() {
                assert(front[k] == c);
            }
        }
        if front.contains(c) {
            let k = choose|k: int| 0 <= k < front.len() && front[k] == c;
            assert(matches[k] == c);
        }
        if before.contains(c) {
            let k = choose|k: int| 0 <= k < before.len() && before[k] == c;
            assert(all[k] == c);
        }
        if all.contains(c) {
            let k = choose|k: int| 0 <= k < all.len() && all[k] == c;
            if k < before.len() {
                assert(before[k] == c);
            }
        }
        if all.len() > before.len() {
            assert(all[before.len() as int] == last);
        }
    }
}

/// An event tells the teams and both scores, on either side; a change of either score
/// of a match that was told of before is an event.
pub proof fn events_tell_of_either_side(c: &ScoreCandidate, r: Option<ScoreEvent>)
    requires
        call_ensures(ScoreCandidate::event, (c,), r),
    ensures
        r is Some ==> {
            &&& r->0.home_team == c.home_team
            &&& r->0.away_team == c.away_team
            &&& c.home_score is Some ==> r->0.home == c.home_score->0
            &&& c.away_score is Some ==> r->0.away == c.away_score->0
            &&& r->0.is_final <==> c.status@ == "FINISHED"@ && !(c.last_pushed_status is Some
                && c.last_pushed_status->0@ == "FINISHED"@)
        },
        c.last_pushed_status is Some && c.home_score is Some && c.away_score is Some && (
        c.last_pushed_home is Some || c.last_pushed_away is Some) && c.home_score
            != c.last_pushed_home ==> r is Some,
        c.last_pushed_status is Some && c.home_score is Some && c.away_score is Some && (
        c.last_pushed_home is Some || c.last_pushed_away is Some) && c.away_score
            != c.last_pushed_away ==> r is Some,
        c.last_pushed_status is Some && c.status@ == "FINISHED"@ && c.last_pushed_status->0@
            != "FINISHED"@ ==> r is Some,
        c.last_pushed_status is None ==> r is None,
{
    if c.last_pushed_status is Some {
        every_goal_is_told(*c);
    }
    if r is Some {
        events_carry_the_score(*c, r->0);
    }
}

/// A run tells of every change of a score, on either side, of a match that is on or
/// recent and was told of before; and it remembers what it told.
pub proof fn runs_tell_every_change(
    matches: &mut Vec<ScoreCandidate>,
    at: Timestamp,
    r: Vec<ScoreEvent>,
    i: int,
)
    requires
        call_ensures(send_live_score_updates, (matches, at), r),
        0 <= i < old(matches)@.len(),
    ensures
        final(matches)@.len() == old(matches)@.len(),
        ({
            let c = old(matches)@[i];
            let after = final(matches)@[i];
            let recent = c.status@ == "IN_PLAY"@ || c.status@ == "PAUSED"@ || (at.secs
                - c.kickoff_at.secs) * 1_000_000_000 + at.nanos - c.kickoff_at.nanos <= 6 * 3_600
                * 1_000_000_000;
            let changed = c.home_score != c.last_pushed_home || c.away_score != c.last_pushed_away;
            &&& recent && c.last_pushed_status is Some && c.home_score is Some && c.away_score
                is Some && (c.last_pushed_home is Some || c.last_pushed_away is Some) && changed
                ==> exists|e: int|
                0 <= e < r@.len() && (#[trigger] r@[e]).home_team == c.home_team && r@[e].away_team
                    == c.away_team && r@[e].home == c.home_score->0 && r@[e].away
                    == c.away_score->0
            &&& recent ==> after.last_pushed_home == c.home_score && after.last_pushed_away
                == c.away_score && after.last_pushed_status is Some && after.last_pushed_status->0@
                == c.status@
            &&& !recent ==> after == c
        }),
{
    let c = old(matches)@[i];
    told_scores_are_remembered(old(matches)@, at, i);
    news_is_among_the_matches(old(matches)@, at, c);
    assert(old(matches)@.contains(c));
    if c.last_pushed_status is Some {
        every_goal_is_told(c);
    }
    let told = news(old(matches)@, at);
    if told.contains(c) {
        let e = choose|e: int| 0 <= e < told.len() && told[e] == c;
        assert(told[e].tells(r@[e]));
        assert(r@[e].home_team == c.home_team);
    }
}

/// Every event comes from a match of the list that is on or recent, with its teams and
/// its scores.
pub proof fn events_come_from_the_matches(
    matches: &mut Vec<ScoreCandidate>,
    at: Timestamp,
    r: Vec<ScoreEvent>,
    e: int,
)
    requires
        call_ensures(send_live_score_updates, (matches, at), r),
        0 <= e < r@.len(),
    ensures
        exists|i: int|
            {
                let c = old(matches)@[i];
                &&& 0 <= i < old(matches)@.len()
                &&& (#[trigger] old(matches)@[i]).last_pushed_status is Some
                &&& c.is_news(at)
                &&& r@[e].home_team == c.home_team
                &&& r@[e].away_team == c.away_team
                &&& c.home_score is Some ==> r@[e].home == c.home_score->0
                &&& c.away_score is Some ==> r@[e].away == c.away_score->0
            },
{
    let told = news(old(matches)@, at);
    let c = told[e];
    assert(c.tells(r@[e]));
    assert(told.contains(c));
    news_is_among_the_matches(old(matches)@, at, c);
    let i = choose|i: int| 0 <= i < old(matches)@.len() && old(matches)@[i] == c;
    assert(old(matches)@[i].last_pushed_status is Some);
}

proof fn pushes_of_an_event(
    ev: ScoreEvent,
    contacts: Seq<Contact>,
    standings: Seq<char>,
    tenant_url: Seq<char>,
    n: int,
    p: PushText,
)
    requires
        n <= contacts.len(),
    ensures
        event_pushes(ev, contacts, standings, tenant_url, n).contains(p) <==> exists|c: int|
            0 <= c < n && (#[trigger] contacts[c]).notify_push && p == event_push(
                ev,
                contacts[c],
                standings,
                tenant_url,
            ),
    decreases n,
{
    if n > 0 {
        pushes_of_an_event(ev, contacts, standings, tenant_url, n - 1, p);
        let before = event_pushes(ev, contacts, standings, tenant_url, n - 1);
        let all = event_pushes(ev, contacts, standings, tenant_url, n);
        if before.contains(p) {
            let k = choose|k: int| 0 <= k < before.len() && before[k] == p;
            assert(all[k] == p);
        }
        if contacts[n - 1].notify_push {
            assert(all[before.len() as int] == event_push(
                ev,
                contacts[n - 1],
                standings,
                tenant_url,
            ));
        }
        if all.contains(p) {
            let k = choose|k: int| 0 <= k < all.len() && all[k] == p;
            if k < before.len() {
                assert(before[k] == p);
            }
        }
    }
}

proof fn pushes_of_all_events(
    events: Seq<ScoreEvent>,
    contacts: Seq<Contact>,
    standings: Seq<char>,
    tenant_url: Seq<char>,
    n: int,
    p: PushText,
)
    requires
        n <= events.len(),
    ensures
        all_pushes(events, contacts, standings, tenant_url, n).contains(p) <==> exists|e: int|
            0 <= e < n && event_pushes(
                #[trigger] events[e],
                contacts,
                standings,
                tenant_url,
                contacts.len() as int,
            ).contains(p),
    decreases n,
{
    if n > 0 {
        pushes_of_all_events(events, contacts, standings, tenant_url, n - 1, p);
        let before = all_pushes(events, contacts, standings, tenant_url, n - 1);
        let more = event_pushes(
            events[n - 1],
            contacts,
            standings,
            tenant_url,
            contacts.len() as int,
        );
        let all = all_pushes(events, contacts, standings, tenant_url, n);
        if before.contains(p) {
            let k = choose|k: int| 0 <= k < before.len() && before[k] == p;
            assert(all[k] == p);
        }
        if more.contains(p) {
            let k = choose|k: int| 0 <= k < more.len() && more[k] == p;
            assert(all[before.len() + k] == p);
        }
        if all.contains(p) {
            let k = choose|k: int| 0 <= k < all.len() && all[k] == p;
            if k < before.len() {
                assert(before[k] == p);
            } else {
                assert(more[k - before.len()] == p);
            }
        }
    }
}

/// Every member who wants pushes gets one for each event, in their language; and a push
/// goes to no one else.
pub proof fn members_get_a_push_for_each_event(
    events: &Vec<ScoreEvent>,
    contacts: &Vec<Contact>,
    board: &Vec<LeaderboardRow>,
    tenant_url: &str,
    r: Vec<Push>,
    e: int,
    c: int,
    p: int,
)
    requires
        call_ensures(live_score_for_tenant, (events, contacts, board, tenant_url), r),
    ensures
        0 <= e < events@.len() && 0 <= c < contacts@.len() && contacts@[c].notify_push
            ==> exists|k: int|
            0 <= k < r@.len() && (#[trigger] r@[k]).user_id == contacts@[c].user_id && r@[k].title@
                == title_text(events@[e], user_locale(contacts@[c].lang@)) && r@[k].url@
                == tenant_url@ + "/leaderboard"@ && r@[k].body@ == user_locale(
                contacts@[c].lang@,
            ).pick("Classement"@, "Standings"@) + ": "@ + standings_text(
                board@,
                standings_len(board@),
            ),
        0 <= p < r@.len() ==> exists|e: int, c: int|
            0 <= e < events@.len() && 0 <= c < contacts@.len() && (
            #[trigger] contacts@[c]).notify_push && r@[p].user_id == contacts@[c].user_id
                && r@[p].title@ == title_text(
                #[trigger] events@[e],
                user_locale(contacts@[c].lang@),
            ),
{
    let line = standings_text(board@, standings_len(board@));
    let all = contents(r@);
    let (n, m) = (events@.len() as int, contacts@.len() as int);
    if 0 <= e < n && 0 <= c < m && contacts@[c].notify_push {
        let push = event_push(events@[e], contacts@[c], line, tenant_url@);
        pushes_of_an_event(events@[e], contacts@, line, tenant_url@, m, push);
        pushes_of_all_events(events@, contacts@, line, tenant_url@, n, push);
        let k = choose|k: int| 0 <= k < all.len() && all[k] == push;
        assert(r@[k].content() == push);
        assert(r@[k].user_id == contacts@[c].user_id);
    }
    if 0 <= p < r@.len() {
        let push = all[p];
        assert(r@[p].content() == push);
        assert(all.contains(push));
        pushes_of_all_events(events@, contacts@, line, tenant_url@, n, push);
        let e = choose|e: int|
            0 <= e < n && event_pushes(
                #[trigger] events@[e],
                contacts@,
                line,
                tenant_url@,
                contacts@.len() as int,
            ).contains(push);
        pushes_of_an_event(events@[e], contacts@, line, tenant_url@, m, push);
        let c = choose|c: int|
            0 <= c < m && (#[trigger] contacts@[c]).notify_push && push == event_push(
                events@[e],
                contacts@[c],
                line,
                tenant_url@,
            );
        assert(contacts@[c].notify_push && r@[p].title@ == title_text(
            events@[e],
            user_locale(contacts@[c].lang@),
        ));
    }
}

/// A score that is not known counts as no goals, in an event as in the comparison with
/// what was told before.
pub proof fn unknown_scores_count_as_none(c: ScoreCandidate, ev: ScoreEvent)
    requires
        c.tells(ev),
    ensures
        c.home_score is None ==> ev.home == 0,
        c.away_score is None ==> ev.away == 0,
        c.home_score is Some && c.away_score is Some && c.last_pushed_home is Some
            && c.last_pushed_away is None && c.last_pushed_home != c.home_score ==> (
        ev.is_disallowed <==> c.home_score->0 + c.away_score->0 < c.last_pushed_home->0),
        c.home_score is Some && c.away_score is Some && c.last_pushed_home is None
            && c.last_pushed_away is Some && c.last_pushed_away != c.away_score ==> (
        ev.is_disallowed <==> c.home_score->0 + c.away_score->0 < c.last_pushed_away->0),
        c.home_score is Some && c.away_score is Some && c.home_score->0 >= 0 && c.away_score->0 >= 0
            && c.last_pushed_home is None && c.last_pushed_away is None ==> !ev.is_disallowed,
{
}

/// Whether the goals of a match add up within the range of numbers; ordinary ones do.
pub proof fn ordinary_goals_add_up(c: &ScoreCandidate, r: bool)
    requires
        call_ensures(ScoreCandidate::is_countable, (c,), r),
    ensures
        0 <= goals(c.home_score) <= 1_000_000_000 && 0 <= goals(c.away_score) <= 1_000_000_000 && 0
            <= goals(c.last_pushed_home) <= 1_000_000_000 && 0 <= goals(c.last_pushed_away)
            <= 1_000_000_000 ==> r,
        goals(None) == 0,
        c.home_score is Some ==> goals(c.home_score) == c.home_score->0,
{
}

} // verus!
