//! The two daily mails: yesterday's results, and today's matches.
use vstd::prelude::*;

use crate::bets::{
    bet_position, find_own_bet, one_bet_per_match, own_bet, own_bets_are_found, position_bounds,
    Member,
};
use crate::clock::{amsterdam_clock, amsterdam_text, long_label, Day, Timestamp, DAY, HOUR};
use crate::i18n::{others_read_english, user_locale, Locale};
use crate::leaderboard::{Highlight, LeaderboardRow};
use crate::matchday::{
    in_matchday, matchdays_do_not_overlap, matchdays_run_from_afternoon_to_morning, window, ENDS_AT,
    STARTS_AT,
};
use crate::models::{
    by_kickoff, copy_opt, earlier_matches_come_first, find_match, kickoffs, match_with_id,
    matches_are_found_by_id, order_by_kickoff, Match, Prediction,
};
use crate::notifications::Contact;
use crate::ordering::{by_time_is_a_sorted_permutation, positions};
use crate::text::str_eq;
use crate::today::{show_standings, standings, Standing};

verus! {

/// How long past the end of a matchday the results wait for a game that is
/// still on.
pub const DIGEST_COMPLETION_GRACE_HOURS: i64 = 4;

/// Whether a match of a matchday has kicked off and has no final result.
pub open spec fn pending(m: Match, day: Day, at: Timestamp) -> bool {
    in_matchday(day, m.kickoff_at) && m.kickoff_at.le(at) && !m.decided()
}

/// Whether the results of a matchday have to wait: a game of it is still on, and
/// the time to wait has not run out.
pub open spec fn deferred(day: Day, matches: Seq<Match>, at: Timestamp) -> bool {
    &&& at.lt(day.at(DAY + ENDS_AT + DIGEST_COMPLETION_GRACE_HOURS * HOUR))
    &&& exists|i: int| 0 <= i < matches.len() && pending(#[trigger] matches[i], day, at)
}

/// Whether a match belongs to a matchday and has a final result.
pub open spec fn is_result(m: Match, day: Day) -> bool {
    in_matchday(day, m.kickoff_at) && m.decided()
}

fn in_window(m: &Match, start: Timestamp, end: Timestamp) -> (r: bool)
    ensures
        r == (start.le(m.kickoff_at) && m.kickoff_at.lt(end)),
{
    !m.kickoff_at.before(start) && m.kickoff_at.before(end)
}

fn must_wait(day: Day, matches: &Vec<Match>, at: Timestamp) -> (r: bool)
    ensures
        r == deferred(day, matches@, at),
{
    let (start, end) = window(day);
    let limit: Timestamp = Timestamp {
        secs: end.secs + DIGEST_COMPLETION_GRACE_HOURS * HOUR,
        nanos: end.nanos,
    };
    assert(limit == day.at(DAY + ENDS_AT + DIGEST_COMPLETION_GRACE_HOURS * HOUR));
    if !at.before(limit) {
        return false;
    }
    let mut i: usize = 0;
    while i < matches.len()
        invariant
            i <= matches.len(),
            start == day.at(STARTS_AT as int),
            end == day.at(DAY + ENDS_AT),
            at.lt(day.at(DAY + ENDS_AT + DIGEST_COMPLETION_GRACE_HOURS * HOUR)),
            forall|k: int| 0 <= k < i ==> !pending(#[trigger] matches@[k], day, at),
        decreases matches.len() - i,
    {
        if in_window(&matches[i], start, end) && !at.before(matches[i].kickoff_at)
            && !matches[i].has_final_result() {
            assert(pending(matches@[i as int], day, at));
            return true;
        }
        i = i + 1;
    }
    false
}

/// The positions, among some, of a matchday's results.
pub open spec fn results_among(order: Seq<int>, matches: Seq<Match>, day: Day) -> Seq<int>
    decreases order.len(),
{
    if order.len() == 0 {
        Seq::empty()
    } else {
        let before = results_among(order.drop_last(), matches, day);
        if is_result(matches[order.last()], day) {
            before.push(order.last())
        } else {
            before
        }
    }
}

/// The positions of a matchday's results, earliest kickoff first.
pub open spec fn results_of(matches: Seq<Match>, day: Day) -> Seq<int> {
    results_among(by_kickoff(matches), matches, day)
}

/// A result as the digest shows it.
#[derive(Debug)]
pub struct DigestResult {
    pub home: String,
    pub away: String,
    pub home_score: i32,
    pub away_score: i32,
    pub group: Option<String>,
}

impl DigestResult {
    /// Whether this shows the result of a match.
    pub open spec fn shows(self, m: Match) -> bool {
        &&& self.home == m.home_team
        &&& self.away == m.away_team
        &&& Some(self.home_score) == m.home_score
        &&& Some(self.away_score) == m.away_score
        &&& self.group == m.group_name
    }
}

/// Whether some results show the matches at some positions, one each.
pub open spec fn show_all(
    results: Seq<DigestResult>,
    matches: Seq<Match>,
    order: Seq<int>,
) -> bool {
    &&& results.len() == order.len()
    &&& forall|i: int| 0 <= i < results.len() ==> (#[trigger] results[i]).shows(matches[order[i]])
}

fn digest_results(day: Day, matches: &Vec<Match>) -> (r: Vec<DigestResult>)
    ensures
        show_all(r@, matches@, results_of(matches@, day)),
{
    let (start, end) = window(day);
    let order: Vec<usize> = order_by_kickoff(matches);
    let ghost all = positions(order@);
    let mut out: Vec<DigestResult> = Vec::new();
    let mut i: usize = 0;
    while i < order.len()
        invariant
            i <= order.len(),
            all == positions(order@),
            start == day.at(STARTS_AT as int),
            end == day.at(DAY + ENDS_AT),
            forall|k: int| 0 <= k < order@.len() ==> (#[trigger] order@[k]) < matches@.len(),
            show_all(out@, matches@, results_among(all.take(i as int), matches@, day)),
        decreases order.len() - i,
    {
        assert(all.take(i + 1).drop_last() =~= all.take(i as int));
        assert(all.take(i + 1).last() == order@[i as int]);
        let m: &Match = &matches[order[i]];
        if in_window(m, start, end) && str_eq(m.status.as_str(), "FINISHED") {
            if let (Some(home_score), Some(away_score)) = (m.home_score, m.away_score) {
                out.push(
                    DigestResult {
                        home: m.home_team.clone(),
                        away: m.away_team.clone(),
                        home_score,
                        away_score,
                        group: copy_opt(&m.group_name),
                    },
                );
            }
        }
        i = i + 1;
    }
    assert(all.take(all.len() as int) =~= all);
    out
}

/// What to do about the results of a matchday.
#[derive(Debug)]
pub enum DigestPlan {
    /// Try again later: a game is still on.
    Defer,
    /// There is no result.
    Skip,
    /// Send these results.
    Send(Vec<DigestResult>),
}

/// What to do about the results of a matchday at an instant. When forced, the
/// results do not wait.
pub fn send_daily_digest(day: Day, matches: &Vec<Match>, at: Timestamp, force: bool) -> (r:
    DigestPlan)
    ensures
        match r {
            DigestPlan::Defer => !force && deferred(day, matches@, at),
            DigestPlan::Skip => (force || !deferred(day, matches@, at)) && results_of(
                matches@,
                day,
            ).len() == 0,
            DigestPlan::Send(results) => (force || !deferred(day, matches@, at)) && results@.len()
                > 0 && show_all(results@, matches@, results_of(matches@, day)),
        },
{
    if !force && must_wait(day, matches, at) {
        return DigestPlan::Defer;
    }
    let results: Vec<DigestResult> = digest_results(day, matches);
    if results.len() == 0 {
        return DigestPlan::Skip;
    }
    DigestPlan::Send(results)
}

/// A daily mail that a space was sent.
#[derive(Clone, Copy, PartialEq, Eq, Debug, Structural)]
pub struct Sent {
    pub tenant_id: u128,
    pub day: Day,
}

fn was_sent(log: &Vec<Sent>, entry: Sent) -> (r: bool)
    ensures
        r == log@.contains(entry),
{
    let mut i: usize = 0;
    while i < log.len()
        invariant
            i <= log.len(),
            forall|k: int| 0 <= k < i ==> log@[k] != entry,
        decreases log.len() - i,
    {
        if log[i] == entry {
            assert(log@[i as int] == entry);
            return true;
        }
        i = i + 1;
    }
    false
}

/// Whether a space is to be sent the mail of a day: it was not sent before, or it
/// is to be sent again.
pub open spec fn owed(log: Seq<Sent>, entry: Sent, force: bool) -> bool {
    force || !log.contains(entry)
}

/// The log of a daily mail with one more entry.
pub open spec fn logged(log: Seq<Sent>, entry: Sent) -> Seq<Sent> {
    if log.contains(entry) {
        log
    } else {
        log.push(entry)
    }
}

/// Records that a space was sent the mail of a day, once.
pub fn mark_sent(log: &mut Vec<Sent>, entry: Sent)
    ensures
        final(log)@ == logged(old(log)@, entry),
{
    if !was_sent(log, entry) {
        log.push(entry);
    }
}

/// Whether a prediction earned its player points on a matchday.
pub open spec fn counts(
    p: Prediction,
    tenant_id: u128,
    user: u128,
    matches: Seq<Match>,
    day: Day,
) -> bool {
    &&& p.tenant_id == tenant_id
    &&& p.user_id == user
    &&& p.points is Some
    &&& match match_with_id(matches, p.match_id) {
        Some(m) => m.status@ == "FINISHED"@ && in_matchday(day, m.kickoff_at),
        None => false,
    }
}

/// The points a player earned on a matchday.
pub open spec fn day_total(
    book: Seq<Prediction>,
    tenant_id: u128,
    user: u128,
    matches: Seq<Match>,
    day: Day,
) -> int
    decreases book.len(),
{
    if book.len() == 0 {
        0
    } else {
        day_total(book.drop_last(), tenant_id, user, matches, day) + if counts(
            book.last(),
            tenant_id,
            user,
            matches,
            day,
        ) {
            book.last().points->0 as int
        } else {
            0
        }
    }
}

/// Whether a sum of points can be told.
pub open spec fn fits(total: int) -> bool {
    i64::MIN <= total <= i64::MAX
}

/// Whether the points of a day can be told to all on a leaderboard.
pub open spec fn day_fits(
    book: Seq<Prediction>,
    tenant_id: u128,
    board: Seq<LeaderboardRow>,
    matches: Seq<Match>,
    day: Day,
) -> bool {
    forall|i: int|
        0 <= i < board.len() ==> fits(
            day_total(book, tenant_id, (#[trigger] board[i]).user_id, matches, day),
        )
}

/// Whether the points of a day can be told to all on a leaderboard.
pub fn is_day_tellable(
    book: &Vec<Prediction>,
    tenant_id: u128,
    board: &Vec<LeaderboardRow>,
    matches: &Vec<Match>,
    day: Day,
) -> (r: bool)
    ensures
        r == day_fits(book@, tenant_id, board@, matches@, day),
{
    let mut i: usize = 0;
    while i < board.len()
        invariant
            i <= board.len(),
            forall|k: int|
                0 <= k < i ==> fits(
                    day_total(book@, tenant_id, (#[trigger] board@[k]).user_id, matches@, day),
                ),
        decreases board.len() - i,
    {
        let total: i128 = sum_day(book, tenant_id, board[i].user_id, matches, day);
        if total < i64::MIN as i128 || total > i64::MAX as i128 {
            assert(!fits(day_total(book@, tenant_id, board@[i as int].user_id, matches@, day)));
            return false;
        }
        i = i + 1;
    }
    true
}

/// The points a player earned on a matchday.
pub fn day_points(
    book: &Vec<Prediction>,
    tenant_id: u128,
    user: u128,
    matches: &Vec<Match>,
    day: Day,
) -> (r: i64)
    requires
        fits(day_total(book@, tenant_id, user, matches@, day)),
    ensures
        r == day_total(book@, tenant_id, user, matches@, day),
{
    sum_day(book, tenant_id, user, matches, day) as i64
}

fn sum_day(
    book: &Vec<Prediction>,
    tenant_id: u128,
    user: u128,
    matches: &Vec<Match>,
    day: Day,
) -> (r: i128)
    ensures
        r == day_total(book@, tenant_id, user, matches@, day),
{
    let (start, end) = window(day);
    let mut total: i128 = 0;
    let mut i: usize = 0;
    while i < book.len()
        invariant
            i <= book.len(),
            start == day.at(STARTS_AT as int),
            end == day.at(DAY + ENDS_AT),
            total == day_total(book@.take(i as int), tenant_id, user, matches@, day),
            -0x8000_0000 * i <= total <= 0x7fff_ffff * i,
        decreases book.len() - i,
    {
        assert(book@.take(i + 1).drop_last() =~= book@.take(i as int));
        let p: Prediction = book[i];
        if p.tenant_id == tenant_id && p.user_id == user {
            if let Some(points) = p.points {
                if let Some(m) = find_match(matches, p.match_id) {
                    if str_eq(m.status.as_str(), "FINISHED") && in_window(m, start, end) {
                        total = total + points as i128;
                    }
                }
            }
        }
        i = i + 1;
    }
    assert(book@.take(book@.len() as int) =~= book@);
    total
}

/// How to reach a player: the last entry that is theirs.
pub open spec fn contact_of(contacts: Seq<Contact>, user: u128) -> Option<Contact>
    decreases contacts.len(),
{
    if contacts.len() == 0 {
        None
    } else if contacts.last().user_id == user {
        Some(contacts.last())
    } else {
        contact_of(contacts.drop_last(), user)
    }
}

fn find_contact(contacts: &Vec<Contact>, user: u128) -> (r: Option<&Contact>)
    ensures
        match r {
            Some(c) => contact_of(contacts@, user) == Some(*c),
            None => contact_of(contacts@, user) is None,
        },
{
    let mut i: usize = contacts.len();
    assert(contacts@.take(i as int) =~= contacts@);
    while i > 0
        invariant
            i <= contacts.len(),
            contact_of(contacts@, user) == contact_of(contacts@.take(i as int), user),
        decreases i,
    {
        assert(contacts@.take(i as int).last() == contacts@[i - 1]);
        assert(contacts@.take(i as int).drop_last() =~= contacts@.take(i - 1));
        if contacts[i - 1].user_id == user {
            return Some(&contacts[i - 1]);
        }
        i = i - 1;
    }
    None
}

/// The best player of the day as the digest names them.
#[derive(Debug)]
pub struct DigestPotd {
    pub name: String,
    pub points: i64,
}

/// Whether the best player of the day is named, where there is one.
pub open spec fn names_best(shown: Option<DigestPotd>, best: Option<Highlight>) -> bool {
    match best {
        Some(b) => shown is Some && shown->0.name == b.display_name && shown->0.points == b.points,
        None => shown is None,
    }
}

fn name_best(best: &Option<Highlight>) -> (r: Option<DigestPotd>)
    ensures
        names_best(r, *best),
{
    match best {
        Some(b) => Some(DigestPotd { name: b.display_name.clone(), points: b.points }),
        None => None,
    }
}

/// The digest as one player gets it.
#[derive(Debug)]
pub struct DigestMail {
    pub user_id: u128,
    pub email: String,
    pub loc: Locale,
    pub day_label: String,
    /// The points of the day.
    pub my_points: i64,
    pub rank: usize,
    /// The points on the leaderboard.
    pub total_points: i64,
    pub best: Option<DigestPotd>,
    pub standings: Vec<Standing>,
}

impl DigestMail {
    /// Whether this tells a day to the player at a position of the leaderboard.
    pub open spec fn tells(
        self,
        board: Seq<LeaderboardRow>,
        i: int,
        contacts: Seq<Contact>,
        best: Option<Highlight>,
        day: Day,
        points: int,
    ) -> bool {
        let row = board[i];
        let contact = contact_of(contacts, row.user_id)->0;
        &&& self.user_id == row.user_id
        &&& self.email == contact.email
        &&& self.loc == user_locale(contact.lang@)
        &&& self.day_label@ == long_label(day)
        &&& self.my_points == points
        &&& self.rank == i + 1
        &&& self.total_points == row.points
        &&& names_best(self.best, best)
        &&& show_standings(self.standings@, board, row.user_id)
    }
}

/// The positions, among the first `n` of a leaderboard, of players who can be
/// reached.
pub open spec fn reachable(board: Seq<LeaderboardRow>, contacts: Seq<Contact>, n: int) -> Seq<int>
    decreases n,
{
    if n <= 0 {
        Seq::empty()
    } else {
        let before = reachable(board, contacts, n - 1);
        if contact_of(contacts, board[n - 1].user_id) is Some {
            before.push(n - 1)
        } else {
            before
        }
    }
}

/// Whether some mails tell a day to the players at some positions, one each.
pub open spec fn digest_all(
    mails: Seq<DigestMail>,
    to: Seq<int>,
    board: Seq<LeaderboardRow>,
    contacts: Seq<Contact>,
    best: Option<Highlight>,
    tenant_id: u128,
    book: Seq<Prediction>,
    matches: Seq<Match>,
    day: Day,
) -> bool {
    &&& mails.len() == to.len()
    &&& forall|i: int|
        0 <= i < mails.len() ==> (#[trigger] mails[i]).tells(
            board,
            to[i],
            contacts,
            best,
            day,
            day_total(book, tenant_id, board[to[i]].user_id, matches, day),
        )
}

/// The digest of a day for a space's players, or nothing when the space was sent
/// it before (unless forced) or has no leaderboard.
pub fn digest_for_tenant(
    entry: Sent,
    log: &Vec<Sent>,
    board: &Vec<LeaderboardRow>,
    contacts: &Vec<Contact>,
    best: &Option<Highlight>,
    book: &Vec<Prediction>,
    matches: &Vec<Match>,
    force: bool,
) -> (r: Option<Vec<DigestMail>>)
    requires
        entry.day.valid(),
        owed(log@, entry, force) ==> day_fits(
            book@,
            entry.tenant_id,
            board@,
            matches@,
            entry.day,
        ),
    ensures
        match r {
            None => !owed(log@, entry, force) || board@.len() == 0,
            Some(mails) => {
                &&& owed(log@, entry, force)
                &&& board@.len() > 0
                &&& digest_all(
                    mails@,
                    reachable(board@, contacts@, board@.len() as int),
                    board@,
                    contacts@,
                    *best,
                    entry.tenant_id,
                    book@,
                    matches@,
                    entry.day,
                )
            },
        },
{
    if !force && was_sent(log, entry) {
        return None;
    }
    if board.len() == 0 {
        return None;
    }
    let mut out: Vec<DigestMail> = Vec::new();
    let mut i: usize = 0;
    while i < board.len()
        invariant
            i <= board.len(),
            entry.day.valid(),
            day_fits(book@, entry.tenant_id, board@, matches@, entry.day),
            digest_all(
                out@,
                reachable(board@, contacts@, i as int),
                board@,
                contacts@,
                *best,
                entry.tenant_id,
                book@,
                matches@,
                entry.day,
            ),
        decreases board.len() - i,
    {
        let me: u128 = board[i].user_id;
        if let Some(contact) = find_contact(contacts, me) {
            let mail: DigestMail = DigestMail {
                user_id: me,
                email: contact.email.clone(),
                loc: Locale::of_user(contact.lang.as_str()),
                day_label: entry.day.label(),
                my_points: day_points(book, entry.tenant_id, me, matches, entry.day),
                rank: i + 1,
                total_points: board[i].points,
                best: name_best(best),
                standings: standings(board, me),
            };
            out.push(mail);
        }
        i = i + 1;
    }
    Some(out)
}

/// The positions, among some, of a matchday's matches.
pub open spec fn slate_among(order: Seq<int>, matches: Seq<Match>, day: Day) -> Seq<int>
    decreases order.len(),
{
    if order.len() == 0 {
        Seq::empty()
    } else {
        let before = slate_among(order.drop_last(), matches, day);
        if in_matchday(day, matches[order.last()].kickoff_at) {
            before.push(order.last())
        } else {
            before
        }
    }
}

/// The positions of a matchday's matches, earliest kickoff first.
pub open spec fn slate_of(matches: Seq<Match>, day: Day) -> Seq<int> {
    slate_among(by_kickoff(matches), matches, day)
}

/// The matches of a matchday, as positions, earliest kickoff first. With none
/// there is nothing to announce.
pub fn send_today_matches(day: Day, matches: &Vec<Match>) -> (r: Vec<usize>)
    ensures
        positions(r@) == slate_of(matches@, day),
        forall|k: int|
            0 <= k < r@.len() ==> (#[trigger] r@[k]) < matches@.len() && in_matchday(
                day,
                matches@[r@[k] as int].kickoff_at,
            ),
{
    let (start, end) = window(day);
    let order: Vec<usize> = order_by_kickoff(matches);
    let ghost all = positions(order@);
    let mut out: Vec<usize> = Vec::new();
    let mut i: usize = 0;
    assert(positions(out@) =~= slate_among(all.take(0), matches@, day));
    while i < order.len()
        invariant
            i <= order.len(),
            all == positions(order@),
            start == day.at(STARTS_AT as int),
            end == day.at(DAY + ENDS_AT),
            forall|k: int| 0 <= k < order@.len() ==> (#[trigger] order@[k]) < matches@.len(),
            forall|k: int|
                0 <= k < out@.len() ==> (#[trigger] out@[k]) < matches@.len() && in_matchday(
                    day,
                    matches@[out@[k] as int].kickoff_at,
                ),
            positions(out@) == slate_among(all.take(i as int), matches@, day),
        decreases order.len() - i,
    {
        assert(all.take(i + 1).drop_last() =~= all.take(i as int));
        assert(all.take(i + 1).last() == order@[i as int]);
        if in_window(&matches[order[i]], start, end) {
            let ghost before = out@;
            out.push(order[i]);
            assert(positions(out@) =~= positions(before).push(order@[i as int] as int));
        }
        i = i + 1;
    }
    assert(all.take(all.len() as int) =~= all);
    out
}

/// A predicted score.
#[derive(Clone, Copy, PartialEq, Eq, Debug, Structural)]
pub struct ScorePair {
    pub home: i32,
    pub away: i32,
}

/// A match of the day as the mail shows it to a player.
#[derive(Debug)]
pub struct TodayMatch {
    pub home: String,
    pub away: String,
    pub kickoff_local: String,
    pub bet: Option<ScorePair>,
}

impl TodayMatch {
    /// Whether this shows a match to a player with the given prediction.
    pub open spec fn shows(self, m: Match, bet: Option<Prediction>) -> bool {
        &&& self.home == m.home_team
        &&& self.away == m.away_team
        &&& self.kickoff_local@ == amsterdam_text(m.kickoff_at.secs as int)
        &&& self.bet == match bet {
            Some(p) => Some(ScorePair { home: p.home_score, away: p.away_score }),
            None => None,
        }
    }
}

/// The mail about the day's matches as one player gets it.
#[derive(Debug)]
pub struct TodayMail {
    pub user_id: u128,
    pub email: String,
    pub loc: Locale,
    pub day_label: String,
    pub matches: Vec<TodayMatch>,
}

impl TodayMail {
    /// Whether this shows the matches at some positions to a player.
    pub open spec fn tells(
        self,
        contact: Contact,
        tenant_id: u128,
        day: Day,
        slate: Seq<int>,
        matches: Seq<Match>,
        book: Seq<Prediction>,
    ) -> bool {
        &&& self.user_id == contact.user_id
        &&& self.email == contact.email
        &&& self.loc == user_locale(contact.lang@)
        &&& self.day_label@ == long_label(day)
        &&& self.matches@.len() == slate.len()
        &&& forall|i: int|
            0 <= i < slate.len() ==> (#[trigger] self.matches@[i]).shows(
                matches[slate[i]],
                own_bet(
                    book,
                    Member { tenant_id, user_id: contact.user_id },
                    matches[slate[i]].id,
                ),
            )
    }
}

fn today_mail(
    contact: &Contact,
    tenant_id: u128,
    day: Day,
    slate: &Vec<usize>,
    matches: &Vec<Match>,
    book: &Vec<Prediction>,
) -> (r: TodayMail)
    requires
        day.valid(),
        forall|k: int|
            0 <= k < slate@.len() ==> (#[trigger] slate@[k]) < matches@.len()
                && matches@[slate@[k] as int].kickoff_at.valid(),
    ensures
        r.tells(*contact, tenant_id, day, positions(slate@), matches@, book@),
{
    let who: Member = Member { tenant_id, user_id: contact.user_id };
    let mut out: Vec<TodayMatch> = Vec::new();
    let mut i: usize = 0;
    while i < slate.len()
        invariant
            i <= slate.len(),
            who == (Member { tenant_id, user_id: contact.user_id }),
            forall|k: int|
                0 <= k < slate@.len() ==> (#[trigger] slate@[k]) < matches@.len()
                    && matches@[slate@[k] as int].kickoff_at.valid(),
            out@.len() == i,
            forall|k: int|
                0 <= k < i ==> (#[trigger] out@[k]).shows(
                    matches@[positions(slate@)[k]],
                    own_bet(book@, who, matches@[positions(slate@)[k]].id),
                ),
        decreases slate.len() - i,
    {
        let m: &Match = &matches[slate[i]];
        let bet: Option<ScorePair> = match find_own_bet(book, who, m.id) {
            Some(p) => Some(ScorePair { home: p.home_score, away: p.away_score }),
            None => None,
        };
        out.push(
            TodayMatch {
                home: m.home_team.clone(),
                away: m.away_team.clone(),
                kickoff_local: amsterdam_clock(m.kickoff_at),
                bet,
            },
        );
        i = i + 1;
    }
    TodayMail {
        user_id: contact.user_id,
        email: contact.email.clone(),
        loc: Locale::of_user(contact.lang.as_str()),
        day_label: day.label(),
        matches: out,
    }
}

/// Whether some mails show the day's matches to some members, one each.
pub open spec fn preview_all(
    mails: Seq<TodayMail>,
    contacts: Seq<Contact>,
    tenant_id: u128,
    day: Day,
    slate: Seq<int>,
    matches: Seq<Match>,
    book: Seq<Prediction>,
) -> bool {
    &&& mails.len() == contacts.len()
    &&& forall|i: int|
        0 <= i < mails.len() ==> (#[trigger] mails[i]).tells(
            contacts[i],
            tenant_id,
            day,
            slate,
            matches,
            book,
        )
}

/// The mails about the day's matches to a space's members, or nothing when the
/// space was sent them before (unless forced) or has no members.
pub fn today_matches_for_tenant(
    entry: Sent,
    log: &Vec<Sent>,
    contacts: &Vec<Contact>,
    slate: &Vec<usize>,
    matches: &Vec<Match>,
    book: &Vec<Prediction>,
    force: bool,
) -> (r: Option<Vec<TodayMail>>)
    requires
        entry.day.valid(),
        forall|k: int|
            0 <= k < slate@.len() ==> (#[trigger] slate@[k]) < matches@.len()
                && matches@[slate@[k] as int].kickoff_at.valid(),
    ensures
        match r {
            None => !owed(log@, entry, force) || contacts@.len() == 0,
            Some(mails) => {
                &&& owed(log@, entry, force)
                &&& contacts@.len() > 0
                &&& mails@.len() == contacts@.len()
                &&& forall|i: int|
                    0 <= i < mails@.len() ==> (#[trigger] mails@[i]).tells(
                        contacts@[i],
                        entry.tenant_id,
                        entry.day,
                        positions(slate@),
                        matches@,
                        book@,
                    )
                &&& preview_all(
                    mails@,
                    contacts@,
                    entry.tenant_id,
                    entry.day,
                    positions(slate@),
                    matches@,
                    book@,
                )
            },
        },
{
    if !force && was_sent(log, entry) {
        return None;
    }
    if contacts.len() == 0 {
        return None;
    }
    let mut out: Vec<TodayMail> = Vec::new();
    let mut i: usize = 0;
    while i < contacts.len()
        invariant
            i <= contacts.len(),
            entry.day.valid(),
            forall|k: int|
                0 <= k < slate@.len() ==> (#[trigger] slate@[k]) < matches@.len()
                    && matches@[slate@[k] as int].kickoff_at.valid(),
            out@.len() == i,
            forall|k: int|
                0 <= k < i ==> (#[trigger] out@[k]).tells(
                    contacts@[k],
                    entry.tenant_id,
                    entry.day,
                    positions(slate@),
                    matches@,
                    book@,
                ),
        decreases contacts.len() - i,
    {
        out.push(today_mail(&contacts[i], entry.tenant_id, entry.day, slate, matches, book));
        i = i + 1;
    }
    Some(out)
}

/// Once a space was sent the mail of a day it is not sent it again, unless forced,
/// which leaves the log as it is; the mails of other spaces and days are still
/// owed.
pub proof fn mails_are_sent_once(log: Seq<Sent>, entry: Sent, other: Sent, force: bool)
    requires
        log.no_duplicates(),
        other != entry,
    ensures
        !owed(logged(log, entry), entry, false),
        owed(logged(log, entry), entry, true),
        logged(logged(log, entry), entry) == logged(log, entry),
        logged(log, entry).no_duplicates(),
        owed(logged(log, entry), other, force) == owed(log, other, force),
{
    let after = logged(log, entry);
    if !log.contains(entry) {
        assert(after.last() == entry);
        assert(after.contains(other) <==> log.contains(other)) by {
            if log.contains(other) {
                let i = choose|i: int| 0 <= i < log.len() && log[i] == other;
                assert(after[i] == other);
            }
            if after.contains(other) {
                let i = choose|i: int| 0 <= i < after.len() && after[i] == other;
                assert(log[i] == other);
            }
        }
    }
}

/// The results never wait once the time to wait has run out, nor when every game
/// that has kicked off has its final result.
pub proof fn waiting_ends(day: Day, matches: Seq<Match>, at: Timestamp)
    requires
        day.at(DAY + ENDS_AT + DIGEST_COMPLETION_GRACE_HOURS * HOUR).le(at) || forall|i: int|
            0 <= i < matches.len() && in_matchday(day, (#[trigger] matches[i]).kickoff_at)
                && matches[i].kickoff_at.le(at) ==> matches[i].decided(),
    ensures
        !deferred(day, matches, at),
{
}

/// The results of a matchday are exactly its matches with a final result.
pub proof fn all_results_are_listed(order: Seq<int>, matches: Seq<Match>, day: Day, i: int)
    ensures
        results_among(order, matches, day).contains(i) <==> order.contains(i) && is_result(
            matches[i],
            day,
        ),
    decreases order.len(),
{
    let listed = results_among(order, matches, day);
    if order.len() > 0 {
        let front = order.drop_last();
        let before = results_among(front, matches, day);
        all_results_are_listed(front, matches, day, i);
        if listed.contains(i) {
            let k = choose|k: int| 0 <= k < listed.len() && listed[k] == i;
            if k < before.len() {
                assert(before[k] == i);
                let j = choose|j: int| 0 <= j < front.len() && front[j] == i;
                assert(order[j] == i);
            } else {
                assert(order[order.len() - 1] == i);
            }
        }
        if order.contains(i) && is_result(matches[i], day) {
            let j = choose|j: int| 0 <= j < order.len() && order[j] == i;
            if j < front.len() {
                assert(front[j] == i);
                let k = choose|k: int| 0 <= k < before.len() && before[k] == i;
                assert(listed[k] == i);
            } else {
                assert(listed.last() == i);
            }
        }
    }
}

/// No result is told on two days.
pub proof fn results_belong_to_one_day(m: Match, a: Day, b: Day)
    requires
        is_result(m, a),
        is_result(m, b),
    ensures
        a == b,
{
    matchdays_do_not_overlap(a, b, m.kickoff_at);
}

/// The results of a day wait exactly as long as a game of its matchday that has
/// kicked off is not finished with both scores known, and no longer than until
/// 10:00 in the morning, in UTC.
pub proof fn results_wait_for_games_that_are_on(day: Day, matches: Seq<Match>, at: Timestamp)
    ensures
        ({
            let waiting = exists|i: int|
                0 <= i < matches.len() && in_matchday(day, (#[trigger] matches[i]).kickoff_at)
                    && matches[i].kickoff_at.le(at) && !(matches[i].status@ == "FINISHED"@
                    && matches[i].home_score is Some && matches[i].away_score is Some);
            deferred(day, matches, at) <==> waiting && at.secs < (day.num + 1) * 86_400 + 10
                * 3_600
        }),
{
    if deferred(day, matches, at) {
        let i = choose|i: int| 0 <= i < matches.len() && pending(#[trigger] matches[i], day, at);
        assert(in_matchday(day, matches[i].kickoff_at));
    }
    if exists|i: int|
        0 <= i < matches.len() && in_matchday(day, (#[trigger] matches[i]).kickoff_at)
            && matches[i].kickoff_at.le(at) && !(matches[i].status@ == "FINISHED"@
            && matches[i].home_score is Some && matches[i].away_score is Some) {
        let i = choose|i: int|
            0 <= i < matches.len() && in_matchday(day, (#[trigger] matches[i]).kickoff_at)
                && matches[i].kickoff_at.le(at) && !(matches[i].status@ == "FINISHED"@
                && matches[i].home_score is Some && matches[i].away_score is Some);
        assert(pending(matches[i], day, at));
    }
}

/// Each match in turn is among the results of a day if it was played on its
/// matchday and is finished with both scores known, and among its matches if it
/// kicks off then.
pub proof fn each_match_is_listed_or_not(order: Seq<int>, next: int, matches: Seq<Match>, day: Day)
    ensures
        ({
            let m = matches[next];
            let on_day = day.num * 86_400 + 13 * 3_600 <= m.kickoff_at.secs < (day.num + 1) * 86_400
                + 6 * 3_600;
            let over = m.status@ == "FINISHED"@ && m.home_score is Some && m.away_score is Some;
            let results = results_among(order.push(next), matches, day);
            let slate = slate_among(order.push(next), matches, day);
            &&& results_among(Seq::empty(), matches, day).len() == 0
            &&& slate_among(Seq::empty(), matches, day).len() == 0
            &&& on_day && over ==> results == results_among(order, matches, day).push(next)
            &&& !on_day || !over ==> results == results_among(order, matches, day)
            &&& on_day ==> slate == slate_among(order, matches, day).push(next)
            &&& !on_day ==> slate == slate_among(order, matches, day)
        }),
{
    assert(order.push(next).drop_last() =~= order);
    matchdays_run_from_afternoon_to_morning(day, matches[next].kickoff_at);
}

/// A result is shown with both teams and both scores, and its group.
pub proof fn results_show_the_score(r: DigestResult, m: Match)
    requires
        r.shows(m),
    ensures
        r.home@ == m.home_team@,
        r.away@ == m.away_team@,
        m.home_score == Some(r.home_score),
        m.away_score == Some(r.away_score),
        r.group == m.group_name,
{
}

/// Each prediction in turn adds its points to the day of its player: where it was
/// placed in this space, has points, and is on a finished match of the matchday.
pub proof fn each_prediction_adds_its_points(
    book: Seq<Prediction>,
    p: Prediction,
    tenant_id: u128,
    user: u128,
    matches: Seq<Match>,
    day: Day,
    f: int,
)
    requires
        0 <= f < matches.len(),
        matches[f].id == p.match_id,
        forall|j: int| 0 <= j < f ==> (#[trigger] matches[j]).id != p.match_id,
    ensures
        ({
            let before = day_total(book, tenant_id, user, matches, day);
            let after = day_total(book.push(p), tenant_id, user, matches, day);
            let m = matches[f];
            let adds = p.tenant_id == tenant_id && p.user_id == user && p.points is Some
                && m.status@ == "FINISHED"@ && day.num * 86_400 + 13 * 3_600 <= m.kickoff_at.secs < (
            day.num + 1) * 86_400 + 6 * 3_600;
            &&& day_total(Seq::empty(), tenant_id, user, matches, day) == 0
            &&& adds ==> after == before + p.points->0
            &&& !adds ==> after == before
        }),
{
    assert(book.push(p).drop_last() =~= book);
    matches_are_found_by_id(matches, p.match_id);
    matchdays_run_from_afternoon_to_morning(day, matches[f].kickoff_at);
}

/// How to reach a player is found, where each is listed once; someone who is not
/// listed cannot be reached.
pub proof fn contacts_are_found(contacts: Seq<Contact>, user: u128, i: int)
    ensures
        0 <= i < contacts.len() && contacts[i].user_id == user && (forall|k: int|
            i < k < contacts.len() ==> (#[trigger] contacts[k]).user_id != user) ==> contact_of(
            contacts,
            user,
        ) == Some(contacts[i]),
        (forall|k: int| 0 <= k < contacts.len() ==> (#[trigger] contacts[k]).user_id != user)
            ==> contact_of(contacts, user) is None,
    decreases contacts.len(),
{
    if contacts.len() > 0 && contacts.last().user_id != user {
        let front = contacts.drop_last();
        contacts_are_found(front, user, i);
        assert(contacts[contacts.len() - 1].user_id != user);
        if 0 <= i && (forall|k: int|
            i < k < contacts.len() ==> (#[trigger] contacts[k]).user_id != user) {
            assert forall|k: int| i < k < front.len() implies (#[trigger] front[k]).user_id
                != user by {
                assert(front[k] == contacts[k]);
            }
        }
        if forall|k: int| 0 <= k < contacts.len() ==> (#[trigger] contacts[k]).user_id != user {
            assert forall|k: int| 0 <= k < front.len() implies (#[trigger] front[k]).user_id
                != user by {
                assert(front[k] == contacts[k]);
            }
        }
    } else if contacts.len() > 0 {
        assert(contacts[contacts.len() - 1].user_id == user);
    }
}

/// Each line of the leaderboard in turn gets a mail if its player can be reached.
pub proof fn each_line_gets_a_mail_or_not(
    board: Seq<LeaderboardRow>,
    contacts: Seq<Contact>,
    n: int,
)
    requires
        0 <= n < board.len(),
    ensures
        ({
            let before = reachable(board, contacts, n);
            let after = reachable(board, contacts, n + 1);
            let listed = exists|k: int|
                0 <= k < contacts.len() && (#[trigger] contacts[k]).user_id == board[n].user_id;
            &&& reachable(board, contacts, 0).len() == 0
            &&& listed ==> after == before.push(n)
            &&& !listed ==> after == before
        }),
{
    contacts_are_found(contacts, board[n].user_id, 0);
    contact_is_listed(contacts, board[n].user_id);
}

proof fn contact_is_listed(contacts: Seq<Contact>, user: u128)
    ensures
        contact_of(contacts, user) is Some <==> exists|k: int|
            0 <= k < contacts.len() && (#[trigger] contacts[k]).user_id == user,
    decreases contacts.len(),
{
    if contacts.len() > 0 {
        let front = contacts.drop_last();
        contact_is_listed(front, user);
        if contacts.last().user_id == user {
            assert(contacts[contacts.len() - 1].user_id == user);
        } else {
            if exists|k: int| 0 <= k < front.len() && (#[trigger] front[k]).user_id == user {
                let k = choose|k: int|
                    0 <= k < front.len() && (#[trigger] front[k]).user_id == user;
                assert(contacts[k].user_id == user);
            }
            if exists|k: int| 0 <= k < contacts.len() && (#[trigger] contacts[k]).user_id == user {
                let k = choose|k: int|
                    0 <= k < contacts.len() && (#[trigger] contacts[k]).user_id == user;
                assert(front[k].user_id == user);
            }
        }
    }
}

/// A digest goes to the player of its line, at their own address and in their
/// language, and tells their points of the day, their place, their points in all,
/// the best player, and the top ten with their own line marked.
pub proof fn digests_tell_the_day(
    mail: DigestMail,
    board: Seq<LeaderboardRow>,
    i: int,
    contacts: Seq<Contact>,
    best: Option<Highlight>,
    day: Day,
    points: int,
    k: int,
    l: int,
)
    requires
        mail.tells(board, i, contacts, best, day, points),
        0 <= i < board.len(),
        0 <= k < contacts.len(),
        contacts[k].user_id == board[i].user_id,
        forall|j: int|
            k < j < contacts.len() ==> (#[trigger] contacts[j]).user_id != board[i].user_id,
        0 <= l < mail.standings@.len(),
    ensures
        mail.user_id == board[i].user_id,
        mail.email@ == contacts[k].email@,
        contacts[k].lang@ == "fr"@ ==> mail.loc == Locale::Fr,
        contacts[k].lang@ != "fr"@ ==> mail.loc == Locale::En,
        mail.day_label@ == long_label(day),
        mail.my_points == points,
        mail.rank == i + 1,
        mail.total_points == board[i].points,
        best is Some ==> mail.best is Some && mail.best->0.name@ == best->0.display_name@
            && mail.best->0.points == best->0.points,
        best is None ==> mail.best is None,
        board.len() >= 10 ==> mail.standings@.len() == 10,
        board.len() < 10 ==> mail.standings@.len() == board.len(),
        mail.standings@[l].rank == l + 1,
        mail.standings@[l].name@ == board[l].display_name@,
        mail.standings@[l].points == board[l].points,
        mail.standings@[l].is_me <==> board[l].user_id == board[i].user_id,
{
    contacts_are_found(contacts, board[i].user_id, k);
    others_read_english(contacts[k].lang@);
}

/// The mail about the day's matches goes to the member's own address and shows each
/// match with their own bet on it, if they have one in this space.
pub proof fn previews_show_the_bets(
    mail: TodayMail,
    contact: Contact,
    tenant_id: u128,
    day: Day,
    slate: Seq<int>,
    matches: Seq<Match>,
    book: Seq<Prediction>,
    i: int,
    j: int,
)
    requires
        mail.tells(contact, tenant_id, day, slate, matches, book),
        one_bet_per_match(book),
        0 <= i < slate.len(),
    ensures
        mail.user_id == contact.user_id,
        mail.email@ == contact.email@,
        contact.lang@ == "fr"@ ==> mail.loc == Locale::Fr,
        contact.lang@ != "fr"@ ==> mail.loc == Locale::En,
        mail.day_label@ == long_label(day),
        mail.matches@.len() == slate.len(),
        mail.matches@[i].home@ == matches[slate[i]].home_team@,
        mail.matches@[i].away@ == matches[slate[i]].away_team@,
        mail.matches@[i].kickoff_local@ == amsterdam_text(matches[slate[i]].kickoff_at.secs as int),
        0 <= j < book.len() && book[j].user_id == contact.user_id && book[j].tenant_id == tenant_id
            && book[j].match_id == matches[slate[i]].id ==> mail.matches@[i].bet is Some
            && mail.matches@[i].bet->0.home == book[j].home_score && mail.matches@[i].bet->0.away
            == book[j].away_score,
        (forall|k: int|
            0 <= k < book.len() ==> !((#[trigger] book[k]).user_id == contact.user_id
                && book[k].tenant_id == tenant_id && book[k].match_id == matches[slate[i]].id))
            ==> mail.matches@[i].bet is None,
{
    let who = Member { tenant_id, user_id: contact.user_id };
    let id = matches[slate[i]].id;
    assert(mail.matches@[i].shows(matches[slate[i]], own_bet(book, who, id)));
    own_bets_are_found(book, who, id, j);
    position_bounds(book, contact.user_id, id);
    others_read_english(contact.lang@);
    if own_bet(book, who, id) is Some {
        let k = bet_position(book, contact.user_id, id);
        assert(book[k].user_id == contact.user_id);
    }
}

/// The mail about the results waits while a game of the day is on, unless it is forced;
/// it then shows every finished match of the day, with its score.
pub proof fn digests_show_every_result(
    day: Day,
    matches: &Vec<Match>,
    at: Timestamp,
    force: bool,
    r: DigestPlan,
    i: int,
)
    requires
        call_ensures(send_daily_digest, (day, matches, at, force), r),
        0 <= i < matches@.len(),
        day.num * 86_400 + 13 * 3_600 <= matches@[i].kickoff_at.secs < (day.num + 1) * 86_400 + 6
            * 3_600,
        matches@[i].status@ == "FINISHED"@,
        matches@[i].home_score is Some,
        matches@[i].away_score is Some,
    ensures
        r is Defer <==> !force && deferred(day, matches@, at),
        !(r is Defer) ==> r is Send && exists|k: int|
            0 <= k < r->Send_0@.len() && (#[trigger] r->Send_0@[k]).home@ == matches@[i].home_team@
                && r->Send_0@[k].away@ == matches@[i].away_team@ && r->Send_0@[k].home_score
                == matches@[i].home_score->0 && r->Send_0@[k].away_score
                == matches@[i].away_score->0,
{
    let order = by_kickoff(matches@);
    let listed = results_of(matches@, day);
    matchdays_run_from_afternoon_to_morning(day, matches@[i].kickoff_at);
    all_results_are_listed(order, matches@, day, i);
    by_time_is_a_sorted_permutation(kickoffs(matches@));
    assert(order.contains(i));
    let k = choose|k: int| 0 <= k < listed.len() && listed[k] == i;
    if r is Send {
        assert(r->Send_0@[k].shows(matches@[listed[k]]));
        assert(r->Send_0@[k].home@ == matches@[i].home_team@);
    }
}

/// The mail about the results shows nothing else: each line is a finished match of the
/// day.
pub proof fn digests_show_results_only(
    day: Day,
    matches: &Vec<Match>,
    at: Timestamp,
    force: bool,
    r: DigestPlan,
    k: int,
)
    requires
        call_ensures(send_daily_digest, (day, matches, at, force), r),
        r is Send,
        0 <= k < r->Send_0@.len(),
    ensures
        exists|i: int|
            {
                &&& 0 <= i < matches@.len()
                &&& (#[trigger] matches@[i]).status@ == "FINISHED"@
                &&& in_matchday(day, matches@[i].kickoff_at)
                &&& r->Send_0@[k].home@ == matches@[i].home_team@
                &&& r->Send_0@[k].away@ == matches@[i].away_team@
                &&& Some(r->Send_0@[k].home_score) == matches@[i].home_score
                &&& Some(r->Send_0@[k].away_score) == matches@[i].away_score
            },
{
    let order = by_kickoff(matches@);
    let listed = results_of(matches@, day);
    let i = listed[k];
    assert(r->Send_0@[k].shows(matches@[listed[k]]));
    assert(listed.contains(i));
    all_results_are_listed(order, matches@, day, i);
    by_time_is_a_sorted_permutation(kickoffs(matches@));
    assert(order.contains(i));
    assert(matches@[i].status@ == "FINISHED"@);
}

proof fn reachable_lines_are_listed(
    board: Seq<LeaderboardRow>,
    contacts: Seq<Contact>,
    n: int,
    i: int,
)
    ensures
        reachable(board, contacts, n).contains(i) <==> 0 <= i < n && contact_of(
            contacts,
            board[i].user_id,
        ) is Some,
    decreases n,
{
    if n > 0 {
        reachable_lines_are_listed(board, contacts, n - 1, i);
        let before = reachable(board, contacts, n - 1);
        let all = reachable(board, contacts, n);
        if before.contains(i) {
            let k = choose|k: int| 0 <= k < before.len() && before[k] == i;
            assert(all[k] == i);
        }
        if all.contains(i) {
            let k = choose|k: int| 0 <= k < all.len() && all[k] == i;
            if k < before.len() {
                assert(before[k] == i);
            }
        }
        if contact_of(contacts, board[n - 1].user_id) is Some {
            assert(all[before.len() as int] == n - 1);
        }
    }
}

/// Each player on the leaderboard who can be reached gets the digest, once a day, with
/// their own points of the day, their place and their points in all.
pub proof fn players_get_their_digest(
    entry: Sent,
    log: &Vec<Sent>,
    board: &Vec<LeaderboardRow>,
    contacts: &Vec<Contact>,
    best: &Option<Highlight>,
    book: &Vec<Prediction>,
    matches: &Vec<Match>,
    force: bool,
    r: Option<Vec<DigestMail>>,
    n: int,
    c: int,
)
    requires
        call_ensures(
            digest_for_tenant,
            (entry, log, board, contacts, best, book, matches, force),
            r,
        ),
        0 <= n < board@.len(),
        0 <= c < contacts@.len(),
        contacts@[c].user_id == board@[n].user_id,
        forall|j: int|
            c < j < contacts@.len() ==> (#[trigger] contacts@[j]).user_id != board@[n].user_id,
    ensures
        r is Some <==> force || !log@.contains(entry),
        r is Some ==> exists|k: int|
            {
                &&& 0 <= k < r->0@.len()
                &&& (#[trigger] r->0@[k]).user_id == board@[n].user_id
                &&& r->0@[k].email@ == contacts@[c].email@
                &&& contacts@[c].lang@ == "fr"@ ==> r->0@[k].loc == Locale::Fr
                &&& contacts@[c].lang@ != "fr"@ ==> r->0@[k].loc == Locale::En
                &&& r->0@[k].day_label@ == long_label(entry.day)
                &&& r->0@[k].rank == n + 1
                &&& r->0@[k].total_points == board@[n].points
                &&& names_best(r->0@[k].best, *best)
                &&& show_standings(r->0@[k].standings@, board@, board@[n].user_id)
                &&& r->0@[k].my_points == day_total(
                    book@,
                    entry.tenant_id,
                    board@[n].user_id,
                    matches@,
                    entry.day,
                )
            },
{
    let to = reachable(board@, contacts@, board@.len() as int);
    contacts_are_found(contacts@, board@[n].user_id, c);
    others_read_english(contacts@[c].lang@);
    reachable_lines_are_listed(board@, contacts@, board@.len() as int, n);
    let k = choose|k: int| 0 <= k < to.len() && to[k] == n;
    if r is Some {
        let points = day_total(book@, entry.tenant_id, board@[to[k]].user_id, matches@, entry.day);
        assert(r->0@[k].tells(board@, to[k], contacts@, *best, entry.day, points));
        assert(r->0@[k].user_id == board@[n].user_id);
    }
}

/// Sending is recorded once.
pub proof fn sending_is_recorded(log: &mut Vec<Sent>, entry: Sent, r: ())
    requires
        call_ensures(mark_sent, (log, entry), r),
    ensures
        old(log)@.contains(entry) ==> final(log)@ == old(log)@,
        !old(log)@.contains(entry) ==> final(log)@ == old(log)@.push(entry),
{
}

proof fn matches_of_the_day_are_listed(order: Seq<int>, matches: Seq<Match>, day: Day, i: int)
    ensures
        slate_among(order, matches, day).contains(i) <==> order.contains(i) && in_matchday(
            day,
            matches[i].kickoff_at,
        ),
    decreases order.len(),
{
    if order.len() > 0 {
        let front = order.drop_last();
        matches_of_the_day_are_listed(front, matches, day, i);
        assert(order[order.len() - 1] == order.last());
        let before = slate_among(front, matches, day);
        let all = slate_among(order, matches, day);
        if order.contains(i) {
            let k = choose|k: int| 0 <= k < order.len() && order[k] == i;
            if k < front.len() {
                assert(front[k] == i);
            }
        }
        if front.contains(i) {
            let k = choose|k: int| 0 <= k < front.len() && front[k] == i;
            assert(order[k] == i);
        }
        if before.contains(i) {
            let k = choose|k: int| 0 <= k < before.len() && before[k] == i;
            assert(all[k] == i);
        }
        if all.contains(i) {
            let k = choose|k: int| 0 <= k < all.len() && all[k] == i;
            if k < before.len() {
                assert(before[k] == i);
            }
        }
        if all.len() > before.len() {
            assert(all[before.len() as int] == order.last());
        }
    }
}

/// The matches of a day are exactly those that kick off from 13:00 on it to 06:00 on
/// the next, in UTC.
pub proof fn slates_hold_the_matches_of_the_day(matches: Seq<Match>, day: Day, i: int)
    ensures
        slate_of(matches, day).contains(i) <==> 0 <= i < matches.len() && day.num * 86_400 + 13
            * 3_600 <= matches[i].kickoff_at.secs < (day.num + 1) * 86_400 + 6 * 3_600,
{
    matches_of_the_day_are_listed(by_kickoff(matches), matches, day, i);
    matchdays_run_from_afternoon_to_morning(day, matches[i].kickoff_at);
    by_time_is_a_sorted_permutation(kickoffs(matches));
}

/// The mail about the day's matches is about exactly those.
pub proof fn previews_list_the_matches_of_the_day(
    day: Day,
    matches: &Vec<Match>,
    r: Vec<usize>,
    i: int,
)
    requires
        call_ensures(send_today_matches, (day, matches), r),
        0 <= i < matches@.len(),
    ensures
        (exists|k: int| 0 <= k < r@.len() && #[trigger] r@[k] == i) <==> day.num * 86_400 + 13
            * 3_600 <= matches@[i].kickoff_at.secs < (day.num + 1) * 86_400 + 6 * 3_600,
{
    let slate = slate_of(matches@, day);
    slates_hold_the_matches_of_the_day(matches@, day, i);
    if slate.contains(i) {
        let k = choose|k: int| 0 <= k < slate.len() && slate[k] == i;
        assert(positions(r@)[k] == r@[k]);
        assert(r@[k] == i);
    }
    if exists|k: int| 0 <= k < r@.len() && #[trigger] r@[k] == i {
        let k = choose|k: int| 0 <= k < r@.len() && #[trigger] r@[k] == i;
        assert(positions(r@)[k] == i);
        assert(slate[k] == i);
    }
}

/// Each member gets the day's matches, once a day, each with their own bet on it.
pub proof fn members_get_their_preview(
    entry: Sent,
    log: &Vec<Sent>,
    contacts: &Vec<Contact>,
    slate: &Vec<usize>,
    matches: &Vec<Match>,
    book: &Vec<Prediction>,
    force: bool,
    r: Option<Vec<TodayMail>>,
    c: int,
    i: int,
    j: int,
)
    requires
        call_ensures(
            today_matches_for_tenant,
            (entry, log, contacts, slate, matches, book, force),
            r,
        ),
        one_bet_per_match(book@),
        0 <= c < contacts@.len(),
        0 <= i < slate@.len(),
        0 <= j < book@.len(),
        book@[j].user_id == contacts@[c].user_id,
        book@[j].tenant_id == entry.tenant_id,
        book@[j].match_id == matches@[slate@[i] as int].id,
    ensures
        r is Some <==> force || !log@.contains(entry),
        r is Some ==> {
            let m = matches@[slate@[i] as int];
            &&& r->0@.len() == contacts@.len()
            &&& r->0@[c].user_id == contacts@[c].user_id
            &&& r->0@[c].email@ == contacts@[c].email@
            &&& r->0@[c].matches@.len() == slate@.len()
            &&& r->0@[c].matches@[i].home@ == m.home_team@
            &&& r->0@[c].matches@[i].away@ == m.away_team@
            &&& r->0@[c].matches@[i].bet is Some
            &&& r->0@[c].matches@[i].bet->0.home == book@[j].home_score
            &&& r->0@[c].matches@[i].bet->0.away == book@[j].away_score
        },
{
    if r is Some {
        let at = positions(slate@);
        assert(at[i] == slate@[i]);
        assert(r->0@[c].tells(contacts@[c], entry.tenant_id, entry.day, at, matches@, book@));
        previews_show_the_bets(
            r->0@[c],
            contacts@[c],
            entry.tenant_id,
            entry.day,
            at,
            matches@,
            book@,
            i,
            j,
        );
    }
}

/// A day without a result is not told of.
pub proof fn days_without_results_are_skipped(
    day: Day,
    matches: &Vec<Match>,
    at: Timestamp,
    force: bool,
    r: DigestPlan,
)
    requires
        call_ensures(send_daily_digest, (day, matches, at, force), r),
    ensures
        (forall|i: int|
            0 <= i < matches@.len() ==> !((#[trigger] matches@[i]).status@ == "FINISHED"@
                && in_matchday(day, matches@[i].kickoff_at))) ==> !(r is Send),
        force ==> !(r is Defer),
        r is Send ==> r->Send_0@.len() > 0,
{
    let listed = results_of(matches@, day);
    if r is Send {
        digests_show_results_only(day, matches, at, force, r, 0);
    }
}

/// A day can be told of where everyone's points of it fit the range of numbers, and
/// they are then given.
pub proof fn points_of_a_day_are_given(
    book: &Vec<Prediction>,
    tenant_id: u128,
    board: &Vec<LeaderboardRow>,
    matches: &Vec<Match>,
    day: Day,
    tellable: bool,
    user: u128,
    points: i64,
)
    requires
        call_ensures(is_day_tellable, (book, tenant_id, board, matches, day), tellable),
        call_ensures(day_points, (book, tenant_id, user, matches, day), points),
    ensures
        tellable <==> forall|i: int|
            0 <= i < board@.len() ==> -0x8000_0000_0000_0000 <= day_total(
                book@,
                tenant_id,
                (#[trigger] board@[i]).user_id,
                matches@,
                day,
            ) <= 0x7fff_ffff_ffff_ffff,
        points == day_total(book@, tenant_id, user, matches@, day),
{
}

proof fn results_are_listed_in_turn(
    order: Seq<int>,
    matches: Seq<Match>,
    day: Day,
    a: int,
    b: int,
) -> (at: (int, int))
    requires
        0 <= a < b < results_among(order, matches, day).len(),
    ensures
        ({
            let (i, j) = at;
            &&& 0 <= i < j < order.len()
            &&& order[i] == results_among(order, matches, day)[a]
            &&& order[j] == results_among(order, matches, day)[b]
        }),
    decreases order.len(),
{
    let front = order.drop_last();
    let before = results_among(front, matches, day);
    if b < before.len() {
        results_are_listed_in_turn(front, matches, day, a, b)
    } else {
        assert(before.contains(before[a]));
        all_results_are_listed(front, matches, day, before[a]);
        let i = choose|i: int| 0 <= i < front.len() && front[i] == before[a];
        assert(order[i] == before[a]);
        (i, order.len() - 1)
    }
}

proof fn slates_are_listed_in_turn(
    order: Seq<int>,
    matches: Seq<Match>,
    day: Day,
    a: int,
    b: int,
) -> (at: (int, int))
    requires
        0 <= a < b < slate_among(order, matches, day).len(),
    ensures
        ({
            let (i, j) = at;
            &&& 0 <= i < j < order.len()
            &&& order[i] == slate_among(order, matches, day)[a]
            &&& order[j] == slate_among(order, matches, day)[b]
        }),
    decreases order.len(),
{
    let front = order.drop_last();
    let before = slate_among(front, matches, day);
    if b < before.len() {
        slates_are_listed_in_turn(front, matches, day, a, b)
    } else {
        assert(before.contains(before[a]));
        matches_of_the_day_are_listed(front, matches, day, before[a]);
        let i = choose|i: int| 0 <= i < front.len() && front[i] == before[a];
        assert(order[i] == before[a]);
        (i, order.len() - 1)
    }
}

/// The results of a day come in order of kickoff, each once.
pub proof fn results_come_in_order_of_kickoff(matches: Seq<Match>, day: Day, a: int, b: int)
    requires
        0 <= a < b < results_of(matches, day).len(),
    ensures
        ({
            let (i, j) = (results_of(matches, day)[a], results_of(matches, day)[b]);
            let (first, second) = (matches[i].kickoff_at, matches[j].kickoff_at);
            first.secs < second.secs || (first.secs == second.secs && first.nanos < second.nanos)
                || (first == second && i < j)
        }),
{
    let (i, j) = results_are_listed_in_turn(by_kickoff(matches), matches, day, a, b);
    by_time_is_a_sorted_permutation(kickoffs(matches));
    earlier_matches_come_first(matches, i, j);
}

/// The matches of a day come in order of kickoff, each once.
pub proof fn slates_come_in_order_of_kickoff(matches: Seq<Match>, day: Day, a: int, b: int)
    requires
        0 <= a < b < slate_of(matches, day).len(),
    ensures
        ({
            let (i, j) = (slate_of(matches, day)[a], slate_of(matches, day)[b]);
            let (first, second) = (matches[i].kickoff_at, matches[j].kickoff_at);
            first.secs < second.secs || (first.secs == second.secs && first.nanos < second.nanos)
                || (first == second && i < j)
        }),
{
    let (i, j) = slates_are_listed_in_turn(by_kickoff(matches), matches, day, a, b);
    by_time_is_a_sorted_permutation(kickoffs(matches));
    earlier_matches_come_first(matches, i, j);
}

/// The mail about the day's matches lists them in order of kickoff.
pub proof fn previews_are_in_order_of_kickoff(
    day: Day,
    matches: &Vec<Match>,
    r: Vec<usize>,
    a: int,
    b: int,
)
    requires
        call_ensures(send_today_matches, (day, matches), r),
        0 <= a < b < r@.len(),
    ensures
        ({
            let first = matches@[r@[a] as int].kickoff_at;
            let second = matches@[r@[b] as int].kickoff_at;
            first.secs < second.secs || (first.secs == second.secs && first.nanos < second.nanos)
                || (first == second && r@[a] < r@[b])
        }),
{
    assert(positions(r@)[a] == r@[a] && positions(r@)[b] == r@[b]);
    slates_come_in_order_of_kickoff(matches@, day, a, b);
}

} // verus!
