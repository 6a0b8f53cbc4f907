//! The matchday screen: the day's matches with the player's bets, the previous
//! day's results, the top of the leaderboard, and fresh wins to celebrate.
use vstd::prelude::*;

use crate::bets::{
    cards_show_the_bet, find_own_bet, one_bet_per_match, own_bet, own_bets_are_found,
    render_match_card, MatchView, Member,
};
use crate::clock::{on_calendar, short_label, Day, Timestamp, DAY, FIRST_DAY, HOUR};
use crate::i18n::Locale;
use crate::json::{json_text, list_of, number_fields, render_json, rows_of, text_fields, Record};
use crate::leaderboard::{
    members_have_their_line, points_for, points_of, streaks_for, streaks_of, Highlight,
    LeaderboardRow,
};
use crate::matchday::{
    cest_date, cest_day, in_matchday, matchdays_do_not_overlap,
    matchdays_run_from_afternoon_to_morning, window, ENDS_AT, STARTS_AT,
};
use crate::models::{
    by_kickoff, earlier_matches_come_first, find_match, kickoffs, match_with_id,
    matches_are_found_by_id, order_by_kickoff, started, Match, Prediction, User,
};
use crate::notifications::digests::{
    is_result, slate_among, slate_of, slates_come_in_order_of_kickoff,
    slates_hold_the_matches_of_the_day,
};
use crate::ordering::{
    by_time, by_time_is_a_sorted_permutation, order_by_time, positions, times_are_in_order,
};
use crate::scoring::POINTS_EXACT;
use crate::tenant::Tenant;
use crate::text::{characters_are_replaced_in_turn, decimal, replace, replaced, to_decimal};

verus! {

/// Up to this many wins are celebrated one by one; more are added up.
pub const CELEBRATE_CAP: usize = 3;

/// How many players the screen ranks.
pub const STANDINGS_SIZE: usize = 10;

/// A line of the ranking.
#[derive(Debug)]
pub struct Standing {
    pub rank: usize,
    pub name: String,
    pub points: i64,
    pub is_me: bool,
    pub current_streak: i32,
}

/// Whether some lines are the top of a leaderboard, as a player sees it.
pub open spec fn show_standings(
    lines: Seq<Standing>,
    board: Seq<LeaderboardRow>,
    me: u128,
) -> bool {
    &&& lines.len() == if board.len() < STANDINGS_SIZE {
        board.len()
    } else {
        STANDINGS_SIZE as nat
    }
    &&& forall|i: int|
        0 <= i < lines.len() ==> (#[trigger] lines[i]).rank == i + 1 && lines[i].name
            == board[i].display_name && lines[i].points == board[i].points && lines[i].is_me == (
        board[i].user_id == me) && lines[i].current_streak == board[i].current_streak
}

/// The top of a leaderboard, as a player sees it.
pub fn standings(board: &Vec<LeaderboardRow>, me: u128) -> (r: Vec<Standing>)
    ensures
        show_standings(r@, board@, me),
{
    let n: usize = if board.len() < STANDINGS_SIZE {
        board.len()
    } else {
        STANDINGS_SIZE
    };
    let mut out: Vec<Standing> = Vec::new();
    let mut i: usize = 0;
    while i < n
        invariant
            i <= n,
            n <= board.len(),
            n <= STANDINGS_SIZE,
            out@.len() == i,
            forall|k: int|
                0 <= k < i ==> (#[trigger] out@[k]).rank == k + 1 && out@[k].name
                    == board@[k].display_name && out@[k].points == board@[k].points
                    && out@[k].is_me == (board@[k].user_id == me) && out@[k].current_streak
                    == board@[k].current_streak,
        decreases n - i,
    {
        out.push(
            Standing {
                rank: i + 1,
                name: board[i].display_name.clone(),
                points: board[i].points,
                is_me: board[i].user_id == me,
                current_streak: board[i].current_streak,
            },
        );
        i = i + 1;
    }
    out
}

/// The best player of a day.
#[derive(Debug)]
pub struct PlayerOfDay {
    pub name: String,
    pub points: i64,
    pub avatar: String,
    pub is_me: bool,
}

/// The best player of a day, as a player sees them.
pub fn show_highlight(best: Highlight, avatar: String, me: u128) -> (r: PlayerOfDay)
    ensures
        r.name == best.display_name,
        r.points == best.points,
        r.avatar == avatar,
        r.is_me == (best.user_id == me),
{
    PlayerOfDay {
        name: best.display_name,
        points: best.points,
        avatar,
        is_me: best.user_id == me,
    }
}

/// The day whose best player is shown: the calendar day (UTC) before.
pub fn highlight_day(at: Timestamp) -> (r: Option<Day>)
    requires
        at.valid(),
    ensures
        r == if at.day_num() > FIRST_DAY {
            Some(Day { num: (at.day_num() - 1) as i32 })
        } else {
            None
        },
{
    at.date().pred()
}

/// The matchday before another, or the same where there is none.
pub open spec fn day_before(day: Day) -> Day {
    if day.num > FIRST_DAY {
        Day { num: (day.num - 1) as i32 }
    } else {
        day
    }
}

/// Whether a match is shown among the results of the previous matchday: it was
/// played then, and bets on it are closed.
pub open spec fn among_results(m: Match, today: Day, at: Timestamp) -> bool {
    &&& !in_matchday(today, m.kickoff_at)
    &&& in_matchday(day_before(today), m.kickoff_at)
    &&& !m.open_at(at)
}

/// The positions, among some, of the matches shown as results.
pub open spec fn results_among(
    order: Seq<int>,
    matches: Seq<Match>,
    today: Day,
    at: Timestamp,
) -> Seq<int>
    decreases order.len(),
{
    if order.len() == 0 {
        Seq::empty()
    } else {
        let before = results_among(order.drop_last(), matches, today, at);
        if among_results(matches[order.last()], today, at) {
            before.push(order.last())
        } else {
            before
        }
    }
}

/// Whether some cards show the matches at some positions to a player.
pub open spec fn show_cards(
    cards: Seq<MatchView>,
    at_positions: Seq<int>,
    matches: Seq<Match>,
    book: Seq<Prediction>,
    who: Member,
    jokers_enabled: bool,
    at: Timestamp,
) -> bool {
    &&& cards.len() == at_positions.len()
    &&& forall|i: int|
        0 <= i < cards.len() ==> (#[trigger] cards[i]).shows(
            matches[at_positions[i]],
            own_bet(book, who, matches[at_positions[i]].id),
            jokers_enabled,
            at,
        )
}

/// What the matchday screen shows, but for the celebration and the best player.
#[derive(Debug)]
pub struct TodayView {
    pub user_name: String,
    pub total_points: i32,
    pub current_streak: i32,
    pub best_streak: i32,
    pub is_admin: bool,
    pub today_label: String,
    pub yest_label: String,
    pub today: Vec<MatchView>,
    pub results: Vec<MatchView>,
    pub standings: Vec<Standing>,
}

/// What the matchday screen shows to a player at an instant.
pub fn page(
    tenant: &Tenant,
    user: &User,
    matches: &Vec<Match>,
    book: &Vec<Prediction>,
    board: &Vec<LeaderboardRow>,
    at: Timestamp,
) -> (r: TodayView)
    requires
        at.valid(),
        on_calendar(at.secs + 2 * HOUR),
    ensures
        r.user_name == user.display_name,
        r.is_admin == user.is_admin,
        r.total_points == points_of(board@, user.id),
        (r.current_streak, r.best_streak) == streaks_of(board@, user.id),
        r.today_label@ == short_label(cest_day(at)),
        r.yest_label@ == short_label(day_before(cest_day(at))),
        show_cards(
            r.today@,
            slate_of(matches@, cest_day(at)),
            matches@,
            book@,
            Member { tenant_id: tenant.id, user_id: user.id },
            tenant.jokers_enabled,
            at,
        ),
        show_cards(
            r.results@,
            results_among(by_kickoff(matches@), matches@, cest_day(at), at),
            matches@,
            book@,
            Member { tenant_id: tenant.id, user_id: user.id },
            tenant.jokers_enabled,
            at,
        ),
        show_standings(r.standings@, board@, user.id),
{
    let today_cest: Day = cest_date(at);
    let yesterday: Day = match today_cest.pred() {
        Some(d) => d,
        None => today_cest,
    };
    let (today_start, today_end) = window(today_cest);
    let (yest_start, yest_end) = window(yesterday);
    let who: Member = Member { tenant_id: tenant.id, user_id: user.id };
    let order: Vec<usize> = order_by_kickoff(matches);
    let ghost all = positions(order@);
    let mut today: Vec<MatchView> = Vec::new();
    let mut results: Vec<MatchView> = Vec::new();
    let mut i: usize = 0;
    while i < order.len()
        invariant
            i <= order.len(),
            all == positions(order@),
            who == (Member { tenant_id: tenant.id, user_id: user.id }),
            yesterday == day_before(today_cest),
            today_start == today_cest.at(STARTS_AT as int),
            today_end == today_cest.at(DAY + ENDS_AT),
            yest_start == yesterday.at(STARTS_AT as int),
            yest_end == yesterday.at(DAY + ENDS_AT),
            forall|k: int| 0 <= k < order@.len() ==> (#[trigger] order@[k]) < matches@.len(),
            show_cards(
                today@,
                slate_among(all.take(i as int), matches@, today_cest),
                matches@,
                book@,
                who,
                tenant.jokers_enabled,
                at,
            ),
            show_cards(
                results@,
                results_among(all.take(i as int), matches@, today_cest, at),
                matches@,
                book@,
                who,
                tenant.jokers_enabled,
                at,
            ),
        decreases order.len() - i,
    {
        assert(all.take(i + 1).drop_last() =~= all.take(i as int));
        assert(all.take(i + 1).last() == order@[i as int]);
        let m: &Match = &matches[order[i]];
        let ko: Timestamp = m.kickoff_at;
        let view: MatchView = render_match_card(
            m.copied(),
            find_own_bet(book, who, m.id),
            tenant.jokers_enabled,
            at,
        );
        if !ko.before(today_start) && ko.before(today_end) {
            today.push(view);
        } else if !ko.before(yest_start) && ko.before(yest_end) && !view.open {
            results.push(view);
        }
        i = i + 1;
    }
    assert(all.take(all.len() as int) =~= all);
    let streaks: (i32, i32) = streaks_for(board, user.id);
    TodayView {
        user_name: user.display_name.clone(),
        total_points: points_for(board, user.id),
        current_streak: streaks.0,
        best_streak: streaks.1,
        is_admin: user.is_admin,
        today_label: today_cest.brief(),
        yest_label: yesterday.brief(),
        today,
        results,
        standings: standings(board, user.id),
    }
}

/// How a single card is asked for.
#[derive(Clone, Copy, PartialEq, Eq, Debug, Structural)]
pub struct FragmentQuery {
    /// Leave the time of the kickoff out.
    pub date_only: bool,
}

/// A single card.
#[derive(Debug)]
pub struct MatchCard {
    pub v: MatchView,
    pub date_only: bool,
}

/// The card of one match, if there is such a match.
pub fn match_fragment(
    matches: &Vec<Match>,
    book: &Vec<Prediction>,
    who: Member,
    jokers_enabled: bool,
    id: i64,
    q: FragmentQuery,
    at: Timestamp,
) -> (r: Option<MatchCard>)
    ensures
        match match_with_id(matches@, id) {
            Some(m) => {
                &&& r is Some
                &&& r->0.v.shows(m, own_bet(book@, who, id), jokers_enabled, at)
                &&& r->0.date_only == q.date_only
            },
            None => r is None,
        },
{
    match find_match(matches, id) {
        Some(m) => {
            let bet: Option<Prediction> = find_own_bet(book, who, id);
            Some(
                MatchCard {
                    v: render_match_card(m.copied(), bet, jokers_enabled, at),
                    date_only: q.date_only,
                },
            )
        },
        None => None,
    }
}

/// A player's prediction on a match, and whether they saw how it came out.
#[derive(Debug)]
pub struct Outcome {
    pub home_team: String,
    pub away_team: String,
    pub kickoff_at: Timestamp,
    pub points: Option<i32>,
    pub seen: bool,
}

impl Outcome {
    /// Whether this is a win the player has not seen.
    pub open spec fn unseen_win(self) -> bool {
        self.points is Some && self.points->0 > 0 && !self.seen
    }

    /// This outcome once the player was shown it; one that is not settled is yet
    /// to be shown.
    pub open spec fn shown(self) -> Outcome {
        if self.points is Some {
            Outcome { seen: true, ..self }
        } else {
            self
        }
    }
}

/// The kickoffs of some outcomes.
pub open spec fn outcome_times(rows: Seq<Outcome>) -> Seq<Timestamp> {
    Seq::new(rows.len(), |i: int| rows[i].kickoff_at)
}

/// The unseen wins at some positions, in that order.
pub open spec fn wins_among(order: Seq<int>, rows: Seq<Outcome>) -> Seq<Outcome>
    decreases order.len(),
{
    if order.len() == 0 {
        Seq::empty()
    } else {
        let before = wins_among(order.drop_last(), rows);
        if rows[order.last()].unseen_win() {
            before.push(rows[order.last()])
        } else {
            before
        }
    }
}

/// The unseen wins, earliest kickoff first.
pub open spec fn unseen_wins(rows: Seq<Outcome>) -> Seq<Outcome> {
    wins_among(by_time(outcome_times(rows)), rows)
}

/// The points of some wins, added up.
pub open spec fn points_sum(wins: Seq<Outcome>) -> int
    decreases wins.len(),
{
    if wins.len() == 0 {
        0
    } else {
        points_sum(wins.drop_last()) + wins.last().points->0
    }
}

/// Whether the points to celebrate can be told: up to the cap they are told one
/// by one, beyond it they are added up.
pub open spec fn tellable(rows: Seq<Outcome>) -> bool {
    unseen_wins(rows).len() > CELEBRATE_CAP ==> points_sum(unseen_wins(rows)) <= i32::MAX
}

/// All outcomes once the settled ones were shown.
pub open spec fn all_shown(rows: Seq<Outcome>) -> Seq<Outcome> {
    Seq::new(rows.len(), |i: int| rows[i].shown())
}

/// A win as the celebration tells it.
pub open spec fn win_fields(win: Outcome, loc: Locale) -> (
    Seq<(Seq<char>, Seq<char>)>,
    Seq<(Seq<char>, i64)>,
) {
    let exact = win.points->0 >= POINTS_EXACT;
    (
        seq![
            ("label"@, win.home_team@ + " - "@ + win.away_team@),
            (
                "level"@,
                if exact {
                    "exact"@
                } else {
                    "outcome"@
                },
            ),
            (
                "message"@,
                if exact {
                    loc.pick("Score exact ! +3"@, "Exact score! +3"@)
                } else {
                    loc.pick("Bien vu ! +1"@, "Nice! +1"@)
                },
            ),
        ],
        seq![("points"@, win.points->0 as i64)],
    )
}

/// The celebration of some wins, in JSON.
pub open spec fn celebration(wins: Seq<Outcome>, loc: Locale) -> Seq<char> {
    if wins.len() <= CELEBRATE_CAP {
        json_text(
            seq![("mode"@, "individual"@)],
            Seq::empty(),
            Some(("wins"@, Seq::new(wins.len(), |i: int| win_fields(wins[i], loc)))),
        )
    } else {
        let total = points_sum(wins);
        let text = decimal(wins.len() as int) + loc.pick(
            " pronos gagnés, +"@,
            " winning picks, +"@,
        ) + decimal(total) + " pts"@;
        json_text(
            seq![("mode"@, "aggregate"@), ("message"@, text)],
            seq![("count"@, wins.len() as i64), ("points"@, total as i64)],
            None,
        )
    }
}

/// A text made fit for the inside of a script element.
pub open spec fn escaped(text: Seq<char>) -> Seq<char> {
    replaced(text, '<', "\\u003c"@)
}

fn list_wins(rows: &Vec<Outcome>) -> (r: Vec<usize>)
    ensures
        Seq::new(r@.len(), |i: int| rows@[r@[i] as int]) == unseen_wins(rows@),
        forall|k: int|
            0 <= k < r@.len() ==> (#[trigger] r@[k]) < rows@.len()
                && rows@[r@[k] as int].unseen_win(),
{
    let mut times: Vec<Timestamp> = Vec::new();
    let mut t: usize = 0;
    while t < rows.len()
        invariant
            t <= rows.len(),
            times@.len() == t,
            forall|k: int| 0 <= k < t ==> #[trigger] times@[k] == rows@[k].kickoff_at,
        decreases rows.len() - t,
    {
        times.push(rows[t].kickoff_at);
        t = t + 1;
    }
    assert(times@ =~= outcome_times(rows@));
    let order: Vec<usize> = order_by_time(&times);
    let ghost all = positions(order@);
    let mut out: Vec<usize> = Vec::new();
    let mut i: usize = 0;
    while i < order.len()
        invariant
            i <= order.len(),
            all == positions(order@),
            forall|k: int| 0 <= k < order@.len() ==> (#[trigger] order@[k]) < rows@.len(),
            forall|k: int|
                0 <= k < out@.len() ==> (#[trigger] out@[k]) < rows@.len()
                    && rows@[out@[k] as int].unseen_win(),
            Seq::new(out@.len(), |k: int| rows@[out@[k] as int]) =~= wins_among(
                all.take(i as int),
                rows@,
            ),
        decreases order.len() - i,
    {
        assert(all.take(i + 1).drop_last() =~= all.take(i as int));
        assert(all.take(i + 1).last() == order@[i as int]);
        let row: &Outcome = &rows[order[i]];
        let won: bool = match row.points {
            Some(p) => p > 0,
            None => false,
        };
        if won && !row.seen {
            out.push(order[i]);
        }
        i = i + 1;
    }
    assert(all.take(all.len() as int) =~= all);
    out
}

fn sum_points(rows: &Vec<Outcome>, wins: &Vec<usize>) -> (r: i128)
    requires
        forall|k: int|
            0 <= k < wins@.len() ==> (#[trigger] wins@[k]) < rows@.len()
                && rows@[wins@[k] as int].unseen_win(),
    ensures
        r == points_sum(Seq::new(wins@.len(), |i: int| rows@[wins@[i] as int])),
        r >= wins@.len(),
{
    let ghost all = Seq::new(wins@.len(), |i: int| rows@[wins@[i] as int]);
    let mut total: i128 = 0;
    let mut i: usize = 0;
    while i < wins.len()
        invariant
            i <= wins.len(),
            all == Seq::new(wins@.len(), |i: int| rows@[wins@[i] as int]),
            forall|k: int|
                0 <= k < wins@.len() ==> (#[trigger] wins@[k]) < rows@.len()
                    && rows@[wins@[k] as int].unseen_win(),
            total == points_sum(all.take(i as int)),
            i <= total <= 0x7fff_ffff * i,
        decreases wins.len() - i,
    {
        assert(all.take(i + 1).drop_last() =~= all.take(i as int));
        assert(all.take(i + 1).last() == rows@[wins@[i as int] as int]);
        if let Some(p) = rows[wins[i]].points {
            total = total + p as i128;
        }
        i = i + 1;
    }
    assert(all.take(all.len() as int) =~= all);
    total
}

/// Whether the points to celebrate can be told.
pub fn is_tellable(rows: &Vec<Outcome>) -> (r: bool)
    ensures
        r == tellable(rows@),
{
    let wins: Vec<usize> = list_wins(rows);
    assert(unseen_wins(rows@).len() == wins@.len());
    if wins.len() <= CELEBRATE_CAP {
        return true;
    }
    sum_points(rows, &wins) <= i32::MAX as i128
}

fn win_record(win: &Outcome, points: i32, loc: Locale) -> (r: Record)
    requires
        win.points == Some(points),
    ensures
        r.fields() == win_fields(*win, loc),
{
    let exact: bool = points >= POINTS_EXACT;
    let mut label: String = win.home_team.clone();
    label.append(" - ");
    label.append(win.away_team.as_str());
    let level: &str = if exact {
        "exact"
    } else {
        "outcome"
    };
    let message: &str = if exact {
        loc.f("Score exact ! +3", "Exact score! +3")
    } else {
        loc.f("Bien vu ! +1", "Nice! +1")
    };
    let mut texts: Vec<(String, String)> = Vec::new();
    texts.push(("label".to_owned(), label));
    texts.push(("level".to_owned(), level.to_owned()));
    texts.push(("message".to_owned(), message.to_owned()));
    let mut numbers: Vec<(String, i64)> = Vec::new();
    numbers.push(("points".to_owned(), points as i64));
    assert(text_fields(texts@) =~= win_fields(*win, loc).0);
    assert(number_fields(numbers@) =~= win_fields(*win, loc).1);
    Record { texts, numbers }
}

fn tell_each(rows: &Vec<Outcome>, wins: &Vec<usize>, loc: Locale) -> (r: String)
    requires
        wins@.len() <= CELEBRATE_CAP,
        forall|k: int|
            0 <= k < wins@.len() ==> (#[trigger] wins@[k]) < rows@.len()
                && rows@[wins@[k] as int].unseen_win(),
    ensures
        r@ == celebration(Seq::new(wins@.len(), |i: int| rows@[wins@[i] as int]), loc),
{
    let ghost all = Seq::new(wins@.len(), |i: int| rows@[wins@[i] as int]);
    let mut records: Vec<Record> = Vec::new();
    let mut i: usize = 0;
    while i < wins.len()
        invariant
            i <= wins.len(),
            all == Seq::new(wins@.len(), |i: int| rows@[wins@[i] as int]),
            forall|k: int|
                0 <= k < wins@.len() ==> (#[trigger] wins@[k]) < rows@.len()
                    && rows@[wins@[k] as int].unseen_win(),
            records@.len() == i,
            forall|k: int|
                0 <= k < i ==> (#[trigger] records@[k]).fields() == win_fields(all[k], loc),
        decreases wins.len() - i,
    {
        if let Some(p) = rows[wins[i]].points {
            records.push(win_record(&rows[wins[i]], p, loc));
        }
        i = i + 1;
    }
    let mut texts: Vec<(String, String)> = Vec::new();
    texts.push(("mode".to_owned(), "individual".to_owned()));
    let numbers: Vec<(String, i64)> = Vec::new();
    assert(text_fields(texts@) =~= seq![("mode"@, "individual"@)]);
    assert(number_fields(numbers@) =~= Seq::empty());
    assert(rows_of(records@) =~= Seq::new(all.len(), |i: int| win_fields(all[i], loc)));
    let list: Option<(String, Vec<Record>)> = Some(("wins".to_owned(), records));
    assert(list_of(list) == Some(
        ("wins"@, Seq::new(all.len(), |i: int| win_fields(all[i], loc))),
    ));
    render_json(&Record { texts, numbers }, &list)
}

fn tell_total(count: usize, total: i32, loc: Locale) -> (r: String)
    requires
        CELEBRATE_CAP < count <= i32::MAX,
    ensures
        forall|wins: Seq<Outcome>|
            wins.len() == count && points_sum(wins) == total ==> r@ == #[trigger] celebration(
                wins,
                loc,
            ),
{
    let mut text: String = to_decimal(count as i64);
    text.append(loc.f(" pronos gagnés, +", " winning picks, +"));
    text.append(to_decimal(total as i64).as_str());
    text.append(" pts");
    let ghost said = text@;
    let mut texts: Vec<(String, String)> = Vec::new();
    texts.push(("mode".to_owned(), "aggregate".to_owned()));
    texts.push(("message".to_owned(), text));
    let mut numbers: Vec<(String, i64)> = Vec::new();
    numbers.push(("count".to_owned(), count as i64));
    numbers.push(("points".to_owned(), total as i64));
    assert(text_fields(texts@) =~= seq![("mode"@, "aggregate"@), ("message"@, said)]);
    assert(number_fields(numbers@) =~= seq![
        ("count"@, count as i64),
        ("points"@, total as i64),
    ]);
    render_json(&Record { texts, numbers }, &None)
}

fn show_all(rows: &mut Vec<Outcome>)
    ensures
        final(rows)@ == all_shown(old(rows)@),
{
    let ghost start = rows@;
    let n: usize = rows.len();
    let mut i: usize = 0;
    while i < n
        invariant
            i <= n,
            n == rows@.len(),
            n == start.len(),
            forall|k: int| 0 <= k < i ==> #[trigger] rows@[k] == start[k].shown(),
            forall|k: int| i <= k < n ==> #[trigger] rows@[k] == start[k],
        decreases n - i,
    {
        if rows[i].points.is_some() {
            let shown: Outcome = Outcome {
                home_team: rows[i].home_team.clone(),
                away_team: rows[i].away_team.clone(),
                kickoff_at: rows[i].kickoff_at,
                points: rows[i].points,
                seen: true,
            };
            rows.set(i, shown);
        }
        i = i + 1;
    }
    assert(rows@ =~= all_shown(start));
}

/// What to celebrate with a player: their wins that they have not seen, in JSON
/// that can stand in a script element, if there are any. All settled outcomes
/// then count as seen, wins and losses.
pub fn build_celebration(rows: &mut Vec<Outcome>, loc: Locale) -> (r: Option<String>)
    requires
        tellable(old(rows)@),
    ensures
        final(rows)@ == all_shown(old(rows)@),
        match r {
            Some(text) => unseen_wins(old(rows)@).len() > 0 && text@ == escaped(
                celebration(unseen_wins(old(rows)@), loc),
            ),
            None => unseen_wins(old(rows)@).len() == 0,
        },
{
    let wins: Vec<usize> = list_wins(rows);
    let ghost all = unseen_wins(rows@);
    assert(all.len() == wins@.len());
    if wins.len() == 0 {
        show_all(rows);
        return None;
    }
    let payload: String = if wins.len() <= CELEBRATE_CAP {
        tell_each(rows, &wins, loc)
    } else {
        let total: i128 = sum_points(rows, &wins);
        let text: String = tell_total(wins.len(), total as i32, loc);
        assert(points_sum(all) == total);
        assert(text@ == celebration(all, loc));
        text
    };
    show_all(rows);
    Some(replace(payload.as_str(), '<', "\\u003c"))
}

proof fn replacing_removes(text: Seq<char>, c: char, by: Seq<char>)
    requires
        !by.contains(c),
    ensures
        !replaced(text, c, by).contains(c),
    decreases text.len(),
{
    if text.len() > 0 {
        replacing_removes(text.drop_last(), c, by);
        let before = replaced(text.drop_last(), c, by);
        let all = replaced(text, c, by);
        if all.contains(c) {
            let i = choose|i: int| 0 <= i < all.len() && all[i] == c;
            if i < before.len() {
                assert(before[i] == c);
            } else if text.last() == c {
                assert(by[i - before.len()] == c);
            }
        }
    }
}

/// A celebration never opens or closes an element of the page it stands in.
pub proof fn celebrations_hold_no_markup(text: Seq<char>)
    ensures
        !escaped(text).contains('<'),
{
    reveal_strlit("\\u003c");
    replacing_removes(text, '<', "\\u003c"@);
}

proof fn no_wins_among(order: Seq<int>, rows: Seq<Outcome>)
    requires
        forall|k: int| 0 <= k < order.len() ==> !rows[#[trigger] order[k]].unseen_win(),
    ensures
        wins_among(order, rows) == Seq::<Outcome>::empty(),
    decreases order.len(),
{
    if order.len() > 0 {
        let front = order.drop_last();
        assert forall|k: int| 0 <= k < front.len() implies !rows[#[trigger] front[k]].unseen_win() by {
            assert(front[k] == order[k]);
        }
        no_wins_among(front, rows);
        assert(!rows[order[order.len() - 1]].unseen_win());
    }
}

/// Every win is celebrated once: after that there is nothing left to celebrate.
pub proof fn wins_are_celebrated_once(rows: Seq<Outcome>)
    ensures
        unseen_wins(all_shown(rows)) == Seq::<Outcome>::empty(),
        all_shown(all_shown(rows)) == all_shown(rows),
{
    let after = all_shown(rows);
    let order = by_time(outcome_times(after));
    by_time_is_a_sorted_permutation(outcome_times(after));
    assert forall|k: int| 0 <= k < order.len() implies !after[#[trigger] order[k]].unseen_win() by {
        assert(order.contains(order[k]));
    }
    no_wins_among(order, after);
    assert(all_shown(after) =~= after);
}

/// Every result that the daily mail tells of the day before is among the results
/// on the screen.
pub proof fn mailed_results_are_shown(m: Match, today: Day, at: Timestamp)
    requires
        today.num > FIRST_DAY,
        is_result(m, day_before(today)),
    ensures
        among_results(m, today, at),
{
    assert(started(m.status@));
    if in_matchday(today, m.kickoff_at) {
        matchdays_do_not_overlap(today, day_before(today), m.kickoff_at);
    }
}

/// A match is never shown both among today's matches and among the results.
pub proof fn matches_are_shown_once(m: Match, today: Day, at: Timestamp)
    ensures
        !(in_matchday(today, m.kickoff_at) && among_results(m, today, at)),
{
}

/// The results shown are those of the matchday before, from 13:00 on that day to
/// 06:00 on this one, in UTC, for which bets are closed.
pub proof fn results_are_those_of_the_day_before(m: Match, today: Day, at: Timestamp)
    requires
        today.num > FIRST_DAY,
    ensures
        among_results(m, today, at) <==> (today.num - 1) * 86_400 + 13 * 3_600 <= m.kickoff_at.secs
            < today.num * 86_400 + 6 * 3_600 && !m.open_at(at),
{
    matchdays_run_from_afternoon_to_morning(today, m.kickoff_at);
    matchdays_run_from_afternoon_to_morning(day_before(today), m.kickoff_at);
}

/// Each match in turn is shown among the results or not.
pub proof fn each_match_is_a_result_or_not(
    order: Seq<int>,
    next: int,
    matches: Seq<Match>,
    today: Day,
    at: Timestamp,
)
    ensures
        results_among(Seq::empty(), matches, today, at).len() == 0,
        among_results(matches[next], today, at) ==> results_among(
            order.push(next),
            matches,
            today,
            at,
        ) == results_among(order, matches, today, at).push(next),
        !among_results(matches[next], today, at) ==> results_among(
            order.push(next),
            matches,
            today,
            at,
        ) == results_among(order, matches, today, at),
{
    assert(order.push(next).drop_last() =~= order);
}

/// Each card stands for its match and shows the player's own bet on it.
pub proof fn cards_stand_for_their_matches(
    cards: Seq<MatchView>,
    shown: Seq<int>,
    matches: Seq<Match>,
    book: Seq<Prediction>,
    who: Member,
    jokers_enabled: bool,
    at: Timestamp,
    i: int,
    j: int,
)
    requires
        show_cards(cards, shown, matches, book, who, jokers_enabled, at),
        one_bet_per_match(book),
        0 <= i < shown.len(),
        0 <= j < book.len(),
        book[j].user_id == who.user_id,
        book[j].tenant_id == who.tenant_id,
        book[j].match_id == matches[shown[i]].id,
    ensures
        cards.len() == shown.len(),
        cards[i].m == matches[shown[i]],
        cards[i].bet_home == Some(book[j].home_score),
        cards[i].bet_away == Some(book[j].away_score),
        cards[i].points == book[j].points,
        cards[i].is_joker <==> book[j].multiplier == 2,
{
    let m = matches[shown[i]];
    own_bets_are_found(book, who, m.id, j);
    assert(cards[i].shows(m, own_bet(book, who, m.id), jokers_enabled, at));
    cards_show_the_bet(cards[i], m, own_bet(book, who, m.id), jokers_enabled, at);
}

/// The screen ranks the first ten, each with their own points and streak.
pub proof fn the_first_ten_are_ranked(
    lines: Seq<Standing>,
    board: Seq<LeaderboardRow>,
    me: u128,
    i: int,
)
    requires
        show_standings(lines, board, me),
    ensures
        board.len() >= 10 ==> lines.len() == 10,
        board.len() < 10 ==> lines.len() == board.len(),
        0 <= i < lines.len() ==> lines[i].rank == i + 1 && lines[i].name == board[i].display_name
            && lines[i].points == board[i].points && lines[i].current_streak
            == board[i].current_streak && (lines[i].is_me <==> board[i].user_id == me),
{
}

/// Each outcome in turn is celebrated exactly if it brought points and was not shown
/// yet, and its points are added.
pub proof fn each_outcome_is_celebrated_or_not(order: Seq<int>, next: int, rows: Seq<Outcome>)
    ensures
        ({
            let row = rows[next];
            let before = wins_among(order, rows);
            let after = wins_among(order.push(next), rows);
            let win = row.points is Some && row.points->0 > 0 && !row.seen;
            &&& wins_among(Seq::empty(), rows).len() == 0
            &&& points_sum(Seq::empty()) == 0
            &&& win ==> after == before.push(row) && points_sum(after) == points_sum(before)
                + row.points->0
            &&& !win ==> after == before
        }),
{
    assert(order.push(next).drop_last() =~= order);
    let before = wins_among(order, rows);
    assert(before.push(rows[next]).drop_last() =~= before);
}

/// After a visit every outcome with points counts as shown; those without wait, and
/// nothing else changes.
pub proof fn settled_outcomes_count_as_shown(rows: Seq<Outcome>, i: int)
    requires
        0 <= i < rows.len(),
    ensures
        all_shown(rows).len() == rows.len(),
        all_shown(rows)[i].seen <==> rows[i].seen || rows[i].points is Some,
        all_shown(rows)[i] == (Outcome { seen: all_shown(rows)[i].seen, ..rows[i] }),
{
}

/// Up to three wins are told one by one, each with its teams, its points and what it
/// was; more are told by their number and the points they add up to.
pub proof fn celebrations_tell_the_wins(wins: Seq<Outcome>, loc: Locale)
    ensures
        wins.len() <= 3 ==> celebration(wins, loc) == json_text(
            seq![("mode"@, "individual"@)],
            Seq::empty(),
            Some(("wins"@, Seq::new(wins.len(), |i: int| win_fields(wins[i], loc)))),
        ),
        wins.len() > 3 && loc == Locale::Fr ==> celebration(wins, loc) == json_text(
            seq![
                ("mode"@, "aggregate"@),
                (
                    "message"@,
                    decimal(wins.len() as int) + " pronos gagnés, +"@ + decimal(points_sum(wins))
                        + " pts"@,
                ),
            ],
            seq![("count"@, wins.len() as i64), ("points"@, points_sum(wins) as i64)],
            None,
        ),
        wins.len() > 3 && loc == Locale::En ==> celebration(wins, loc) == json_text(
            seq![
                ("mode"@, "aggregate"@),
                (
                    "message"@,
                    decimal(wins.len() as int) + " winning picks, +"@ + decimal(points_sum(wins))
                        + " pts"@,
                ),
            ],
            seq![("count"@, wins.len() as i64), ("points"@, points_sum(wins) as i64)],
            None,
        ),
{
}

/// A win is told with both teams and its points; three points or more are an exact
/// score.
pub proof fn wins_are_told_as_they_were(win: Outcome, loc: Locale)
    requires
        win.points is Some,
    ensures
        ({
            let (texts, numbers) = win_fields(win, loc);
            &&& texts.len() == 3
            &&& texts[0] == ("label"@, win.home_team@ + " - "@ + win.away_team@)
            &&& win.points->0 >= 3 ==> texts[1] == ("level"@, "exact"@)
            &&& win.points->0 < 3 ==> texts[1] == ("level"@, "outcome"@)
            &&& win.points->0 >= 3 && loc == Locale::Fr ==> texts[2] == (
                "message"@,
                "Score exact ! +3"@,
            )
            &&& win.points->0 >= 3 && loc == Locale::En ==> texts[2] == (
                "message"@,
                "Exact score! +3"@,
            )
            &&& win.points->0 < 3 && loc == Locale::Fr ==> texts[2] == ("message"@, "Bien vu ! +1"@)
            &&& win.points->0 < 3 && loc == Locale::En ==> texts[2] == ("message"@, "Nice! +1"@)
            &&& numbers.len() == 1
            &&& numbers[0].0 == "points"@
            &&& numbers[0].1 == win.points->0
        }),
{
}

proof fn results_are_listed(
    order: Seq<int>,
    matches: Seq<Match>,
    today: Day,
    at: Timestamp,
    i: int,
)
    ensures
        results_among(order, matches, today, at).contains(i) <==> order.contains(i)
            && among_results(matches[i], today, at),
    decreases order.len(),
{
    if order.len() > 0 {
        let front = order.drop_last();
        results_are_listed(front, matches, today, at, i);
        assert(order[order.len() - 1] == order.last());
        let before = results_among(front, matches, today, at);
        let all = results_among(order, matches, today, at);
        if order.contains(i) {
            let k = choose|k: int| 0 <= k < order.len() && order[k] == i;
            if k < front.len() {
                assert(front[k] == i);
            }
        }
        if front.contains(i) {
            let k = choose|k: int| 0 <= k < front.len() && front[k] == i;
            assert(order[k] == i);
        }
        if before.contains(i) {
            let k = choose|k: int| 0 <= k < before.len() && before[k] == i;
            assert(all[k] == i);
        }
        if all.contains(i) {
            let k = choose|k: int| 0 <= k < all.len() && all[k] == i;
            if k < before.len() {
                assert(before[k] == i);
            }
        }
        if all.len() > before.len() {
            assert(all[before.len() as int] == order.last());
        }
    }
}

/// The screen shows every match of the day, and every match of the day before that is
/// closed among the results, each with the player's own bet; and the player's own name,
/// points and streaks.
pub proof fn the_screen_shows_the_day(
    tenant: &Tenant,
    user: &User,
    matches: &Vec<Match>,
    book: &Vec<Prediction>,
    board: &Vec<LeaderboardRow>,
    at: Timestamp,
    r: TodayView,
    i: int,
    j: int,
    n: int,
)
    requires
        call_ensures(page, (tenant, user, matches, book, board, at), r),
        one_bet_per_match(book@),
        0 <= i < matches@.len(),
        0 <= j < book@.len(),
        book@[j].user_id == user.id,
        book@[j].tenant_id == tenant.id,
        book@[j].match_id == matches@[i].id,
        0 <= n < board@.len(),
        board@[n].user_id == user.id,
        forall|k: int| 0 <= k < n ==> (#[trigger] board@[k]).user_id != user.id,
        i32::MIN <= board@[n].points <= i32::MAX,
    ensures
        r.user_name == user.display_name,
        r.is_admin == user.is_admin,
        r.total_points == board@[n].points,
        r.current_streak == board@[n].current_streak,
        r.best_streak == board@[n].best_streak,
        in_matchday(cest_day(at), matches@[i].kickoff_at) ==> exists|c: int|
            0 <= c < r.today@.len() && (#[trigger] r.today@[c]).m == matches@[i]
                && r.today@[c].bet_home == Some(book@[j].home_score) && r.today@[c].bet_away == Some(
                book@[j].away_score,
            ),
        among_results(matches@[i], cest_day(at), at) ==> exists|c: int|
            0 <= c < r.results@.len() && (#[trigger] r.results@[c]).m == matches@[i]
                && r.results@[c].bet_home == Some(book@[j].home_score) && r.results@[c].bet_away
                == Some(book@[j].away_score) && r.results@[c].points == book@[j].points,
        board@.len() >= 10 ==> r.standings@.len() == 10,
        n < 10 ==> r.standings@[n].is_me && r.standings@[n].rank == n + 1 && r.standings@[n].points
            == board@[n].points,
{
    let today = cest_day(at);
    let who = Member { tenant_id: tenant.id, user_id: user.id };
    members_have_their_line(board@, user.id, n);
    the_first_ten_are_ranked(r.standings@, board@, user.id, n);
    let slate = slate_of(matches@, today);
    slates_hold_the_matches_of_the_day(matches@, today, i);
    matchdays_run_from_afternoon_to_morning(today, matches@[i].kickoff_at);
    if in_matchday(today, matches@[i].kickoff_at) {
        let c = choose|c: int| 0 <= c < slate.len() && slate[c] == i;
        cards_stand_for_their_matches(
            r.today@,
            slate,
            matches@,
            book@,
            who,
            tenant.jokers_enabled,
            at,
            c,
            j,
        );
        assert(r.today@[c].m == matches@[i]);
    }
    let order = by_kickoff(matches@);
    let results = results_among(order, matches@, today, at);
    results_are_listed(order, matches@, today, at, i);
    by_time_is_a_sorted_permutation(kickoffs(matches@));
    assert(order.contains(i));
    if among_results(matches@[i], today, at) {
        let c = choose|c: int| 0 <= c < results.len() && results[c] == i;
        cards_stand_for_their_matches(
            r.results@,
            results,
            matches@,
            book@,
            who,
            tenant.jokers_enabled,
            at,
            c,
            j,
        );
        assert(r.results@[c].m == matches@[i]);
    }
}

/// The screen shows nothing else: each match of the day kicks off on its matchday, and
/// each result is one.
pub proof fn the_screen_shows_nothing_else(
    tenant: &Tenant,
    user: &User,
    matches: &Vec<Match>,
    book: &Vec<Prediction>,
    board: &Vec<LeaderboardRow>,
    at: Timestamp,
    r: TodayView,
    c: int,
)
    requires
        call_ensures(page, (tenant, user, matches, book, board, at), r),
    ensures
        0 <= c < r.today@.len() ==> matches@.contains(r.today@[c].m) && in_matchday(
            cest_day(at),
            r.today@[c].m.kickoff_at,
        ),
        0 <= c < r.results@.len() ==> matches@.contains(r.results@[c].m) && among_results(
            r.results@[c].m,
            cest_day(at),
            at,
        ),
        r.today_label@ == short_label(cest_day(at)),
        r.yest_label@ == short_label(day_before(cest_day(at))),
{
    let today = cest_day(at);
    let who = Member { tenant_id: tenant.id, user_id: user.id };
    let slate = slate_of(matches@, today);
    let order = by_kickoff(matches@);
    let results = results_among(order, matches@, today, at);
    by_time_is_a_sorted_permutation(kickoffs(matches@));
    if 0 <= c < r.today@.len() {
        let i = slate[c];
        assert(r.today@[c].shows(
            matches@[slate[c]],
            own_bet(book@, who, matches@[slate[c]].id),
            tenant.jokers_enabled,
            at,
        ));
        assert(slate.contains(i));
        slates_hold_the_matches_of_the_day(matches@, today, i);
        matchdays_run_from_afternoon_to_morning(today, matches@[i].kickoff_at);
        assert(matches@[i] == r.today@[c].m);
    }
    if 0 <= c < r.results@.len() {
        let i = results[c];
        assert(r.results@[c].shows(
            matches@[results[c]],
            own_bet(book@, who, matches@[results[c]].id),
            tenant.jokers_enabled,
            at,
        ));
        assert(results.contains(i));
        results_are_listed(order, matches@, today, at, i);
        assert(order.contains(i));
        assert(matches@[i] == r.results@[c].m);
    }
}

/// The best player is that of the day before, shown by name and points.
pub proof fn the_best_player_is_shown(
    best: Highlight,
    avatar: String,
    me: u128,
    shown: PlayerOfDay,
    at: Timestamp,
    day: Option<Day>,
)
    requires
        call_ensures(show_highlight, (best, avatar, me), shown),
        call_ensures(highlight_day, (at,), day),
        at.valid(),
        at.secs >= 0,
    ensures
        shown.name == best.display_name,
        shown.points == best.points,
        shown.avatar == avatar,
        shown.is_me <==> best.user_id == me,
        day is Some,
        (day->0.num + 1) * 86_400 <= at.secs < (day->0.num + 2) * 86_400,
{
}

/// The card of one match is that of the match asked for, with the player's own bet.
pub proof fn one_card_is_shown(
    matches: &Vec<Match>,
    book: &Vec<Prediction>,
    who: Member,
    jokers_enabled: bool,
    id: i64,
    q: FragmentQuery,
    at: Timestamp,
    r: Option<MatchCard>,
    i: int,
    j: int,
)
    requires
        call_ensures(match_fragment, (matches, book, who, jokers_enabled, id, q, at), r),
        one_bet_per_match(book@),
        0 <= i < matches@.len(),
        matches@[i].id == id,
        forall|k: int| 0 <= k < i ==> (#[trigger] matches@[k]).id != id,
        0 <= j < book@.len(),
        book@[j].user_id == who.user_id,
        book@[j].tenant_id == who.tenant_id,
        book@[j].match_id == id,
    ensures
        r is Some,
        r->0.v.m == matches@[i],
        r->0.v.bet_home == Some(book@[j].home_score),
        r->0.v.bet_away == Some(book@[j].away_score),
        r->0.date_only == q.date_only,
{
    matches_are_found_by_id(matches@, id);
    own_bets_are_found(book@, who, id, j);
    cards_show_the_bet(r->0.v, matches@[i], own_bet(book@, who, id), jokers_enabled, at);
}

proof fn wins_are_among_the_outcomes(order: Seq<int>, rows: Seq<Outcome>, i: int)
    requires
        order.contains(i),
        rows[i].unseen_win(),
    ensures
        wins_among(order, rows).contains(rows[i]),
    decreases order.len(),
{
    let front = order.drop_last();
    let before = wins_among(front, rows);
    let all = wins_among(order, rows);
    let k = choose|k: int| 0 <= k < order.len() && order[k] == i;
    if k < front.len() {
        assert(front[k] == i);
        wins_are_among_the_outcomes(front, rows, i);
        let b = choose|b: int| 0 <= b < before.len() && before[b] == rows[i];
        assert(all[b] == rows[i]);
    } else {
        assert(all[before.len() as int] == rows[i]);
    }
}

/// A visit celebrates exactly if an outcome brought points and was not shown yet;
/// afterwards every outcome with points counts as shown.
pub proof fn visits_celebrate_fresh_wins(
    rows: &mut Vec<Outcome>,
    loc: Locale,
    r: Option<String>,
    i: int,
)
    requires
        call_ensures(build_celebration, (rows, loc), r),
        0 <= i < old(rows)@.len(),
    ensures
        old(rows)@[i].points is Some && old(rows)@[i].points->0 > 0 && !old(rows)@[i].seen ==> r
            is Some,
        (forall|k: int|
            0 <= k < old(rows)@.len() ==> !((#[trigger] old(rows)@[k]).points is Some
                && old(rows)@[k].points->0 > 0 && !old(rows)@[k].seen)) ==> r is None,
        r is Some ==> r->0@ == escaped(celebration(unseen_wins(old(rows)@), loc)),
        final(rows)@.len() == old(rows)@.len(),
        final(rows)@[i].seen <==> old(rows)@[i].seen || old(rows)@[i].points is Some,
        final(rows)@[i] == (Outcome { seen: final(rows)@[i].seen, ..old(rows)@[i] }),
{
    let before = old(rows)@;
    let times = outcome_times(before);
    let order = by_time(times);
    by_time_is_a_sorted_permutation(times);
    settled_outcomes_count_as_shown(before, i);
    assert(order.contains(i));
    if before[i].unseen_win() {
        wins_are_among_the_outcomes(order, before, i);
    }
    if forall|k: int|
        0 <= k < before.len() ==> !((#[trigger] before[k]).points is Some && before[k].points->0 > 0
            && !before[k].seen) {
        assert forall|k: int| 0 <= k < order.len() implies !before[#[trigger] order[k]].unseen_win()
            by {
            assert(order.contains(order[k]));
        }
        no_wins_among(order, before);
    }
}

/// In a page a less-than sign is written by its number, and any other character as it
/// is.
pub proof fn less_than_signs_are_written_out(text: Seq<char>, c: char)
    ensures
        escaped(Seq::empty()) == Seq::<char>::empty(),
        escaped(text.push('<')) == escaped(text) + "\\u003c"@,
        c != '<' ==> escaped(text.push(c)) == escaped(text).push(c),
{
    characters_are_replaced_in_turn(text, c, '<', "\\u003c"@);
}

/// Up to three wins can always be told; more can where their points add up within the
/// range of numbers.
pub proof fn few_wins_can_be_told(rows: &Vec<Outcome>, r: bool)
    requires
        call_ensures(is_tellable, (rows,), r),
    ensures
        unseen_wins(rows@).len() <= 3 ==> r,
        points_sum(unseen_wins(rows@)) <= 2_147_483_647 ==> r,
        unseen_wins(rows@).len() > 3 && points_sum(unseen_wins(rows@)) > 2_147_483_647 ==> !r,
{
}

proof fn wins_come_in_turn(order: Seq<int>, rows: Seq<Outcome>, a: int, b: int) -> (at: (int, int))
    requires
        0 <= a < b < wins_among(order, rows).len(),
    ensures
        ({
            let (i, j) = at;
            &&& 0 <= i < j < order.len()
            &&& rows[order[i]] == wins_among(order, rows)[a]
            &&& rows[order[j]] == wins_among(order, rows)[b]
        }),
    decreases order.len(),
{
    let front = order.drop_last();
    let before = wins_among(front, rows);
    if b < before.len() {
        wins_come_in_turn(front, rows, a, b)
    } else {
        let i = one_win_in_turn(front, rows, a);
        (i, order.len() - 1)
    }
}

proof fn one_win_in_turn(order: Seq<int>, rows: Seq<Outcome>, a: int) -> (i: int)
    requires
        0 <= a < wins_among(order, rows).len(),
    ensures
        0 <= i < order.len(),
        rows[order[i]] == wins_among(order, rows)[a],
    decreases order.len(),
{
    let front = order.drop_last();
    if a < wins_among(front, rows).len() {
        one_win_in_turn(front, rows, a)
    } else {
        order.len() - 1
    }
}

/// Wins are celebrated in order of kickoff.
pub proof fn wins_come_in_order_of_kickoff(rows: Seq<Outcome>, a: int, b: int)
    requires
        0 <= a < b < unseen_wins(rows).len(),
    ensures
        ({
            let first = unseen_wins(rows)[a].kickoff_at;
            let second = unseen_wins(rows)[b].kickoff_at;
            first.secs < second.secs || (first.secs == second.secs && first.nanos <= second.nanos)
        }),
{
    let times = outcome_times(rows);
    let (i, j) = wins_come_in_turn(by_time(times), rows, a, b);
    by_time_is_a_sorted_permutation(times);
    times_are_in_order(times, i, j);
}

proof fn results_are_shown_in_turn(
    order: Seq<int>,
    matches: Seq<Match>,
    today: Day,
    at: Timestamp,
    a: int,
    b: int,
) -> (found: (int, int))
    requires
        0 <= a < b < results_among(order, matches, today, at).len(),
    ensures
        ({
            let (i, j) = found;
            &&& 0 <= i < j < order.len()
            &&& order[i] == results_among(order, matches, today, at)[a]
            &&& order[j] == results_among(order, matches, today, at)[b]
        }),
    decreases order.len(),
{
    let front = order.drop_last();
    let before = results_among(front, matches, today, at);
    if b < before.len() {
        results_are_shown_in_turn(front, matches, today, at, a, b)
    } else {
        assert(before.contains(before[a]));
        results_are_listed(front, matches, today, at, before[a]);
        let i = choose|i: int| 0 <= i < front.len() && front[i] == before[a];
        assert(order[i] == before[a]);
        (i, order.len() - 1)
    }
}

/// On the screen the matches of the day come in order of kickoff, and so do the results.
pub proof fn the_screen_is_in_order(
    tenant: &Tenant,
    user: &User,
    matches: &Vec<Match>,
    book: &Vec<Prediction>,
    board: &Vec<LeaderboardRow>,
    at: Timestamp,
    r: TodayView,
    a: int,
    b: int,
)
    requires
        call_ensures(page, (tenant, user, matches, book, board, at), r),
        0 <= a < b,
    ensures
        b < r.today@.len() ==> r.today@[a].m.kickoff_at.le(r.today@[b].m.kickoff_at),
        b < r.results@.len() ==> r.results@[a].m.kickoff_at.le(r.results@[b].m.kickoff_at),
{
    let today = cest_day(at);
    let who = Member { tenant_id: tenant.id, user_id: user.id };
    let slate = slate_of(matches@, today);
    let order = by_kickoff(matches@);
    let results = results_among(order, matches@, today, at);
    by_time_is_a_sorted_permutation(kickoffs(matches@));
    if b < r.today@.len() {
        assert(r.today@[a].shows(
            matches@[slate[a]],
            own_bet(book@, who, matches@[slate[a]].id),
            tenant.jokers_enabled,
            at,
        ));
        assert(r.today@[b].shows(
            matches@[slate[b]],
            own_bet(book@, who, matches@[slate[b]].id),
            tenant.jokers_enabled,
            at,
        ));
        slates_come_in_order_of_kickoff(matches@, today, a, b);
    }
    if b < r.results@.len() {
        assert(r.results@[a].shows(
            matches@[results[a]],
            own_bet(book@, who, matches@[results[a]].id),
            tenant.jokers_enabled,
            at,
        ));
        assert(r.results@[b].shows(
            matches@[results[b]],
            own_bet(book@, who, matches@[results[b]].id),
            tenant.jokers_enabled,
            at,
        ));
        let (i, j) = results_are_shown_in_turn(order, matches@, today, at, a, b);
        earlier_matches_come_first(matches@, i, j);
    }
}

} // verus!
