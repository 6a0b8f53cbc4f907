//! Points: what a prediction is worth once its match is decided.
use vstd::prelude::*;

use crate::bets::BetForm;
use crate::models::{find_match, match_with_id, matches_are_found_by_id, Match, Prediction};

verus! {

/// Points for the exact score.
pub const POINTS_EXACT: i32 = 3;

/// Points for the right outcome without the exact score.
pub const POINTS_OUTCOME: i32 = 1;

/// The sign of an integer.
pub open spec fn sign(n: int) -> int {
    if n > 0 {
        1
    } else if n < 0 {
        -1
    } else {
        0
    }
}

/// Whether the difference of two scores can be taken.
pub open spec fn gap_fits(a: i32, b: i32) -> bool {
    i32::MIN <= a - b <= i32::MAX
}

/// Who won the complete game: 1 for home, -1 for away, 0 for a draw. The score
/// on the pitch decides; when it is level, the shootout does, if there was one.
pub open spec fn outcome(home: i32, away: i32, pens: Option<(i32, i32)>) -> int {
    if home != away {
        sign(home - away)
    } else {
        match pens {
            Some((ph, pa)) => sign(ph - pa),
            None => 0,
        }
    }
}

/// Whether the differences behind [`outcome`] can be taken.
pub open spec fn outcome_fits(home: i32, away: i32, pens: Option<(i32, i32)>) -> bool {
    if home != away {
        gap_fits(home, away)
    } else {
        match pens {
            Some((ph, pa)) => gap_fits(ph, pa),
            None => true,
        }
    }
}

/// The base points of a prediction.
pub open spec fn base_points(
    bet_home: i32,
    bet_away: i32,
    actual_home: i32,
    actual_away: i32,
    pens: Option<(i32, i32)>,
) -> int {
    if bet_home == actual_home && bet_away == actual_away {
        POINTS_EXACT as int
    } else if sign(bet_home - bet_away) == outcome(actual_home, actual_away, pens) {
        POINTS_OUTCOME as int
    } else {
        0
    }
}

/// Whether the base points can be computed: an exact score needs nothing, any
/// other prediction needs the differences of the scores.
pub open spec fn points_fit(
    bet_home: i32,
    bet_away: i32,
    actual_home: i32,
    actual_away: i32,
    pens: Option<(i32, i32)>,
) -> bool {
    ||| bet_home == actual_home && bet_away == actual_away
    ||| gap_fits(bet_home, bet_away) && outcome_fits(actual_home, actual_away, pens)
}

/// The sign of the difference of two scores.
fn gap_sign(a: i32, b: i32) -> (r: i32)
    requires
        gap_fits(a, b),
    ensures
        r == sign(a - b),
{
    let gap: i32 = a - b;
    if gap > 0 {
        1
    } else if gap < 0 {
        -1
    } else {
        0
    }
}

/// The base points of a prediction: three for the exact score, one for the right
/// outcome of the complete game, none otherwise.
pub fn compute_points(
    bet_home: i32,
    bet_away: i32,
    actual_home: i32,
    actual_away: i32,
    pens: Option<(i32, i32)>,
) -> (r: i32)
    requires
        points_fit(bet_home, bet_away, actual_home, actual_away, pens),
    ensures
        r == base_points(bet_home, bet_away, actual_home, actual_away, pens),
        r == 0 || r == 1 || r == 3,
        r == 3 <==> bet_home == actual_home && bet_away == actual_away,
        r == 1 && actual_home > actual_away ==> bet_home > bet_away,
        r == 1 && actual_home < actual_away ==> bet_home < bet_away,
        r == 0 && actual_home > actual_away ==> bet_home <= bet_away,
        r == 0 && actual_home < actual_away ==> bet_home >= bet_away,
        r == 1 && actual_home == actual_away && pens is None ==> bet_home == bet_away,
        r == 0 && actual_home == actual_away && pens is None ==> bet_home != bet_away,
{
    if bet_home == actual_home && bet_away == actual_away {
        return POINTS_EXACT;
    }
    if gap_sign(bet_home, bet_away) == match_outcome(actual_home, actual_away, pens) {
        return POINTS_OUTCOME;
    }
    0
}

/// The result of the complete game as a sign. A knockout decided on penalties
/// counts as a win for the side that advanced rather than as a draw.
pub fn match_outcome(home: i32, away: i32, pens: Option<(i32, i32)>) -> (r: i32)
    requires
        outcome_fits(home, away, pens),
    ensures
        r == outcome(home, away, pens),
{
    if home != away {
        return gap_sign(home, away);
    }
    match pens {
        Some((ph, pa)) => gap_sign(ph, pa),
        None => 0,
    }
}

/// Whether [`compute_points`] takes these scores.
pub fn points_computable(
    bet_home: i32,
    bet_away: i32,
    actual_home: i32,
    actual_away: i32,
    pens: Option<(i32, i32)>,
) -> (r: bool)
    ensures
        r == points_fit(bet_home, bet_away, actual_home, actual_away, pens),
{
    if bet_home == actual_home && bet_away == actual_away {
        return true;
    }
    let bet_ok: bool = gap_in_range(bet_home, bet_away);
    let game_ok: bool = if actual_home != actual_away {
        gap_in_range(actual_home, actual_away)
    } else {
        match pens {
            Some((ph, pa)) => gap_in_range(ph, pa),
            None => true,
        }
    };
    bet_ok && game_ok
}

fn gap_in_range(a: i32, b: i32) -> (r: bool)
    ensures
        r == gap_fits(a, b),
{
    let gap: i64 = a as i64 - b as i64;
    -2147483648 <= gap && gap <= 2147483647
}

/// The shootout of a match, when both its sides are known.
pub open spec fn shootout(m: Match) -> Option<(i32, i32)> {
    match (m.pens_home, m.pens_away) {
        (Some(h), Some(a)) => Some((h, a)),
        _ => None,
    }
}

/// The base points of a prediction for a decided match.
pub open spec fn settled_points(p: Prediction, m: Match) -> int {
    base_points(p.home_score, p.away_score, m.home_score->0, m.away_score->0, shootout(m))
}

/// Whether the points of a prediction can be computed and stored.
pub open spec fn settles(p: Prediction, m: Match) -> bool {
    &&& points_fit(p.home_score, p.away_score, m.home_score->0, m.away_score->0, shootout(m))
    &&& i32::MIN <= p.multiplier * settled_points(p, m) <= i32::MAX
}

/// Whether the points of a prediction can be computed and stored, where its
/// match is decided.
pub open spec fn rescorable(p: Prediction, matches: Seq<Match>) -> bool {
    match match_with_id(matches, p.match_id) {
        Some(m) => m.decided() ==> settles(p, m),
        None => true,
    }
}

/// A prediction after scoring: when its match is decided, its points are the
/// base points times its multiplier; otherwise it stays as it was.
pub open spec fn rescored(p: Prediction, matches: Seq<Match>) -> Prediction {
    match match_with_id(matches, p.match_id) {
        Some(m) if m.decided() => Prediction {
            points: Some((p.multiplier * settled_points(p, m)) as i32),
            ..p
        },
        _ => p,
    }
}

/// Whether the points of a prediction can be computed and stored.
pub fn is_rescorable(p: Prediction, matches: &Vec<Match>) -> (r: bool)
    ensures
        r == rescorable(p, matches@),
{
    match find_match(matches, p.match_id) {
        Some(m) => {
            if !m.has_final_result() {
                return true;
            }
            match (m.home_score, m.away_score) {
                (Some(home), Some(away)) => {
                    let pens: Option<(i32, i32)> = match (m.pens_home, m.pens_away) {
                        (Some(h), Some(a)) => Some((h, a)),
                        _ => None,
                    };
                    if !points_computable(p.home_score, p.away_score, home, away, pens) {
                        return false;
                    }
                    let base: i32 = compute_points(p.home_score, p.away_score, home, away, pens);
                    assert(p.multiplier * base <= 3 * i32::MAX && p.multiplier * base >= 3
                        * i32::MIN) by (nonlinear_arith)
                        requires
                            0 <= base <= 3,
                            i32::MIN <= p.multiplier <= i32::MAX,
                    ;
                    let points: i64 = p.multiplier as i64 * base as i64;
                    i32::MIN as i64 <= points && points <= i32::MAX as i64
                },
                _ => true,
            }
        },
        None => true,
    }
}

/// A prediction with its points, where its match is decided.
pub fn rescore(p: Prediction, matches: &Vec<Match>) -> (r: Prediction)
    requires
        rescorable(p, matches@),
    ensures
        r == rescored(p, matches@),
{
    match find_match(matches, p.match_id) {
        Some(m) => {
            if !m.has_final_result() {
                return p;
            }
            match (m.home_score, m.away_score) {
                (Some(home), Some(away)) => {
                    let pens: Option<(i32, i32)> = match (m.pens_home, m.pens_away) {
                        (Some(h), Some(a)) => Some((h, a)),
                        _ => None,
                    };
                    let base: i32 = compute_points(p.home_score, p.away_score, home, away, pens);
                    Prediction { points: Some(p.multiplier * base), ..p }
                },
                _ => p,
            }
        },
        None => p,
    }
}

/// Scores every prediction whose match is decided. The points stored are the
/// effective ones: the base points times the joker multiplier.
pub fn recompute_all(bets: &mut Vec<Prediction>, matches: &Vec<Match>)
    requires
        forall|i: int| 0 <= i < old(bets)@.len() ==> rescorable(#[trigger] old(bets)@[i], matches@),
    ensures
        final(bets)@ == old(bets)@.map_values(|p: Prediction| rescored(p, matches@)),
{
    let ghost start = bets@;
    let n: usize = bets.len();
    let mut i: usize = 0;
    while i < n
        invariant
            i <= n,
            n == bets@.len(),
            n == start.len(),
            forall|k: int| 0 <= k < n ==> rescorable(#[trigger] start[k], matches@),
            forall|k: int| 0 <= k < i ==> #[trigger] bets@[k] == rescored(start[k], matches@),
            forall|k: int| i <= k < n ==> #[trigger] bets@[k] == start[k],
        decreases n - i,
    {
        let scored: Prediction = rescore(bets[i], matches);
        bets.set(i, scored);
        i = i + 1;
    }
    assert(bets@ =~= start.map_values(|p: Prediction| rescored(p, matches@)));
}

/// Scoring gives a prediction whose match is decided its multiplier times the base
/// points, which it can always hold, and changes nothing else; any other
/// prediction stays as it was.
pub proof fn stored_points_follow_the_rule(p: Prediction, matches: Seq<Match>)
    requires
        rescorable(p, matches),
    ensures
        ({
            let after = rescored(p, matches);
            &&& after == (Prediction { points: after.points, ..p })
            &&& match match_with_id(matches, p.match_id) {
                Some(m) if m.decided() => after.points is Some && after.points->0 == p.multiplier
                    * base_points(
                    p.home_score,
                    p.away_score,
                    m.home_score->0,
                    m.away_score->0,
                    shootout(m),
                ),
                _ => after.points == p.points,
            }
        }),
{
}

/// Every prediction that can be placed can be scored, with or without a joker,
/// against any result without negative goals.
pub proof fn placed_bets_can_be_scored(p: Prediction, matches: Seq<Match>)
    requires
        (BetForm { home_score: p.home_score, away_score: p.away_score }).in_range(),
        p.multiplier == 1 || p.multiplier == 2,
        match match_with_id(matches, p.match_id) {
            Some(m) => {
                &&& m.home_score is Some ==> m.home_score->0 >= 0
                &&& m.away_score is Some ==> m.away_score->0 >= 0
                &&& m.pens_home is Some ==> m.pens_home->0 >= 0
                &&& m.pens_away is Some ==> m.pens_away->0 >= 0
            },
            None => true,
        },
    ensures
        rescorable(p, matches),
{
}

/// Scoring twice gives what scoring once gave.
pub proof fn rescoring_is_idempotent(p: Prediction, matches: Seq<Match>)
    ensures
        rescored(rescored(p, matches), matches) == rescored(p, matches),
{
}

/// The stored points tell an exact score apart from a right outcome, joker or
/// not: only an exact score reaches the exact-score points.
pub proof fn stored_points_reveal_exact_scores(p: Prediction, matches: Seq<Match>, m: Match)
    requires
        p.multiplier == 1 || p.multiplier == 2,
        match_with_id(matches, p.match_id) == Some(m),
        m.decided(),
    ensures
        rescored(p, matches).points->0 >= POINTS_EXACT <==> (p.home_score == m.home_score->0
            && p.away_score == m.away_score->0),
        rescored(p, matches).points->0 <= 2 * POINTS_EXACT,
        rescored(p, matches).points->0 >= 0,
{
}

/// Without a joker the stored points are the base points; a joker doubles them.
pub proof fn jokers_double_the_points(p: Prediction, matches: Seq<Match>, m: Match)
    requires
        match_with_id(matches, p.match_id) == Some(m),
        m.decided(),
    ensures
        rescored(Prediction { multiplier: 1, ..p }, matches).points == Some(
            settled_points(p, m) as i32,
        ),
        rescored(Prediction { multiplier: 2, ..p }, matches).points == Some(
            (2 * settled_points(p, m)) as i32,
        ),
{
}

/// When a level game was decided on penalties, a draw that is not the exact
/// score earns nothing, and picking the side that advanced earns the outcome.
pub proof fn shootouts_have_a_winner(
    bet_home: i32,
    bet_away: i32,
    level: i32,
    pens: (i32, i32),
)
    requires
        pens.0 != pens.1,
        !(bet_home == level && bet_away == level),
    ensures
        base_points(bet_home, bet_away, level, level, Some(pens)) == if sign(bet_home - bet_away)
            == sign(pens.0 - pens.1) {
            POINTS_OUTCOME as int
        } else {
            0
        },
        bet_home == bet_away ==> base_points(bet_home, bet_away, level, level, Some(pens)) == 0,
{
}

/// The exact score earns three points. Any other prediction earns one exactly when
/// it names the side that won: the one that scored more or, where the score is
/// level, the one that won the shootout. Where neither did, it earns one exactly
/// when it is a draw.
pub proof fn points_go_to_the_right_side(
    bet_home: i32,
    bet_away: i32,
    home: i32,
    away: i32,
    pens: Option<(i32, i32)>,
)
    ensures
        ({
            let points = base_points(bet_home, bet_away, home, away, pens);
            let (pens_home, pens_away) = match pens {
                Some((h, a)) => (h, a),
                None => (0i32, 0i32),
            };
            &&& bet_home == home && bet_away == away ==> points == 3
            &&& !(bet_home == home && bet_away == away) ==> {
                &&& points == 0 || points == 1
                &&& home > away ==> (points == 1 <==> bet_home > bet_away)
                &&& home < away ==> (points == 1 <==> bet_home < bet_away)
                &&& home == away && pens is None ==> (points == 1 <==> bet_home == bet_away)
                &&& home == away && pens is Some && pens_home > pens_away ==> (points == 1
                    <==> bet_home > bet_away)
                &&& home == away && pens is Some && pens_home < pens_away ==> (points == 1
                    <==> bet_home < bet_away)
                &&& home == away && pens is Some && pens_home == pens_away ==> (points == 1
                    <==> bet_home == bet_away)
            }
        }),
{
}

/// Which side is called home does not matter: with all scores the other way round
/// a prediction earns the same.
pub proof fn points_do_not_depend_on_the_side(
    bet_home: i32,
    bet_away: i32,
    home: i32,
    away: i32,
    pens: Option<(i32, i32)>,
)
    ensures
        base_points(bet_home, bet_away, home, away, pens) == base_points(
            bet_away,
            bet_home,
            away,
            home,
            match pens {
                Some((h, a)) => Some((a, h)),
                None => None,
            },
        ),
        home != away ==> base_points(bet_home, bet_away, home, away, pens) == base_points(
            bet_home,
            bet_away,
            home,
            away,
            None,
        ),
{
}

/// Once its match is finished with both scores known a prediction has its points:
/// three, one or none by who won, twice that for a joker. A shootout counts only
/// where both its scores are known. Before that it keeps what it had, and nothing
/// but the points ever changes.
pub proof fn finished_matches_pay(p: Prediction, matches: Seq<Match>, i: int)
    requires
        0 <= i < matches.len(),
        matches[i].id == p.match_id,
        forall|k: int| 0 <= k < i ==> (#[trigger] matches[k]).id != p.match_id,
        p.multiplier == 1 || p.multiplier == 2,
    ensures
        ({
            let m = matches[i];
            let after = rescored(p, matches);
            let home = m.home_score->0;
            let away = m.away_score->0;
            let won_home = home > away || (home == away && m.pens_home is Some && m.pens_away is Some
                && m.pens_home->0 > m.pens_away->0);
            let won_away = home < away || (home == away && m.pens_home is Some && m.pens_away is Some
                && m.pens_home->0 < m.pens_away->0);
            let exact = p.home_score == home && p.away_score == away;
            let right = if won_home {
                p.home_score > p.away_score
            } else if won_away {
                p.home_score < p.away_score
            } else {
                p.home_score == p.away_score
            };
            &&& after == (Prediction { points: after.points, ..p })
            &&& m.status@ == "FINISHED"@ && m.home_score is Some && m.away_score is Some ==> {
                &&& after.points is Some
                &&& exact ==> after.points->0 == 3 * p.multiplier
                &&& !exact && right ==> after.points->0 == p.multiplier
                &&& !exact && !right ==> after.points->0 == 0
            }
            &&& m.status@ != "FINISHED"@ || m.home_score is None || m.away_score is None
                ==> after.points == p.points
        }),
{
    matches_are_found_by_id(matches, p.match_id);
}

/// A prediction on a match that is not there keeps what it had.
pub proof fn lost_matches_pay_nothing(p: Prediction, matches: Seq<Match>)
    requires
        forall|k: int| 0 <= k < matches.len() ==> (#[trigger] matches[k]).id != p.match_id,
    ensures
        rescored(p, matches) == p,
        rescorable(p, matches),
{
    matches_are_found_by_id(matches, p.match_id);
}

/// Whatever points are computed: three for the exact score, one for the right side,
/// and none otherwise.
pub proof fn computed_points_go_to_the_right_side(
    bet_home: i32,
    bet_away: i32,
    home: i32,
    away: i32,
    pens: Option<(i32, i32)>,
    r: i32,
)
    requires
        call_ensures(compute_points, (bet_home, bet_away, home, away, pens), r),
    ensures
        bet_home == home && bet_away == away ==> r == 3,
        !(bet_home == home && bet_away == away) ==> {
            let (pens_home, pens_away) = match pens {
                Some((h, a)) => (h, a),
                None => (0i32, 0i32),
            };
            &&& r == 0 || r == 1
            &&& home > away ==> (r == 1 <==> bet_home > bet_away)
            &&& home < away ==> (r == 1 <==> bet_home < bet_away)
            &&& home == away && pens_home > pens_away ==> (r == 1 <==> bet_home > bet_away)
            &&& home == away && pens_home < pens_away ==> (r == 1 <==> bet_home < bet_away)
            &&& home == away && pens_home == pens_away ==> (r == 1 <==> bet_home == bet_away)
        },
{
    points_go_to_the_right_side(bet_home, bet_away, home, away, pens);
}

/// Recomputing pays every prediction on a finished match whose scores are known:
/// three points for the exact score, one for the right side, none otherwise, and twice
/// that with a joker. It changes nothing else.
pub proof fn recomputing_pays_finished_matches(
    bets: &mut Vec<Prediction>,
    matches: &Vec<Match>,
    r: (),
    b: int,
    i: int,
)
    requires
        call_ensures(recompute_all, (bets, matches), r),
        0 <= b < old(bets)@.len(),
        0 <= i < matches@.len(),
        matches@[i].id == old(bets)@[b].match_id,
        forall|k: int| 0 <= k < i ==> (#[trigger] matches@[k]).id != old(bets)@[b].match_id,
        old(bets)@[b].multiplier == 1 || old(bets)@[b].multiplier == 2,
    ensures
        final(bets)@.len() == old(bets)@.len(),
        ({
            let m = matches@[i];
            let p = old(bets)@[b];
            let after = final(bets)@[b];
            let home = m.home_score->0;
            let away = m.away_score->0;
            let won_home = home > away || (home == away && m.pens_home is Some && m.pens_away is Some
                && m.pens_home->0 > m.pens_away->0);
            let won_away = home < away || (home == away && m.pens_home is Some && m.pens_away is Some
                && m.pens_home->0 < m.pens_away->0);
            let exact = p.home_score == home && p.away_score == away;
            let right = if won_home {
                p.home_score > p.away_score
            } else if won_away {
                p.home_score < p.away_score
            } else {
                p.home_score == p.away_score
            };
            &&& after == (Prediction { points: after.points, ..p })
            &&& m.status@ == "FINISHED"@ && m.home_score is Some && m.away_score is Some ==> {
                &&& after.points is Some
                &&& exact ==> after.points->0 == 3 * p.multiplier
                &&& !exact && right ==> after.points->0 == p.multiplier
                &&& !exact && !right ==> after.points->0 == 0
            }
            &&& m.status@ != "FINISHED"@ || m.home_score is None || m.away_score is None
                ==> after.points == p.points
        }),
{
    finished_matches_pay(old(bets)@[b], matches@, i);
}

/// Points can be computed for all scores that are not negative, and a prediction
/// rescored where they can and its multiplier is that of a bet.
pub proof fn ordinary_scores_can_be_scored(
    bet_home: i32,
    bet_away: i32,
    home: i32,
    away: i32,
    pens: Option<(i32, i32)>,
    computable: bool,
    p: Prediction,
    matches: &Vec<Match>,
    scorable: bool,
    i: int,
)
    requires
        call_ensures(points_computable, (bet_home, bet_away, home, away, pens), computable),
        call_ensures(is_rescorable, (p, matches), scorable),
        0 <= i < matches@.len(),
        matches@[i].id == p.match_id,
        forall|k: int| 0 <= k < i ==> (#[trigger] matches@[k]).id != p.match_id,
    ensures
        bet_home >= 0 && bet_away >= 0 && home >= 0 && away >= 0 && match pens {
            Some((h, a)) => h >= 0 && a >= 0,
            None => true,
        } ==> computable,
        p.home_score >= 0 && p.away_score >= 0 && (p.multiplier == 1 || p.multiplier == 2) && match (
            matches@[i].home_score,
            matches@[i].away_score,
        ) {
            (Some(h), Some(a)) => h >= 0 && a >= 0,
            _ => true,
        } && match (matches@[i].pens_home, matches@[i].pens_away) {
            (Some(h), Some(a)) => h >= 0 && a >= 0,
            _ => true,
        } ==> scorable,
{
    matches_are_found_by_id(matches@, p.match_id);
}

} // verus!
