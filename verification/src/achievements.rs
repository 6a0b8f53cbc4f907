//! Achievements (badges): collectable milestones derived from the predictions.
//! The catalogue is fixed; only what a player earned is kept.
use std::collections::HashMap;

use vstd::prelude::*;

use crate::clock::Timestamp;
use crate::i18n::Locale;
use crate::models::{
    find_match, match_with_id, matches_are_found_by_id, opt_text, Match, Prediction,
};
use crate::scoring::POINTS_EXACT;
use crate::text::{any_text, decimal, decimal_nat, str_eq, texts, to_decimal};

verus! {

/// Point milestones.
pub const POINT_TIERS: [i64; 3] = [50, 100, 250];

/// Streak milestones.
pub const STREAK_TIERS: [i32; 2] = [5, 10];

/// Smallest phase that counts for the "marathon" badge, so that a phase of a
/// single match does not grant it.
pub const MARATHON_MIN_MATCHES: i64 = 2;

/// A badge: its code, its name and description in both languages, and its icon.
#[derive(Clone, Copy, Debug)]
pub struct BadgeDef {
    pub code: &'static str,
    pub name_fr: &'static str,
    pub name_en: &'static str,
    pub desc_fr: &'static str,
    pub desc_en: &'static str,
    /// Image file of the badge.
    pub icon: &'static str,
}

/// How many badges there are.
pub const BADGE_COUNT: usize = 8;

/// The badges: code, French name, English name, French description, English
/// description, icon.
pub const BADGES: [[&'static str; 6]; 8] = [
    [
        "first_exact",
        "Premier sans faute",
        "First bullseye",
        "Trouver ton premier score exact.",
        "Land your first exact score.",
        "first_exact.svg",
    ],
    [
        "perfect_day",
        "Journée parfaite",
        "Perfect day",
        "Tous tes pronos d'une même journée exacts (au moins 2 matchs).",
        "Every prediction exact on the same day (at least 2 matches).",
        "perfect_day.svg",
    ],
    [
        "pts_50",
        "Palier 50",
        "50 club",
        "Atteindre 50 points cumulés.",
        "Reach 50 total points.",
        "pts_50.svg",
    ],
    [
        "pts_100",
        "Palier 100",
        "100 club",
        "Atteindre 100 points cumulés.",
        "Reach 100 total points.",
        "pts_100.svg",
    ],
    [
        "pts_250",
        "Palier 250",
        "250 club",
        "Atteindre 250 points cumulés.",
        "Reach 250 total points.",
        "pts_250.svg",
    ],
    [
        "streak_5",
        "En feu",
        "On fire",
        "Marquer des points sur 5 matchs d'affilée.",
        "Score points on 5 matches in a row.",
        "streak_5.svg",
    ],
    [
        "streak_10",
        "Incandescent",
        "White hot",
        "Marquer des points sur 10 matchs d'affilée.",
        "Score points on 10 matches in a row.",
        "streak_10.svg",
    ],
    [
        "marathon",
        "Marathonien",
        "Marathoner",
        "Parier sur tous les matchs d'une phase complète.",
        "Bet on every match of a full phase.",
        "marathon.svg",
    ],
];

impl BadgeDef {
    /// The name of the badge.
    pub fn name(&self, loc: Locale) -> (r: &'static str)
        ensures
            r == loc.pick(self.name_fr, self.name_en),
    {
        loc.f(self.name_fr, self.name_en)
    }

    /// The description of the badge.
    pub fn desc(&self, loc: Locale) -> (r: &'static str)
        ensures
            r == loc.pick(self.desc_fr, self.desc_en),
    {
        loc.f(self.desc_fr, self.desc_en)
    }

    /// The path of the badge's image.
    pub fn icon_path(&self) -> (r: String)
        ensures
            r@ == "/static/badges/"@ + self.icon@,
    {
        let mut path: String = "/static/badges/".to_owned();
        path.append(self.icon);
        path
    }
}

/// The badge at a position of the catalogue.
pub open spec fn badge_at(i: int) -> BadgeDef {
    BadgeDef {
        code: BADGES@[i]@[0],
        name_fr: BADGES@[i]@[1],
        name_en: BADGES@[i]@[2],
        desc_fr: BADGES@[i]@[3],
        desc_en: BADGES@[i]@[4],
        icon: BADGES@[i]@[5],
    }
}

/// The catalogue, in order.
pub open spec fn catalog() -> Seq<BadgeDef> {
    Seq::new(BADGE_COUNT as nat, |i: int| badge_at(i))
}

/// The catalogue, in order.
pub fn load_catalog() -> (r: Vec<BadgeDef>)
    ensures
        r@ == catalog(),
{
    let mut out: Vec<BadgeDef> = Vec::new();
    let mut i: usize = 0;
    while i < BADGE_COUNT
        invariant
            i <= BADGE_COUNT,
            out@ =~= catalog().take(i as int),
        decreases BADGE_COUNT - i,
    {
        out.push(badge(i));
        i = i + 1;
    }
    out
}

/// The badge at a position of the catalogue.
pub fn badge(i: usize) -> (r: BadgeDef)
    requires
        i < BADGE_COUNT,
    ensures
        r == badge_at(i as int),
{
    let rows: [[&'static str; 6]; 8] = BADGES;
    BadgeDef {
        code: rows[i][0],
        name_fr: rows[i][1],
        name_en: rows[i][2],
        desc_fr: rows[i][3],
        desc_en: rows[i][4],
        icon: rows[i][5],
    }
}

/// Whether the catalogue has a badge with this code.
pub open spec fn known(code: Seq<char>) -> bool {
    exists|i: int| 0 <= i < BADGE_COUNT && (#[trigger] badge_at(i)).code@ == code
}

/// The badge with a given code.
pub open spec fn def_of(code: Seq<char>) -> Option<BadgeDef> {
    if known(code) {
        Some(badge_at(choose|i: int| 0 <= i < BADGE_COUNT && (#[trigger] badge_at(i)).code@ == code))
    } else {
        None
    }
}

/// The codes of the catalogue are distinct.
pub proof fn codes_are_unique(i: int, j: int)
    requires
        0 <= i < BADGE_COUNT,
        0 <= j < BADGE_COUNT,
        badge_at(i).code@ == badge_at(j).code@,
    ensures
        i == j,
{
    reveal_codes();
    let a = badge_at(i).code@;
    assert(a.len() == 11 ==> (i == 0 || i == 1));
    assert(a.len() == 6 ==> i == 2);
    assert(a.len() == 7 ==> (i == 3 || i == 4));
    assert(a.len() == 8 ==> (i == 5 || i == 7));
    assert(a.len() == 9 ==> i == 6);
    let b = badge_at(j).code@;
    assert(b.len() == 11 ==> (j == 0 || j == 1));
    assert(b.len() == 6 ==> j == 2);
    assert(b.len() == 7 ==> (j == 3 || j == 4));
    assert(b.len() == 8 ==> (j == 5 || j == 7));
    assert(b.len() == 9 ==> j == 6);
    assert(a[0] == b[0] && a[4] == b[4]);
}

/// The characters of the catalogue's codes.
proof fn reveal_codes()
    ensures
        badge_at(0).code@ == seq!['f', 'i', 'r', 's', 't', '_', 'e', 'x', 'a', 'c', 't'],
        badge_at(1).code@ == seq!['p', 'e', 'r', 'f', 'e', 'c', 't', '_', 'd', 'a', 'y'],
        badge_at(2).code@ == seq!['p', 't', 's', '_', '5', '0'],
        badge_at(3).code@ == seq!['p', 't', 's', '_', '1', '0', '0'],
        badge_at(4).code@ == seq!['p', 't', 's', '_', '2', '5', '0'],
        badge_at(5).code@ == seq!['s', 't', 'r', 'e', 'a', 'k', '_', '5'],
        badge_at(6).code@ == seq!['s', 't', 'r', 'e', 'a', 'k', '_', '1', '0'],
        badge_at(7).code@ == seq!['m', 'a', 'r', 'a', 't', 'h', 'o', 'n'],
{
    reveal_strlit("first_exact");
    reveal_strlit("perfect_day");
    reveal_strlit("pts_50");
    reveal_strlit("pts_100");
    reveal_strlit("pts_250");
    reveal_strlit("streak_5");
    reveal_strlit("streak_10");
    reveal_strlit("marathon");
}

/// The badge with a given code, if the catalogue has one.
pub fn def(code: &str) -> (r: Option<BadgeDef>)
    ensures
        r == def_of(code@),
        r is Some ==> r->0.code@ == code@,
{
    let mut i: usize = 0;
    while i < BADGE_COUNT
        invariant
            i <= BADGE_COUNT,
            forall|k: int| 0 <= k < i ==> (#[trigger] badge_at(k)).code@ != code@,
        decreases BADGE_COUNT - i,
    {
        let b: BadgeDef = badge(i);
        if str_eq(b.code, code) {
            proof {
                assert(badge_at(i as int).code@ == code@);
                let k = choose|k: int| 0 <= k < BADGE_COUNT && (#[trigger] badge_at(k)).code@ == code@;
                codes_are_unique(k, i as int);
            }
            return Some(b);
        }
        i = i + 1;
    }
    None
}

/// A player whose badges are evaluated.
#[derive(Clone, Copy, PartialEq, Eq, Debug, Structural)]
pub struct Player {
    pub tenant_id: u128,
    pub id: u128,
    pub best_streak: i32,
}

/// A badge given to a player.
#[derive(Debug)]
pub struct Achievement {
    pub tenant_id: u128,
    pub user_id: u128,
    pub code: String,
    pub earned_at: Timestamp,
    /// Whether the player has seen it.
    pub seen: bool,
    /// When it was announced to the player.
    pub notified_at: Option<Timestamp>,
}

/// Whether a prediction of this player found the exact score. A joker doubles
/// the points of an exact score, so they are at least the exact-score points.
pub open spec fn exact_hit(p: Prediction, user: u128) -> bool {
    p.user_id == user && p.points is Some && p.points->0 >= POINTS_EXACT
}

/// Whether the player found an exact score at least once.
pub open spec fn has_exact(user: u128, bets: Seq<Prediction>) -> bool {
    exists|i: int| 0 <= i < bets.len() && exact_hit(#[trigger] bets[i], user)
}

fn found_exact(user: u128, bets: &Vec<Prediction>) -> (r: bool)
    ensures
        r == has_exact(user, bets@),
{
    let mut i: usize = 0;
    while i < bets.len()
        invariant
            i <= bets.len(),
            forall|k: int| 0 <= k < i ==> !exact_hit(#[trigger] bets@[k], user),
        decreases bets.len() - i,
    {
        let p: Prediction = bets[i];
        if p.user_id == user {
            if let Some(points) = p.points {
                if points >= POINTS_EXACT {
                    assert(exact_hit(bets@[i as int], user));
                    return true;
                }
            }
        }
        i = i + 1;
    }
    false
}

/// The calendar day (UTC) on which a settled prediction of this player counts.
pub open spec fn settled_day(p: Prediction, user: u128, matches: Seq<Match>) -> Option<int> {
    if p.user_id == user && p.points is Some {
        match match_with_id(matches, p.match_id) {
            Some(m) if m.status@ == "FINISHED"@ => Some(m.kickoff_at.day_num()),
            _ => None,
        }
    } else {
        None
    }
}

/// Whether the day of the player's `i`-th prediction has a second one, `j`, and
/// every one of that day is exact.
pub open spec fn perfect_pair(
    user: u128,
    bets: Seq<Prediction>,
    matches: Seq<Match>,
    i: int,
    j: int,
) -> bool {
    &&& 0 <= i < bets.len()
    &&& 0 <= j < bets.len()
    &&& i != j
    &&& settled_day(bets[i], user, matches) is Some
    &&& settled_day(bets[j], user, matches) == settled_day(bets[i], user, matches)
    &&& forall|k: int|
        0 <= k < bets.len() && settled_day(#[trigger] bets[k], user, matches) == settled_day(
            bets[i],
            user,
            matches,
        ) ==> bets[k].points->0 >= POINTS_EXACT
}

/// Whether on some day the player has at least two settled predictions and
/// every one of them is exact.
pub open spec fn has_perfect_day(
    user: u128,
    bets: Seq<Prediction>,
    matches: Seq<Match>,
) -> bool {
    exists|i: int, j: int| perfect_pair(user, bets, matches, i, j)
}

fn day_of(p: Prediction, user: u128, matches: &Vec<Match>) -> (r: Option<i64>)
    ensures
        match r {
            Some(d) => settled_day(p, user, matches@) == Some(d as int),
            None => settled_day(p, user, matches@) is None,
        },
{
    if p.user_id != user || p.points.is_none() {
        return None;
    }
    match find_match(matches, p.match_id) {
        Some(m) => if str_eq(m.status.as_str(), "FINISHED") {
            Some(m.kickoff_at.day_number())
        } else {
            None
        },
        None => None,
    }
}

/// An optional day as an integer.
pub open spec fn wide_day(d: Option<i64>) -> Option<int> {
    match d {
        Some(n) => Some(n as int),
        None => None,
    }
}

fn found_perfect_day(user: u128, bets: &Vec<Prediction>, matches: &Vec<Match>) -> (r: bool)
    ensures
        r == has_perfect_day(user, bets@, matches@),
{
    let n: usize = bets.len();
    let mut days: Vec<Option<i64>> = Vec::new();
    let mut i: usize = 0;
    while i < n
        invariant
            i <= n,
            n == bets@.len(),
            days@.len() == i,
            forall|k: int|
                0 <= k < i ==> wide_day(#[trigger] days@[k]) == settled_day(bets@[k], user, matches@),
        decreases n - i,
    {
        days.push(day_of(bets[i], user, matches));
        i = i + 1;
    }
    i = 0;
    while i < n
        invariant
            i <= n,
            n == bets@.len(),
            days@.len() == n,
            forall|k: int|
                0 <= k < n ==> wide_day(#[trigger] days@[k]) == settled_day(bets@[k], user, matches@),
            forall|a: int, b: int| 0 <= a < i ==> !perfect_pair(user, bets@, matches@, a, b),
        decreases n - i,
    {
        if let Some(day) = days[i] {
            let mut all_exact: bool = true;
            let mut second: Option<usize> = None;
            let mut k: usize = 0;
            while k < n
                invariant
                    i < n,
                    k <= n,
                    n == bets@.len(),
                    days@.len() == n,
                    days@[i as int] == Some(day),
                    forall|c: int|
                        0 <= c < n ==> wide_day(#[trigger] days@[c]) == settled_day(
                            bets@[c],
                            user,
                            matches@,
                        ),
                    all_exact == forall|c: int|
                        0 <= c < k && days@[c] == Some(day) ==> (#[trigger] bets@[c]).points->0
                            >= POINTS_EXACT,
                    match second {
                        Some(j) => j < k && j != i && days@[j as int] == Some(day),
                        None => forall|c: int| 0 <= c < k && c != i ==> #[trigger] days@[c] != Some(day),
                    },
                decreases n - k,
            {
                if let Some(other) = days[k] {
                    if other == day {
                        assert(settled_day(bets@[k as int], user, matches@) is Some);
                        if let Some(points) = bets[k].points {
                            if points < POINTS_EXACT {
                                all_exact = false;
                            }
                        }
                        if k != i {
                            second = Some(k);
                        }
                    }
                }
                k = k + 1;
            }
            assert(wide_day(days@[i as int]) == settled_day(bets@[i as int], user, matches@));
            if all_exact {
                if let Some(j) = second {
                    assert(wide_day(days@[j as int]) == settled_day(bets@[j as int], user, matches@));
                    assert(perfect_pair(user, bets@, matches@, i as int, j as int)) by {
                        assert forall|c: int|
                            0 <= c < bets@.len() && settled_day(#[trigger] bets@[c], user, matches@)
                                == settled_day(
                                bets@[i as int],
                                user,
                                matches@,
                            ) implies bets@[c].points->0 >= POINTS_EXACT by {
                            assert(wide_day(days@[c]) == settled_day(bets@[c], user, matches@));
                        }
                    }
                    return true;
                }
            }
            assert forall|b: int| !perfect_pair(user, bets@, matches@, i as int, b) by {
                if perfect_pair(user, bets@, matches@, i as int, b) {
                    assert(wide_day(days@[b]) == settled_day(bets@[b], user, matches@));
                    if !all_exact {
                        let c = choose|c: int|
                            0 <= c < n && days@[c] == Some(day) && !((#[trigger] bets@[c]).points->0
                                >= POINTS_EXACT);
                        assert(wide_day(days@[c]) == settled_day(bets@[c], user, matches@));
                    }
                }
            }
        } else {
            assert(wide_day(days@[i as int]) == settled_day(bets@[i as int], user, matches@));
        }
        i = i + 1;
    }
    false
}

/// The settled points of a player, added up.
pub open spec fn total_points(user: u128, bets: Seq<Prediction>) -> int
    decreases bets.len(),
{
    if bets.len() == 0 {
        0
    } else {
        let p = bets.last();
        total_points(user, bets.drop_last()) + if p.user_id == user && p.points is Some {
            p.points->0 as int
        } else {
            0
        }
    }
}

fn sum_points(user: u128, bets: &Vec<Prediction>) -> (r: i128)
    ensures
        r == total_points(user, bets@),
{
    let mut total: i128 = 0;
    let mut i: usize = 0;
    while i < bets.len()
        invariant
            i <= bets.len(),
            total == total_points(user, bets@.take(i as int)),
            -2147483648 * i <= total <= 2147483647 * i,
        decreases bets.len() - i,
    {
        assert(bets@.take(i + 1).drop_last() =~= bets@.take(i as int));
        let p: Prediction = bets[i];
        if p.user_id == user {
            if let Some(points) = p.points {
                total = total + points as i128;
            }
        }
        i = i + 1;
    }
    assert(bets@.take(bets@.len() as int) =~= bets@);
    total
}

/// How many matches a stage has.
pub open spec fn stage_size(matches: Seq<Match>, stage: Seq<char>) -> int
    decreases matches.len(),
{
    if matches.len() == 0 {
        0
    } else {
        stage_size(matches.drop_last(), stage) + if opt_text(matches.last().stage) == Some(stage) {
            1int
        } else {
            0
        }
    }
}

/// Whether the player has a prediction for a match.
pub open spec fn has_bet(user: u128, bets: Seq<Prediction>, match_id: i64) -> bool {
    exists|i: int|
        0 <= i < bets.len() && (#[trigger] bets[i]).user_id == user && bets[i].match_id == match_id
}

/// Looks for a prediction of a player for a match.
pub fn found_bet(user: u128, bets: &Vec<Prediction>, match_id: i64) -> (r: bool)
    ensures
        r == has_bet(user, bets@, match_id),
{
    let mut i: usize = 0;
    while i < bets.len()
        invariant
            i <= bets.len(),
            forall|k: int|
                0 <= k < i ==> !((#[trigger] bets@[k]).user_id == user && bets@[k].match_id
                    == match_id),
        decreases bets.len() - i,
    {
        if bets[i].user_id == user && bets[i].match_id == match_id {
            return true;
        }
        i = i + 1;
    }
    false
}

/// Whether the player has a prediction for every match of a stage that is large
/// enough.
pub open spec fn ran_marathon(
    user: u128,
    bets: Seq<Prediction>,
    matches: Seq<Match>,
    stage: Seq<char>,
) -> bool {
    &&& stage_size(matches, stage) >= MARATHON_MIN_MATCHES
    &&& forall|k: int|
        0 <= k < matches.len() && opt_text((#[trigger] matches[k]).stage) == Some(stage) ==> has_bet(
            user,
            bets,
            matches[k].id,
        )
}

/// Whether the player predicted every match of some stage.
pub open spec fn has_marathon(user: u128, bets: Seq<Prediction>, matches: Seq<Match>) -> bool {
    exists|stage: Seq<char>| ran_marathon(user, bets, matches, stage)
}

proof fn stage_size_needs_a_match(matches: Seq<Match>, stage: Seq<char>) -> (i: int)
    requires
        stage_size(matches, stage) > 0,
    ensures
        0 <= i < matches.len(),
        opt_text(matches[i].stage) == Some(stage),
    decreases matches.len(),
{
    if opt_text(matches.last().stage) == Some(stage) {
        matches.len() - 1
    } else {
        stage_size_needs_a_match(matches.drop_last(), stage)
    }
}

fn is_stage(m: &Match, stage: &str) -> (r: bool)
    ensures
        r == (opt_text(m.stage) == Some(stage@)),
{
    match &m.stage {
        Some(s) => str_eq(s.as_str(), stage),
        None => false,
    }
}

fn covers_stage(user: u128, bets: &Vec<Prediction>, matches: &Vec<Match>, stage: &str) -> (r: bool)
    ensures
        r == ran_marathon(user, bets@, matches@, stage@),
{
    let mut size: i64 = 0;
    let mut i: usize = 0;
    while i < matches.len()
        invariant
            i <= matches.len(),
            0 <= size <= MARATHON_MIN_MATCHES,
            size == if stage_size(matches@.take(i as int), stage@) < MARATHON_MIN_MATCHES {
                stage_size(matches@.take(i as int), stage@)
            } else {
                MARATHON_MIN_MATCHES as int
            },
            stage_size(matches@.take(i as int), stage@) >= 0,
            forall|k: int|
                0 <= k < i && opt_text((#[trigger] matches@[k]).stage) == Some(stage@) ==> has_bet(
                    user,
                    bets@,
                    matches@[k].id,
                ),
        decreases matches.len() - i,
    {
        assert(matches@.take(i + 1).drop_last() =~= matches@.take(i as int));
        if is_stage(&matches[i], stage) {
            if !found_bet(user, bets, matches[i].id) {
                return false;
            }
            if size < MARATHON_MIN_MATCHES {
                size = size + 1;
            }
        }
        i = i + 1;
    }
    assert(matches@.take(matches@.len() as int) =~= matches@);
    size >= MARATHON_MIN_MATCHES
}

fn found_marathon(user: u128, bets: &Vec<Prediction>, matches: &Vec<Match>) -> (r: bool)
    ensures
        r == has_marathon(user, bets@, matches@),
{
    let mut i: usize = 0;
    while i < matches.len()
        invariant
            i <= matches.len(),
            forall|k: int|
                0 <= k < i && (#[trigger] matches@[k]).stage is Some ==> !ran_marathon(
                    user,
                    bets@,
                    matches@,
                    matches@[k].stage->0@,
                ),
        decreases matches.len() - i,
    {
        if let Some(stage) = &matches[i].stage {
            if covers_stage(user, bets, matches, stage.as_str()) {
                return true;
            }
        }
        i = i + 1;
    }
    proof {
        assert forall|stage: Seq<char>| !ran_marathon(user, bets@, matches@, stage) by {
            if ran_marathon(user, bets@, matches@, stage) {
                let k = stage_size_needs_a_match(matches@, stage);
                assert(matches@[k].stage is Some);
            }
        }
    }
    false
}

/// The code of a point milestone.
pub open spec fn point_code(tier: i64) -> Seq<char> {
    "pts_"@ + decimal(tier as int)
}

/// The code of a streak milestone.
pub open spec fn streak_code(tier: i32) -> Seq<char> {
    "streak_"@ + decimal(tier as int)
}

/// The code of a point milestone.
pub fn point_badge(tier: i64) -> (r: String)
    ensures
        r@ == point_code(tier),
{
    let mut code: String = "pts_".to_owned();
    code.append(to_decimal(tier).as_str());
    code
}

/// The code of a streak milestone.
pub fn streak_badge(tier: i32) -> (r: String)
    ensures
        r@ == streak_code(tier),
{
    let mut code: String = "streak_".to_owned();
    code.append(to_decimal(tier as i64).as_str());
    code
}

/// A code, if a condition holds.
pub open spec fn when(yes: bool, code: Seq<char>) -> Seq<Seq<char>> {
    if yes {
        seq![code]
    } else {
        Seq::empty()
    }
}

/// The badges a player qualifies for, in catalogue order.
pub open spec fn qualified_codes(
    player: Player,
    bets: Seq<Prediction>,
    matches: Seq<Match>,
) -> Seq<Seq<char>> {
    let total = total_points(player.id, bets);
    when(has_exact(player.id, bets), "first_exact"@)
        + when(has_perfect_day(player.id, bets, matches), "perfect_day"@)
        + when(total >= POINT_TIERS@[0], point_code(POINT_TIERS@[0]))
        + when(total >= POINT_TIERS@[1], point_code(POINT_TIERS@[1]))
        + when(total >= POINT_TIERS@[2], point_code(POINT_TIERS@[2]))
        + when(player.best_streak >= STREAK_TIERS@[0], streak_code(STREAK_TIERS@[0]))
        + when(player.best_streak >= STREAK_TIERS@[1], streak_code(STREAK_TIERS@[1]))
        + when(has_marathon(player.id, bets, matches), "marathon"@)
}

fn push_when(out: &mut Vec<String>, yes: bool, code: String)
    ensures
        texts(final(out)@) == texts(old(out)@) + when(yes, code@),
{
    let ghost before = out@;
    if yes {
        out.push(code);
    }
    assert(texts(out@) =~= texts(before) + when(yes, code@));
}

/// The badges a player qualifies for.
pub fn qualified(player: Player, bets: &Vec<Prediction>, matches: &Vec<Match>) -> (r: Vec<String>)
    ensures
        texts(r@) == qualified_codes(player, bets@, matches@),
{
    let mut out: Vec<String> = Vec::new();
    assert(texts(out@) =~= Seq::empty());
    push_when(&mut out, found_exact(player.id, bets), "first_exact".to_owned());
    push_when(&mut out, found_perfect_day(player.id, bets, matches), "perfect_day".to_owned());
    let total: i128 = sum_points(player.id, bets);
    let points: [i64; 3] = POINT_TIERS;
    push_when(&mut out, total >= points[0] as i128, point_badge(points[0]));
    push_when(&mut out, total >= points[1] as i128, point_badge(points[1]));
    push_when(&mut out, total >= points[2] as i128, point_badge(points[2]));
    let streaks: [i32; 2] = STREAK_TIERS;
    push_when(&mut out, player.best_streak >= streaks[0], streak_badge(streaks[0]));
    push_when(&mut out, player.best_streak >= streaks[1], streak_badge(streaks[1]));
    push_when(&mut out, found_marathon(player.id, bets, matches), "marathon".to_owned());
    assert(texts(out@) =~= qualified_codes(player, bets@, matches@));
    out
}

/// What identifies a given badge: the space, the player and the code.
pub open spec fn grant_key(g: Achievement) -> (u128, u128, Seq<char>) {
    (g.tenant_id, g.user_id, g.code@)
}

/// The keys of some given badges.
pub open spec fn grant_keys(grants: Seq<Achievement>) -> Seq<(u128, u128, Seq<char>)> {
    Seq::new(grants.len(), |i: int| grant_key(grants[i]))
}

/// The badges with some codes that a player was not given yet.
pub open spec fn missing(
    player: Player,
    codes: Seq<Seq<char>>,
    given: Seq<(u128, u128, Seq<char>)>,
) -> Seq<(u128, u128, Seq<char>)>
    decreases codes.len(),
{
    if codes.len() == 0 {
        Seq::empty()
    } else {
        let before = missing(player, codes.drop_last(), given);
        let key = (player.tenant_id, player.id, codes.last());
        if (given + before).contains(key) {
            before
        } else {
            before.push(key)
        }
    }
}

/// The badges that the players qualify for and were not given yet.
pub open spec fn new_grants(
    given: Seq<(u128, u128, Seq<char>)>,
    players: Seq<Player>,
    bets: Seq<Prediction>,
    matches: Seq<Match>,
) -> Seq<(u128, u128, Seq<char>)>
    decreases players.len(),
{
    if players.len() == 0 {
        Seq::empty()
    } else {
        let before = new_grants(given, players.drop_last(), bets, matches);
        before + missing(
            players.last(),
            qualified_codes(players.last(), bets, matches),
            given + before,
        )
    }
}

/// Whether badges were only added, neither seen nor announced, earned at a given
/// instant.
pub open spec fn only_added(
    before: Seq<Achievement>,
    after: Seq<Achievement>,
    at: Timestamp,
) -> bool {
    &&& before.len() <= after.len()
    &&& forall|i: int| 0 <= i < before.len() ==> #[trigger] after[i] == before[i]
    &&& forall|i: int|
        before.len() <= i < after.len() ==> (#[trigger] after[i]).earned_at == at && !after[i].seen
            && after[i].notified_at is None
}

fn was_given(given: &Vec<Achievement>, player: Player, code: &str) -> (r: bool)
    ensures
        r == grant_keys(given@).contains((player.tenant_id, player.id, code@)),
{
    let ghost key = (player.tenant_id, player.id, code@);
    let mut i: usize = 0;
    while i < given.len()
        invariant
            i <= given.len(),
            key == (player.tenant_id, player.id, code@),
            forall|k: int| 0 <= k < i ==> grant_keys(given@)[k] != key,
        decreases given.len() - i,
    {
        let g: &Achievement = &given[i];
        if g.tenant_id == player.tenant_id && g.user_id == player.id && str_eq(
            g.code.as_str(),
            code,
        ) {
            assert(grant_keys(given@)[i as int] == key);
            return true;
        }
        i = i + 1;
    }
    false
}

fn push_missing(rows: &mut Vec<Achievement>, player: Player, codes: Vec<String>, at: Timestamp)
    ensures
        grant_keys(final(rows)@) == grant_keys(old(rows)@) + missing(
            player,
            texts(codes@),
            grant_keys(old(rows)@),
        ),
        only_added(old(rows)@, final(rows)@, at),
{
    let ghost first = rows@;
    let ghost start = grant_keys(rows@);
    let ghost all = texts(codes@);
    let mut i: usize = 0;
    assert(start =~= start + missing(player, all.take(0), start));
    while i < codes.len()
        invariant
            i <= codes.len(),
            all == texts(codes@),
            start == grant_keys(first),
            grant_keys(rows@) == start + missing(player, all.take(i as int), start),
            only_added(first, rows@, at),
        decreases codes.len() - i,
    {
        assert(all.take(i + 1).drop_last() =~= all.take(i as int));
        assert(all.take(i + 1).last() == codes@[i as int]@);
        if !was_given(rows, player, codes[i].as_str()) {
            let ghost before = rows@;
            rows.push(
                Achievement {
                    tenant_id: player.tenant_id,
                    user_id: player.id,
                    code: codes[i].clone(),
                    earned_at: at,
                    seen: false,
                    notified_at: None,
                },
            );
            assert(grant_keys(rows@) =~= grant_keys(before).push(
                (player.tenant_id, player.id, codes@[i as int]@),
            ));
            assert(grant_keys(rows@) =~= start + missing(player, all.take(i + 1), start));
        }
        i = i + 1;
    }
    assert(all.take(all.len() as int) =~= all);
}

/// Runs every rule over all players and adds the badges they qualify for and were
/// not given yet. A badge that was given stays as it is, whether or not its rule
/// still holds.
pub fn evaluate_all(
    rows: &mut Vec<Achievement>,
    players: &Vec<Player>,
    bets: &Vec<Prediction>,
    matches: &Vec<Match>,
    at: Timestamp,
)
    ensures
        grant_keys(final(rows)@) == grant_keys(old(rows)@) + new_grants(
            grant_keys(old(rows)@),
            players@,
            bets@,
            matches@,
        ),
        only_added(old(rows)@, final(rows)@, at),
{
    let ghost first = rows@;
    let ghost given = grant_keys(rows@);
    let mut i: usize = 0;
    assert(given =~= given + new_grants(given, players@.take(0), bets@, matches@));
    while i < players.len()
        invariant
            i <= players.len(),
            given == grant_keys(first),
            grant_keys(rows@) == given + new_grants(
                given,
                players@.take(i as int),
                bets@,
                matches@,
            ),
            only_added(first, rows@, at),
        decreases players.len() - i,
    {
        assert(players@.take(i + 1).drop_last() =~= players@.take(i as int));
        let ghost middle = rows@;
        let codes: Vec<String> = qualified(players[i], bets, matches);
        push_missing(rows, players[i], codes, at);
        assert forall|k: int| 0 <= k < first.len() implies #[trigger] rows@[k] == first[k] by {
            assert(rows@[k] == middle[k]);
        }
        assert forall|k: int| first.len() <= k < rows@.len() implies (
        #[trigger] rows@[k]).earned_at == at && !rows@[k].seen && rows@[k].notified_at is None by {
            if k < middle.len() {
                assert(rows@[k] == middle[k]);
            }
        }
        assert(grant_keys(rows@) =~= given + new_grants(
            given,
            players@.take(i + 1),
            bets@,
            matches@,
        ));
        i = i + 1;
    }
    assert(players@.take(players@.len() as int) =~= players@);
}

/// The codes of the first `n` badges of the catalogue that are among some codes.
pub open spec fn listed(codes: Seq<Seq<char>>, n: int) -> Seq<Seq<char>>
    decreases n,
{
    if n <= 0 {
        Seq::empty()
    } else {
        listed(codes, n - 1) + when(codes.contains(badge_at(n - 1).code@), badge_at(n - 1).code@)
    }
}

/// The known codes among some codes, each once, in catalogue order.
pub open spec fn in_catalog_order(codes: Seq<Seq<char>>) -> Seq<Seq<char>> {
    listed(codes, BADGE_COUNT as int)
}

/// The codes a player earned, in catalogue order.
pub fn earned_codes(rows: &Vec<String>) -> (r: Vec<String>)
    ensures
        texts(r@) == in_catalog_order(texts(rows@)),
{
    let mut out: Vec<String> = Vec::new();
    let mut i: usize = 0;
    assert(texts(out@) =~= listed(texts(rows@), 0));
    while i < BADGE_COUNT
        invariant
            i <= BADGE_COUNT,
            texts(out@) == listed(texts(rows@), i as int),
        decreases BADGE_COUNT - i,
    {
        let code: &'static str = badge(i).code;
        push_when(&mut out, any_text(rows, code), code.to_owned());
        i = i + 1;
    }
    out
}

/// A badge a player earned, and whether they have seen it.
#[derive(Debug)]
pub struct Earned {
    pub code: String,
    pub seen: bool,
}

/// The codes of the badges not seen yet.
pub open spec fn unseen_codes(rows: Seq<Earned>) -> Seq<Seq<char>>
    decreases rows.len(),
{
    if rows.len() == 0 {
        Seq::empty()
    } else {
        unseen_codes(rows.drop_last()) + when(!rows.last().seen, rows.last().code@)
    }
}

/// The same badges, all seen.
pub open spec fn all_seen(rows: Seq<Earned>) -> Seq<Earned> {
    Seq::new(rows.len(), |i: int| Earned { code: rows[i].code, seen: true })
}

/// Marks every earned badge of a player as seen and returns the codes that had
/// not been seen yet, in catalogue order.
pub fn take_unseen(rows: &mut Vec<Earned>) -> (r: Vec<String>)
    ensures
        texts(r@) == in_catalog_order(unseen_codes(old(rows)@)),
        final(rows)@ == all_seen(old(rows)@),
{
    let ghost start = rows@;
    let n: usize = rows.len();
    let mut unseen: Vec<String> = Vec::new();
    let mut i: usize = 0;
    assert(texts(unseen@) =~= unseen_codes(start.take(0)));
    while i < n
        invariant
            i <= n,
            n == rows@.len(),
            n == start.len(),
            texts(unseen@) == unseen_codes(start.take(i as int)),
            forall|k: int|
                0 <= k < i ==> #[trigger] rows@[k] == (Earned { code: start[k].code, seen: true }),
            forall|k: int| i <= k < n ==> #[trigger] rows@[k] == start[k],
        decreases n - i,
    {
        assert(start.take(i + 1).drop_last() =~= start.take(i as int));
        push_when(&mut unseen, !rows[i].seen, rows[i].code.clone());
        let code: String = rows[i].code.clone();
        rows.set(i, Earned { code, seen: true });
        i = i + 1;
    }
    assert(start.take(n as int) =~= start);
    assert(rows@ =~= all_seen(start));
    earned_codes(&unseen)
}

/// The codes given to one player, in the order of the grants.
pub open spec fn codes_given_to(grants: Seq<Achievement>, user: u128) -> Seq<Seq<char>>
    decreases grants.len(),
{
    if grants.len() == 0 {
        Seq::empty()
    } else {
        codes_given_to(grants.drop_last(), user) + when(
            grants.last().user_id == user,
            grants.last().code@,
        )
    }
}

fn codes_of(grants: &Vec<Achievement>, user: u128) -> (r: Vec<String>)
    ensures
        texts(r@) == codes_given_to(grants@, user),
{
    let mut out: Vec<String> = Vec::new();
    let mut i: usize = 0;
    assert(texts(out@) =~= codes_given_to(grants@.take(0), user));
    while i < grants.len()
        invariant
            i <= grants.len(),
            texts(out@) == codes_given_to(grants@.take(i as int), user),
        decreases grants.len() - i,
    {
        assert(grants@.take(i + 1).drop_last() =~= grants@.take(i as int));
        push_when(&mut out, grants[i].user_id == user, grants[i].code.clone());
        i = i + 1;
    }
    assert(grants@.take(grants@.len() as int) =~= grants@);
    out
}

/// Whether some grant went to this player.
pub open spec fn is_granted(grants: Seq<Achievement>, user: u128) -> bool {
    exists|i: int| 0 <= i < grants.len() && (#[trigger] grants[i]).user_id == user
}

/// The badges of every player of a space, in catalogue order, by player.
pub fn earned_by_user(grants: &Vec<Achievement>) -> (r: HashMap<u128, Vec<String>>)
    ensures
        forall|user: u128| #[trigger] r@.contains_key(user) <==> is_granted(grants@, user),
        forall|user: u128| #[trigger]
            r@.contains_key(user) ==> texts(r@[user]@) == in_catalog_order(
                codes_given_to(grants@, user),
            ),
{
    broadcast use vstd::std_specs::hash::group_hash_axioms;

    let mut out: HashMap<u128, Vec<String>> = HashMap::new();
    let mut i: usize = 0;
    while i < grants.len()
        invariant
            i <= grants.len(),
            forall|user: u128| #[trigger]
                out@.contains_key(user) <==> exists|k: int|
                    0 <= k < i && (#[trigger] grants@[k]).user_id == user,
            forall|user: u128| #[trigger]
                out@.contains_key(user) ==> texts(out@[user]@) == in_catalog_order(
                    codes_given_to(grants@, user),
                ),
        decreases grants.len() - i,
    {
        let user: u128 = grants[i].user_id;
        if !out.contains_key(&user) {
            let codes: Vec<String> = codes_of(grants, user);
            out.insert(user, earned_codes(&codes));
        }
        i = i + 1;
    }
    out
}

/// Every milestone has its badge in the catalogue.
pub proof fn tiers_have_badges()
    ensures
        forall|i: int| 0 <= i < 3 ==> known(point_code(#[trigger] POINT_TIERS@[i])),
        forall|i: int| 0 <= i < 2 ==> known(streak_code(#[trigger] STREAK_TIERS@[i])),
{
    tier_codes();
}

/// Every badge a player can qualify for is in the catalogue.
pub proof fn qualified_codes_are_known(
    player: Player,
    bets: Seq<Prediction>,
    matches: Seq<Match>,
    i: int,
)
    requires
        0 <= i < qualified_codes(player, bets, matches).len(),
    ensures
        known(qualified_codes(player, bets, matches)[i]),
{
    tier_codes();
    let total = total_points(player.id, bets);
    let c0 = badge_at(0).code@;
    let c1 = badge_at(1).code@;
    let c2 = badge_at(2).code@;
    let c3 = badge_at(3).code@;
    let c4 = badge_at(4).code@;
    let c5 = badge_at(5).code@;
    let c6 = badge_at(6).code@;
    let c7 = badge_at(7).code@;
    let s0 = when(has_exact(player.id, bets), c0);
    let s1 = s0 + when(has_perfect_day(player.id, bets, matches), c1);
    when_keeps_known(s0, has_perfect_day(player.id, bets, matches), c1);
    let s2 = s1 + when(total >= POINT_TIERS@[0], c2);
    when_keeps_known(s1, total >= POINT_TIERS@[0], c2);
    let s3 = s2 + when(total >= POINT_TIERS@[1], c3);
    when_keeps_known(s2, total >= POINT_TIERS@[1], c3);
    let s4 = s3 + when(total >= POINT_TIERS@[2], c4);
    when_keeps_known(s3, total >= POINT_TIERS@[2], c4);
    let s5 = s4 + when(player.best_streak >= STREAK_TIERS@[0], c5);
    when_keeps_known(s4, player.best_streak >= STREAK_TIERS@[0], c5);
    let s6 = s5 + when(player.best_streak >= STREAK_TIERS@[1], c6);
    when_keeps_known(s5, player.best_streak >= STREAK_TIERS@[1], c6);
    when_keeps_known(s6, has_marathon(player.id, bets, matches), c7);
    let all = s6 + when(has_marathon(player.id, bets, matches), c7);
    assert(all == qualified_codes(player, bets, matches));
    assert(known(all[i]));
}

/// Adding a known code to known ones leaves all known.
proof fn when_keeps_known(codes: Seq<Seq<char>>, yes: bool, code: Seq<char>)
    requires
        forall|k: int| 0 <= k < codes.len() ==> known(#[trigger] codes[k]),
        known(code),
    ensures
        forall|k: int|
            0 <= k < (codes + when(yes, code)).len() ==> known(
                #[trigger] (codes + when(yes, code))[k],
            ),
{
    let all = codes + when(yes, code);
    assert forall|k: int| 0 <= k < all.len() implies known(#[trigger] all[k]) by {
        if k < codes.len() {
            assert(all[k] == codes[k]);
        } else {
            assert(all[k] == code);
        }
    }
}

/// Adding a code that is not there yet keeps the codes distinct.
proof fn when_keeps_distinct(codes: Seq<Seq<char>>, yes: bool, code: Seq<char>)
    requires
        codes.no_duplicates(),
        !codes.contains(code),
    ensures
        (codes + when(yes, code)).no_duplicates(),
        forall|x: Seq<char>| #[trigger]
            (codes + when(yes, code)).contains(x) ==> codes.contains(x) || x == code,
{
    let all = codes + when(yes, code);
    assert forall|x: Seq<char>| #[trigger] all.contains(x) implies codes.contains(x) || x == code by {
        let i = choose|i: int| 0 <= i < all.len() && all[i] == x;
        if i < codes.len() {
            assert(codes[i] == x);
        }
    }
}

/// A player qualifies for each badge at most once.
pub proof fn qualified_codes_are_distinct(
    player: Player,
    bets: Seq<Prediction>,
    matches: Seq<Match>,
)
    ensures
        qualified_codes(player, bets, matches).no_duplicates(),
{
    tier_codes();
    assert forall|i: int, j: int| 0 <= i < 8 && 0 <= j < 8 && i != j implies #[trigger] badge_at(
        i,
    ).code@ != #[trigger] badge_at(j).code@ by {
        if badge_at(i).code@ == badge_at(j).code@ {
            codes_are_unique(i, j);
        }
    }
    let total = total_points(player.id, bets);
    let c0 = badge_at(0).code@;
    let c1 = badge_at(1).code@;
    let c2 = badge_at(2).code@;
    let c3 = badge_at(3).code@;
    let c4 = badge_at(4).code@;
    let c5 = badge_at(5).code@;
    let c6 = badge_at(6).code@;
    let c7 = badge_at(7).code@;
    let s0 = when(has_exact(player.id, bets), c0);
    let s1 = s0 + when(has_perfect_day(player.id, bets, matches), c1);
    when_keeps_distinct(s0, has_perfect_day(player.id, bets, matches), c1);
    let s2 = s1 + when(total >= POINT_TIERS@[0], c2);
    when_keeps_distinct(s1, total >= POINT_TIERS@[0], c2);
    let s3 = s2 + when(total >= POINT_TIERS@[1], c3);
    when_keeps_distinct(s2, total >= POINT_TIERS@[1], c3);
    let s4 = s3 + when(total >= POINT_TIERS@[2], c4);
    when_keeps_distinct(s3, total >= POINT_TIERS@[2], c4);
    let s5 = s4 + when(player.best_streak >= STREAK_TIERS@[0], c5);
    when_keeps_distinct(s4, player.best_streak >= STREAK_TIERS@[0], c5);
    let s6 = s5 + when(player.best_streak >= STREAK_TIERS@[1], c6);
    when_keeps_distinct(s5, player.best_streak >= STREAK_TIERS@[1], c6);
    when_keeps_distinct(s6, has_marathon(player.id, bets, matches), c7);
}

/// The codes of the milestones are those of the catalogue.
proof fn tier_codes()
    ensures
        badge_at(2).code@ == point_code(POINT_TIERS@[0]),
        badge_at(3).code@ == point_code(POINT_TIERS@[1]),
        badge_at(4).code@ == point_code(POINT_TIERS@[2]),
        badge_at(5).code@ == streak_code(STREAK_TIERS@[0]),
        badge_at(6).code@ == streak_code(STREAK_TIERS@[1]),
{
    reveal_codes();
    reveal_strlit("pts_");
    reveal_strlit("streak_");
    reveal_with_fuel(decimal_nat, 4);
    assert(POINT_TIERS@[0] == 50 && POINT_TIERS@[1] == 100 && POINT_TIERS@[2] == 250);
    assert(STREAK_TIERS@[0] == 5 && STREAK_TIERS@[1] == 10);
    assert(badge_at(2).code@ =~= point_code(50));
    assert(badge_at(3).code@ =~= point_code(100));
    assert(badge_at(4).code@ =~= point_code(250));
    assert(badge_at(5).code@ =~= streak_code(5));
    assert(badge_at(6).code@ =~= streak_code(10));
}

/// What the missing badges of a player are.
proof fn missing_grants(
    player: Player,
    codes: Seq<Seq<char>>,
    given: Seq<(u128, u128, Seq<char>)>,
)
    ensures
        given.no_duplicates() ==> (given + missing(player, codes, given)).no_duplicates(),
        forall|c: int|
            0 <= c < codes.len() ==> (given + missing(player, codes, given)).contains(
                (player.tenant_id, player.id, #[trigger] codes[c]),
            ),
    decreases codes.len(),
{
    if codes.len() > 0 {
        let front = codes.drop_last();
        missing_grants(player, front, given);
        let before = given + missing(player, front, given);
        let all = given + missing(player, codes, given);
        let last = (player.tenant_id, player.id, codes.last());
        assert(all =~= if before.contains(last) {
            before
        } else {
            before.push(last)
        });
        assert forall|c: int| 0 <= c < codes.len() implies all.contains(
            (player.tenant_id, player.id, #[trigger] codes[c]),
        ) by {
            let key = (player.tenant_id, player.id, codes[c]);
            if c < front.len() {
                assert(front[c] == codes[c]);
                let k = choose|k: int| 0 <= k < before.len() && before[k] == key;
                assert(all[k] == key);
            } else if !before.contains(last) {
                assert(all[all.len() - 1] == key);
            }
        }
    } else {
        assert(given + missing(player, codes, given) =~= given);
    }
}

/// A badge is given once: where none was given twice before a run, none is
/// afterwards.
pub proof fn badges_are_given_once(
    given: Seq<(u128, u128, Seq<char>)>,
    players: Seq<Player>,
    bets: Seq<Prediction>,
    matches: Seq<Match>,
)
    requires
        given.no_duplicates(),
    ensures
        (given + new_grants(given, players, bets, matches)).no_duplicates(),
    decreases players.len(),
{
    if players.len() == 0 {
        assert(given + new_grants(given, players, bets, matches) =~= given);
    } else {
        let front = players.drop_last();
        let last = players.last();
        let before = new_grants(given, front, bets, matches);
        badges_are_given_once(given, front, bets, matches);
        missing_grants(last, qualified_codes(last, bets, matches), given + before);
        assert(given + new_grants(given, players, bets, matches) =~= (given + before) + missing(
            last,
            qualified_codes(last, bets, matches),
            given + before,
        ));
    }
}

/// Every badge a player qualifies for has been given, before or in this run.
pub proof fn evaluation_is_complete(
    given: Seq<(u128, u128, Seq<char>)>,
    players: Seq<Player>,
    bets: Seq<Prediction>,
    matches: Seq<Match>,
    i: int,
    c: int,
)
    requires
        0 <= i < players.len(),
        0 <= c < qualified_codes(players[i], bets, matches).len(),
    ensures
        (given + new_grants(given, players, bets, matches)).contains(
            (
                players[i].tenant_id,
                players[i].id,
                qualified_codes(players[i], bets, matches)[c],
            ),
        ),
    decreases players.len(),
{
    let front = players.drop_last();
    let last = players.last();
    let codes = qualified_codes(last, bets, matches);
    let before = given + new_grants(given, front, bets, matches);
    let all = given + new_grants(given, players, bets, matches);
    assert(all =~= before + missing(last, codes, before));
    let key = (players[i].tenant_id, players[i].id, qualified_codes(players[i], bets, matches)[c]);
    if i < front.len() {
        evaluation_is_complete(given, front, bets, matches, i, c);
        assert(front[i] == players[i]);
        let k = choose|k: int| 0 <= k < before.len() && before[k] == key;
        assert(all[k] == key);
    } else {
        missing_grants(last, codes, before);
        assert(codes[c] == key.2);
    }
}

proof fn nothing_missing(
    player: Player,
    codes: Seq<Seq<char>>,
    given: Seq<(u128, u128, Seq<char>)>,
)
    requires
        forall|c: int|
            0 <= c < codes.len() ==> given.contains(
                (player.tenant_id, player.id, #[trigger] codes[c]),
            ),
    ensures
        missing(player, codes, given) == Seq::<(u128, u128, Seq<char>)>::empty(),
    decreases codes.len(),
{
    if codes.len() > 0 {
        let front = codes.drop_last();
        assert forall|c: int| 0 <= c < front.len() implies given.contains(
            (player.tenant_id, player.id, #[trigger] front[c]),
        ) by {
            assert(codes[c] == front[c]);
        }
        nothing_missing(player, front, given);
        assert(codes[codes.len() - 1] == codes.last());
        assert(given + missing(player, front, given) =~= given);
    }
}

proof fn nothing_new(
    given: Seq<(u128, u128, Seq<char>)>,
    players: Seq<Player>,
    bets: Seq<Prediction>,
    matches: Seq<Match>,
)
    requires
        forall|i: int, c: int|
            0 <= i < players.len() && 0 <= c < qualified_codes(players[i], bets, matches).len()
                ==> given.contains(
                (
                    (#[trigger] players[i]).tenant_id,
                    players[i].id,
                    #[trigger] qualified_codes(players[i], bets, matches)[c],
                ),
            ),
    ensures
        new_grants(given, players, bets, matches) == Seq::<(u128, u128, Seq<char>)>::empty(),
    decreases players.len(),
{
    if players.len() > 0 {
        let front = players.drop_last();
        let last = players.last();
        assert forall|i: int, c: int|
            0 <= i < front.len() && 0 <= c < qualified_codes(front[i], bets, matches).len() implies given.contains(
            (
                (#[trigger] front[i]).tenant_id,
                front[i].id,
                #[trigger] qualified_codes(front[i], bets, matches)[c],
            ),
        ) by {
            assert(players[i] == front[i]);
        }
        nothing_new(given, front, bets, matches);
        let codes = qualified_codes(last, bets, matches);
        assert forall|c: int| 0 <= c < codes.len() implies given.contains(
            (last.tenant_id, last.id, #[trigger] codes[c]),
        ) by {
            assert(players[players.len() - 1] == last);
        }
        nothing_missing(last, codes, given);
        assert(given + new_grants(given, front, bets, matches) =~= given);
    }
}

/// Running the rules again on what they gave adds, changes and removes nothing.
pub proof fn evaluation_is_idempotent(
    rows: Seq<Achievement>,
    once: Seq<Achievement>,
    twice: Seq<Achievement>,
    players: Seq<Player>,
    bets: Seq<Prediction>,
    matches: Seq<Match>,
    later: Timestamp,
)
    requires
        grant_keys(once) == grant_keys(rows) + new_grants(
            grant_keys(rows),
            players,
            bets,
            matches,
        ),
        grant_keys(twice) == grant_keys(once) + new_grants(
            grant_keys(once),
            players,
            bets,
            matches,
        ),
        only_added(once, twice, later),
    ensures
        twice == once,
{
    let given = grant_keys(rows);
    let after = grant_keys(once);
    assert forall|i: int, c: int|
        0 <= i < players.len() && 0 <= c < qualified_codes(players[i], bets, matches).len() implies after.contains(
        (
            (#[trigger] players[i]).tenant_id,
            players[i].id,
            #[trigger] qualified_codes(players[i], bets, matches)[c],
        ),
    ) by {
        evaluation_is_complete(given, players, bets, matches, i, c);
    }
    nothing_new(after, players, bets, matches);
    assert(grant_keys(twice).len() == grant_keys(once).len());
    assert(twice =~= once);
}

/// A run leaves every badge that was given as it was: when it was earned, whether
/// it was seen, and when it was announced.
pub proof fn given_badges_stay(
    rows: Seq<Achievement>,
    after: Seq<Achievement>,
    at: Timestamp,
    i: int,
)
    requires
        only_added(rows, after, at),
        0 <= i < rows.len(),
    ensures
        i < after.len(),
        after[i] == rows[i],
{
}

/// Once a player has been shown their badges, nothing is left to show.
pub proof fn badges_are_shown_once(rows: Seq<Earned>)
    ensures
        in_catalog_order(unseen_codes(all_seen(rows))).len() == 0,
    decreases rows.len(),
{
    nothing_unseen(all_seen(rows));
    nothing_listed(unseen_codes(all_seen(rows)), BADGE_COUNT as int);
}

proof fn nothing_unseen(rows: Seq<Earned>)
    requires
        forall|i: int| 0 <= i < rows.len() ==> (#[trigger] rows[i]).seen,
    ensures
        unseen_codes(rows).len() == 0,
    decreases rows.len(),
{
    if rows.len() > 0 {
        nothing_unseen(rows.drop_last());
        assert(rows[rows.len() - 1].seen);
    }
}

proof fn nothing_listed(codes: Seq<Seq<char>>, n: int)
    requires
        codes.len() == 0,
    ensures
        listed(codes, n).len() == 0,
    decreases n,
{
    if n > 0 {
        nothing_listed(codes, n - 1);
    }
}

/// The first badge is for whoever has a prediction worth three points or more.
pub proof fn one_exact_score_is_enough(user: u128, bets: Seq<Prediction>)
    ensures
        has_exact(user, bets) <==> exists|i: int|
            0 <= i < bets.len() && (#[trigger] bets[i]).user_id == user && bets[i].points is Some
                && bets[i].points->0 >= 3,
{
    if has_exact(user, bets) {
        let i = choose|i: int| 0 <= i < bets.len() && exact_hit(#[trigger] bets[i], user);
        assert(bets[i].user_id == user);
    }
    if exists|i: int|
        0 <= i < bets.len() && (#[trigger] bets[i]).user_id == user && bets[i].points is Some
            && bets[i].points->0 >= 3 {
        let i = choose|i: int|
            0 <= i < bets.len() && (#[trigger] bets[i]).user_id == user && bets[i].points is Some
                && bets[i].points->0 >= 3;
        assert(exact_hit(bets[i], user));
    }
}

/// A prediction counts for the day, in UTC, on which its match kicked off, once it
/// has points and the match is finished.
pub proof fn predictions_count_for_the_day_of_the_match(
    p: Prediction,
    user: u128,
    matches: Seq<Match>,
    f: int,
    day: int,
)
    ensures
        0 <= f < matches.len() && matches[f].id == p.match_id && (forall|j: int|
            0 <= j < f ==> (#[trigger] matches[j]).id != p.match_id) ==> (settled_day(
            p,
            user,
            matches,
        ) == Some(day) <==> p.user_id == user && p.points is Some && matches[f].status@
            == "FINISHED"@ && day * 86_400 <= matches[f].kickoff_at.secs < (day + 1) * 86_400),
        (forall|j: int| 0 <= j < matches.len() ==> (#[trigger] matches[j]).id != p.match_id)
            ==> settled_day(p, user, matches) is None,
{
    matches_are_found_by_id(matches, p.match_id);
}

/// A day is perfect where two predictions or more count for it and each that does is
/// worth three points or more; a single one is not enough.
pub proof fn perfect_days_have_two_exact_scores(
    user: u128,
    bets: Seq<Prediction>,
    matches: Seq<Match>,
    i: int,
    j: int,
    day: int,
)
    ensures
        0 <= i < bets.len() && 0 <= j < bets.len() && i != j && settled_day(bets[i], user, matches)
            == Some(day) && settled_day(bets[j], user, matches) == Some(day) && (forall|k: int|
            0 <= k < bets.len() && settled_day(#[trigger] bets[k], user, matches) == Some(day)
                ==> bets[k].points->0 >= 3) ==> has_perfect_day(user, bets, matches),
        has_perfect_day(user, bets, matches) ==> exists|d: int, x: int, y: int|
            0 <= x < y < bets.len() && settled_day(#[trigger] bets[x], user, matches) == Some(d)
                && settled_day(#[trigger] bets[y], user, matches) == Some(d) && #[trigger] all_exact(
                user,
                bets,
                matches,
                d,
            ),
        all_exact(user, bets, matches, day) <==> forall|k: int|
            0 <= k < bets.len() && settled_day(#[trigger] bets[k], user, matches) == Some(day)
                ==> bets[k].points->0 >= 3,
{
    if 0 <= i < bets.len() && 0 <= j < bets.len() && i != j && settled_day(bets[i], user, matches)
        == Some(day) && settled_day(bets[j], user, matches) == Some(day) && all_exact(
        user,
        bets,
        matches,
        day,
    ) {
        assert(perfect_pair(user, bets, matches, i, j));
    }
    if has_perfect_day(user, bets, matches) {
        let (x, y) = choose|x: int, y: int| perfect_pair(user, bets, matches, x, y);
        let d = settled_day(bets[x], user, matches)->0;
        assert(all_exact(user, bets, matches, d));
        if x < y {
            assert(settled_day(bets[x], user, matches) == Some(d) && settled_day(
                bets[y],
                user,
                matches,
            ) == Some(d));
        } else {
            assert(settled_day(bets[y], user, matches) == Some(d) && settled_day(
                bets[x],
                user,
                matches,
            ) == Some(d));
        }
    }
}

/// Whether each prediction that counts for a day is exact.
pub open spec fn all_exact(user: u128, bets: Seq<Prediction>, matches: Seq<Match>, day: int) -> bool {
    forall|k: int|
        0 <= k < bets.len() && settled_day(#[trigger] bets[k], user, matches) == Some(day)
            ==> bets[k].points->0 >= 3
}

/// Each prediction in turn adds its points to its player.
pub proof fn points_add_up(user: u128, bets: Seq<Prediction>, p: Prediction)
    ensures
        total_points(user, Seq::empty()) == 0,
        p.user_id == user && p.points is Some ==> total_points(user, bets.push(p)) == total_points(
            user,
            bets,
        ) + p.points->0,
        p.user_id != user || p.points is None ==> total_points(user, bets.push(p))
            == total_points(user, bets),
{
    assert(bets.push(p).drop_last() =~= bets);
}

proof fn two_of_a_stage(matches: Seq<Match>, stage: Seq<char>)
    ensures
        stage_size(matches, stage) >= 0,
        stage_size(matches, stage) >= 1 <==> exists|a: int|
            0 <= a < matches.len() && opt_text((#[trigger] matches[a]).stage) == Some(stage),
        stage_size(matches, stage) >= 2 <==> exists|a: int, b: int|
            0 <= a < b < matches.len() && opt_text((#[trigger] matches[a]).stage) == Some(stage)
                && opt_text((#[trigger] matches[b]).stage) == Some(stage),
    decreases matches.len(),
{
    if matches.len() > 0 {
        let front = matches.drop_last();
        let n = matches.len() - 1;
        two_of_a_stage(front, stage);
        assert(forall|a: int| 0 <= a < n ==> #[trigger] front[a] == matches[a]);
        let here = opt_text(matches[n].stage) == Some(stage);
        if stage_size(front, stage) >= 1 {
            let a = choose|a: int|
                0 <= a < front.len() && opt_text((#[trigger] front[a]).stage) == Some(stage);
            assert(opt_text(matches[a].stage) == Some(stage));
            assert(here ==> opt_text(matches[n].stage) == Some(stage));
        }
        if stage_size(front, stage) >= 2 {
            let (a, b) = choose|a: int, b: int|
                0 <= a < b < front.len() && opt_text((#[trigger] front[a]).stage) == Some(stage)
                    && opt_text((#[trigger] front[b]).stage) == Some(stage);
            assert(opt_text(matches[a].stage) == Some(stage) && opt_text(matches[b].stage) == Some(
                stage,
            ));
        }
        if exists|a: int|
            0 <= a < matches.len() && opt_text((#[trigger] matches[a]).stage) == Some(stage) {
            let a = choose|a: int|
                0 <= a < matches.len() && opt_text((#[trigger] matches[a]).stage) == Some(stage);
            if a < n {
                assert(opt_text(front[a].stage) == Some(stage));
            }
        }
        if exists|a: int, b: int|
            0 <= a < b < matches.len() && opt_text((#[trigger] matches[a]).stage) == Some(stage)
                && opt_text((#[trigger] matches[b]).stage) == Some(stage) {
            let (a, b) = choose|a: int, b: int|
                0 <= a < b < matches.len() && opt_text((#[trigger] matches[a]).stage) == Some(stage)
                    && opt_text((#[trigger] matches[b]).stage) == Some(stage);
            assert(opt_text(front[a].stage) == Some(stage));
            if b < n {
                assert(opt_text(front[b].stage) == Some(stage));
            }
        }
    }
}

/// A marathon is a bet on every match of a stage that has two or more; one match
/// without a bet is one too many.
pub proof fn marathons_cover_a_stage(
    user: u128,
    bets: Seq<Prediction>,
    matches: Seq<Match>,
    stage: Seq<char>,
)
    ensures
        has_marathon(user, bets, matches) <==> exists|s: Seq<char>|
            #[trigger] ran_marathon(user, bets, matches, s),
        ran_marathon(user, bets, matches, stage) <==> (exists|a: int, b: int|
            0 <= a < b < matches.len() && opt_text((#[trigger] matches[a]).stage) == Some(stage)
                && opt_text((#[trigger] matches[b]).stage) == Some(stage)) && (forall|k: int|
            0 <= k < matches.len() && opt_text((#[trigger] matches[k]).stage) == Some(stage)
                ==> exists|i: int|
                0 <= i < bets.len() && (#[trigger] bets[i]).user_id == user && bets[i].match_id
                    == matches[k].id),
{
    two_of_a_stage(matches, stage);
    if ran_marathon(user, bets, matches, stage) {
        assert forall|k: int|
            0 <= k < matches.len() && opt_text((#[trigger] matches[k]).stage) == Some(
                stage,
            ) implies exists|i: int|
            0 <= i < bets.len() && (#[trigger] bets[i]).user_id == user && bets[i].match_id
                == matches[k].id by {
            assert(has_bet(user, bets, matches[k].id));
        }
    }
}

proof fn one_code_more(codes: Seq<Seq<char>>, yes: bool, code: Seq<char>, x: Seq<char>)
    ensures
        (codes + when(yes, code)).contains(x) <==> codes.contains(x) || (yes && x == code),
{
    let all = codes + when(yes, code);
    if codes.contains(x) {
        let k = choose|k: int| 0 <= k < codes.len() && codes[k] == x;
        assert(all[k] == x);
    }
    if yes {
        assert(all[codes.len() as int] == code);
    }
    if all.contains(x) {
        let k = choose|k: int| 0 <= k < all.len() && all[k] == x;
        if k < codes.len() {
            assert(codes[k] == x);
        }
    }
}

/// The codes of the badges, no two alike.
pub proof fn code_of_each_badge()
    ensures
        badge_at(0).code@ == "first_exact"@,
        badge_at(1).code@ == "perfect_day"@,
        badge_at(2).code@ == "pts_50"@,
        badge_at(3).code@ == "pts_100"@,
        badge_at(4).code@ == "pts_250"@,
        badge_at(5).code@ == "streak_5"@,
        badge_at(6).code@ == "streak_10"@,
        badge_at(7).code@ == "marathon"@,
        forall|i: int, j: int|
            0 <= i < j < 8 ==> (#[trigger] badge_at(i)).code@ != (#[trigger] badge_at(j)).code@,
{
    assert forall|i: int, j: int| 0 <= i < j < 8 implies (#[trigger] badge_at(i)).code@ != (
    #[trigger] badge_at(j)).code@ by {
        if badge_at(i).code@ == badge_at(j).code@ {
            codes_are_unique(i, j);
        }
    }
}

/// Each badge is for those who did what it is for: an exact score, a perfect day,
/// 50, 100 or 250 points, a streak of 5 or 10, or a marathon. There is no other.
pub proof fn badges_are_for_what_they_say(
    player: Player,
    bets: Seq<Prediction>,
    matches: Seq<Match>,
    code: Seq<char>,
)
    ensures
        ({
            let codes = qualified_codes(player, bets, matches);
            &&& codes.contains("first_exact"@) <==> has_exact(player.id, bets)
            &&& codes.contains("perfect_day"@) <==> has_perfect_day(player.id, bets, matches)
            &&& codes.contains("pts_50"@) <==> total_points(player.id, bets) >= 50
            &&& codes.contains("pts_100"@) <==> total_points(player.id, bets) >= 100
            &&& codes.contains("pts_250"@) <==> total_points(player.id, bets) >= 250
            &&& codes.contains("streak_5"@) <==> player.best_streak >= 5
            &&& codes.contains("streak_10"@) <==> player.best_streak >= 10
            &&& codes.contains("marathon"@) <==> has_marathon(player.id, bets, matches)
            &&& codes.contains(code) ==> code == "first_exact"@ || code == "perfect_day"@ || code
                == "pts_50"@ || code == "pts_100"@ || code == "pts_250"@ || code == "streak_5"@
                || code == "streak_10"@ || code == "marathon"@
        }),
{
    code_of_each_badge();
    tier_codes();
    codes_one_by_one(player, bets, matches, "first_exact"@);
    codes_one_by_one(player, bets, matches, "perfect_day"@);
    codes_one_by_one(player, bets, matches, "pts_50"@);
    codes_one_by_one(player, bets, matches, "pts_100"@);
    codes_one_by_one(player, bets, matches, "pts_250"@);
    codes_one_by_one(player, bets, matches, "streak_5"@);
    codes_one_by_one(player, bets, matches, "streak_10"@);
    codes_one_by_one(player, bets, matches, "marathon"@);
    codes_one_by_one(player, bets, matches, code);
}

proof fn codes_one_by_one(
    player: Player,
    bets: Seq<Prediction>,
    matches: Seq<Match>,
    x: Seq<char>,
)
    ensures
        qualified_codes(player, bets, matches).contains(x) <==> {
            let total = total_points(player.id, bets);
            ||| has_exact(player.id, bets) && x == badge_at(0).code@
            ||| has_perfect_day(player.id, bets, matches) && x == badge_at(1).code@
            ||| total >= 50 && x == badge_at(2).code@
            ||| total >= 100 && x == badge_at(3).code@
            ||| total >= 250 && x == badge_at(4).code@
            ||| player.best_streak >= 5 && x == badge_at(5).code@
            ||| player.best_streak >= 10 && x == badge_at(6).code@
            ||| has_marathon(player.id, bets, matches) && x == badge_at(7).code@
        },
{
    code_of_each_badge();
    tier_codes();
    let total = total_points(player.id, bets);
    let s0 = when(has_exact(player.id, bets), "first_exact"@);
    assert(Seq::<Seq<char>>::empty() + s0 =~= s0);
    one_code_more(Seq::empty(), has_exact(player.id, bets), "first_exact"@, x);
    one_code_more(s0, has_perfect_day(player.id, bets, matches), "perfect_day"@, x);
    let s1 = s0 + when(has_perfect_day(player.id, bets, matches), "perfect_day"@);
    one_code_more(s1, total >= POINT_TIERS@[0], point_code(POINT_TIERS@[0]), x);
    let s2 = s1 + when(total >= POINT_TIERS@[0], point_code(POINT_TIERS@[0]));
    one_code_more(s2, total >= POINT_TIERS@[1], point_code(POINT_TIERS@[1]), x);
    let s3 = s2 + when(total >= POINT_TIERS@[1], point_code(POINT_TIERS@[1]));
    one_code_more(s3, total >= POINT_TIERS@[2], point_code(POINT_TIERS@[2]), x);
    let s4 = s3 + when(total >= POINT_TIERS@[2], point_code(POINT_TIERS@[2]));
    let best = player.best_streak;
    one_code_more(s4, best >= STREAK_TIERS@[0], streak_code(STREAK_TIERS@[0]), x);
    let s5 = s4 + when(best >= STREAK_TIERS@[0], streak_code(STREAK_TIERS@[0]));
    one_code_more(s5, best >= STREAK_TIERS@[1], streak_code(STREAK_TIERS@[1]), x);
    let s6 = s5 + when(best >= STREAK_TIERS@[1], streak_code(STREAK_TIERS@[1]));
    one_code_more(s6, has_marathon(player.id, bets, matches), "marathon"@, x);
}

/// The catalogue has eight badges, in this order, each with an icon named after its
/// code.
pub proof fn the_catalogue_has_eight_badges(code: Seq<char>)
    ensures
        catalog().len() == 8,
        catalog()[0].code@ == "first_exact"@ && catalog()[0].icon@ == "first_exact.svg"@,
        catalog()[1].code@ == "perfect_day"@ && catalog()[1].icon@ == "perfect_day.svg"@,
        catalog()[2].code@ == "pts_50"@ && catalog()[2].icon@ == "pts_50.svg"@,
        catalog()[3].code@ == "pts_100"@ && catalog()[3].icon@ == "pts_100.svg"@,
        catalog()[4].code@ == "pts_250"@ && catalog()[4].icon@ == "pts_250.svg"@,
        catalog()[5].code@ == "streak_5"@ && catalog()[5].icon@ == "streak_5.svg"@,
        catalog()[6].code@ == "streak_10"@ && catalog()[6].icon@ == "streak_10.svg"@,
        catalog()[7].code@ == "marathon"@ && catalog()[7].icon@ == "marathon.svg"@,
        known(code) <==> code == "first_exact"@ || code == "perfect_day"@ || code == "pts_50"@
            || code == "pts_100"@ || code == "pts_250"@ || code == "streak_5"@ || code
            == "streak_10"@ || code == "marathon"@,
        known(code) <==> def_of(code) is Some,
        known(code) ==> def_of(code)->0.code@ == code && catalog().contains(def_of(code)->0),
{
    code_of_each_badge();
    assert(catalog()[0] == badge_at(0) && catalog()[1] == badge_at(1));
    assert(catalog()[2] == badge_at(2) && catalog()[3] == badge_at(3));
    assert(catalog()[4] == badge_at(4) && catalog()[5] == badge_at(5));
    assert(catalog()[6] == badge_at(6) && catalog()[7] == badge_at(7));
    if known(code) {
        let i = choose|i: int| 0 <= i < BADGE_COUNT && (#[trigger] badge_at(i)).code@ == code;
        assert(catalog()[i] == def_of(code)->0);
        assert(i == 0 || i == 1 || i == 2 || i == 3 || i == 4 || i == 5 || i == 6 || i == 7);
    }
}

proof fn given_keys_are_missing_codes(
    player: Player,
    codes: Seq<Seq<char>>,
    given: Seq<(u128, u128, Seq<char>)>,
    key: (u128, u128, Seq<char>),
)
    requires
        missing(player, codes, given).contains(key),
    ensures
        key.0 == player.tenant_id,
        key.1 == player.id,
        codes.contains(key.2),
    decreases codes.len(),
{
    if codes.len() > 0 {
        let front = codes.drop_last();
        let before = missing(player, front, given);
        let last = (player.tenant_id, player.id, codes.last());
        assert(codes[codes.len() - 1] == codes.last());
        if before.contains(key) {
            given_keys_are_missing_codes(player, front, given, key);
            let k = choose|k: int| 0 <= k < front.len() && front[k] == key.2;
            assert(codes[k] == key.2);
        } else {
            let all = missing(player, codes, given);
            let k = choose|k: int| 0 <= k < all.len() && all[k] == key;
            if k < before.len() {
                assert(before[k] == key);
            }
            assert(key == last);
        }
    }
}

/// Nobody is given a badge that they do not qualify for: each new one belongs to a
/// player of the list, in the player's own space, who qualifies for it.
pub proof fn badges_are_earned(
    given: Seq<(u128, u128, Seq<char>)>,
    players: Seq<Player>,
    bets: Seq<Prediction>,
    matches: Seq<Match>,
    key: (u128, u128, Seq<char>),
)
    requires
        new_grants(given, players, bets, matches).contains(key),
    ensures
        exists|i: int|
            0 <= i < players.len() && (#[trigger] players[i]).tenant_id == key.0 && players[i].id
                == key.1 && qualified_codes(players[i], bets, matches).contains(key.2),
    decreases players.len(),
{
    if players.len() > 0 {
        let front = players.drop_last();
        let before = new_grants(given, front, bets, matches);
        let last = players.last();
        let codes = qualified_codes(last, bets, matches);
        let more = missing(last, codes, given + before);
        let all = new_grants(given, players, bets, matches);
        let k = choose|k: int| 0 <= k < all.len() && all[k] == key;
        if k < before.len() {
            assert(before[k] == key);
            badges_are_earned(given, front, bets, matches, key);
            let i = choose|i: int|
                0 <= i < front.len() && (#[trigger] front[i]).tenant_id == key.0 && front[i].id
                    == key.1 && qualified_codes(front[i], bets, matches).contains(key.2);
            assert(players[i] == front[i]);
        } else {
            assert(more[k - before.len()] == key);
            given_keys_are_missing_codes(last, codes, given + before, key);
            assert(players[players.len() - 1] == last);
        }
    }
}

/// What a player has is listed in the order of the catalogue, each badge once.
pub proof fn held_badges_are_listed(codes: Seq<Seq<char>>)
    ensures
        in_catalog_order(codes) == when(codes.contains("first_exact"@), "first_exact"@) + when(
            codes.contains("perfect_day"@),
            "perfect_day"@,
        ) + when(codes.contains("pts_50"@), "pts_50"@) + when(
            codes.contains("pts_100"@),
            "pts_100"@,
        ) + when(codes.contains("pts_250"@), "pts_250"@) + when(
            codes.contains("streak_5"@),
            "streak_5"@,
        ) + when(codes.contains("streak_10"@), "streak_10"@) + when(
            codes.contains("marathon"@),
            "marathon"@,
        ),
{
    code_of_each_badge();
    reveal_with_fuel(listed, 9);
    let none = Seq::<Seq<char>>::empty();
    let first = when(codes.contains("first_exact"@), "first_exact"@);
    assert(none + first =~= first);
}

/// Exactly the badges that were not shown yet are taken to be shown.
pub proof fn unseen_badges_are_shown(rows: Seq<Earned>, code: Seq<char>)
    ensures
        unseen_codes(rows).contains(code) <==> exists|i: int|
            0 <= i < rows.len() && !(#[trigger] rows[i]).seen && rows[i].code@ == code,
        all_seen(rows).len() == rows.len(),
        forall|i: int|
            0 <= i < rows.len() ==> (#[trigger] all_seen(rows)[i]).seen && all_seen(rows)[i].code
                == rows[i].code,
    decreases rows.len(),
{
    if rows.len() > 0 {
        let front = rows.drop_last();
        unseen_badges_are_shown(front, code);
        one_code_more(unseen_codes(front), !rows.last().seen, rows.last().code@, code);
        if exists|i: int| 0 <= i < front.len() && !(#[trigger] front[i]).seen && front[i].code@
            == code {
            let i = choose|i: int|
                0 <= i < front.len() && !(#[trigger] front[i]).seen && front[i].code@ == code;
            assert(!rows[i].seen);
        }
        if !rows.last().seen {
            assert(!rows[rows.len() - 1].seen);
        }
        if exists|i: int| 0 <= i < rows.len() && !(#[trigger] rows[i]).seen && rows[i].code@
            == code {
            let i = choose|i: int|
                0 <= i < rows.len() && !(#[trigger] rows[i]).seen && rows[i].code@ == code;
            if i < front.len() {
                assert(!front[i].seen);
            }
        }
    }
}

/// The badges of a player are those given to them and no one else's.
pub proof fn given_badges_are_found(grants: Seq<Achievement>, user: u128, code: Seq<char>)
    ensures
        codes_given_to(grants, user).contains(code) <==> exists|i: int|
            0 <= i < grants.len() && (#[trigger] grants[i]).user_id == user && grants[i].code@
                == code,
    decreases grants.len(),
{
    if grants.len() > 0 {
        let front = grants.drop_last();
        let last = grants.last();
        given_badges_are_found(front, user, code);
        one_code_more(codes_given_to(front, user), last.user_id == user, last.code@, code);
        if exists|i: int|
            0 <= i < front.len() && (#[trigger] front[i]).user_id == user && front[i].code@
                == code {
            let i = choose|i: int|
                0 <= i < front.len() && (#[trigger] front[i]).user_id == user && front[i].code@
                    == code;
            assert(grants[i].user_id == user);
        }
        if last.user_id == user {
            assert(grants[grants.len() - 1].user_id == user);
        }
        if exists|i: int|
            0 <= i < grants.len() && (#[trigger] grants[i]).user_id == user && grants[i].code@
                == code {
            let i = choose|i: int|
                0 <= i < grants.len() && (#[trigger] grants[i]).user_id == user && grants[i].code@
                    == code;
            if i < front.len() {
                assert(front[i].user_id == user);
            }
        }
    }
}

/// A new badge is given in the name of its player and space, at the moment of the
/// evaluation, and is neither shown nor announced yet.
pub proof fn new_badges_are_fresh(
    rows: Seq<Achievement>,
    after: Seq<Achievement>,
    players: Seq<Player>,
    bets: Seq<Prediction>,
    matches: Seq<Match>,
    at: Timestamp,
    i: int,
)
    requires
        grant_keys(after) == grant_keys(rows) + new_grants(grant_keys(rows), players, bets, matches),
        only_added(rows, after, at),
        rows.len() <= i < after.len(),
    ensures
        after[i].earned_at == at,
        !after[i].seen,
        after[i].notified_at is None,
        exists|k: int|
            0 <= k < players.len() && (#[trigger] players[k]).tenant_id == after[i].tenant_id
                && players[k].id == after[i].user_id && qualified_codes(
                players[k],
                bets,
                matches,
            ).contains(after[i].code@),
{
    let fresh = new_grants(grant_keys(rows), players, bets, matches);
    let key = grant_key(after[i]);
    assert(grant_keys(after)[i] == key);
    assert(grant_keys(after).len() == after.len());
    assert((grant_keys(rows) + fresh)[i] == fresh[i - rows.len()]);
    assert(fresh.contains(key));
    badges_are_earned(grant_keys(rows), players, bets, matches, key);
}

/// The milestones are 50, 100 and 250 points and streaks of 5 and 10, and their
/// badges are named after them.
pub proof fn milestones_have_their_badges()
    ensures
        POINT_TIERS@ == seq![50i64, 100, 250],
        STREAK_TIERS@ == seq![5i32, 10],
        point_code(50) == "pts_50"@,
        point_code(100) == "pts_100"@,
        point_code(250) == "pts_250"@,
        streak_code(5) == "streak_5"@,
        streak_code(10) == "streak_10"@,
{
    tier_codes();
    code_of_each_badge();
    assert(POINT_TIERS@[0] == 50 && POINT_TIERS@[1] == 100 && POINT_TIERS@[2] == 250);
    assert(STREAK_TIERS@[0] == 5 && STREAK_TIERS@[1] == 10);
    assert(POINT_TIERS@ =~= seq![50i64, 100, 250]);
    assert(STREAK_TIERS@ =~= seq![5i32, 10]);
}

/// An evaluation gives every player each badge that they qualify for.
pub proof fn evaluating_gives_what_is_earned(
    rows: &mut Vec<Achievement>,
    players: &Vec<Player>,
    bets: &Vec<Prediction>,
    matches: &Vec<Match>,
    at: Timestamp,
    r: (),
    p: int,
    code: Seq<char>,
)
    requires
        call_ensures(evaluate_all, (rows, players, bets, matches, at), r),
        0 <= p < players@.len(),
        qualified_codes(players@[p], bets@, matches@).contains(code),
    ensures
        exists|i: int|
            0 <= i < final(rows)@.len() && (#[trigger] final(rows)@[i]).tenant_id
                == players@[p].tenant_id && final(rows)@[i].user_id == players@[p].id
                && final(rows)@[i].code@ == code,
{
    let codes = qualified_codes(players@[p], bets@, matches@);
    let c = choose|c: int| 0 <= c < codes.len() && codes[c] == code;
    evaluation_is_complete(grant_keys(old(rows)@), players@, bets@, matches@, p, c);
    let keys = grant_keys(final(rows)@);
    let key = (players@[p].tenant_id, players@[p].id, code);
    let i = choose|i: int| 0 <= i < keys.len() && keys[i] == key;
    assert(grant_key(final(rows)@[i]) == key);
    assert(final(rows)@[i].tenant_id == players@[p].tenant_id);
}

/// An evaluation keeps what was given and adds only badges that their player qualifies
/// for, dated, and neither shown nor announced yet.
pub proof fn evaluating_gives_nothing_else(
    rows: &mut Vec<Achievement>,
    players: &Vec<Player>,
    bets: &Vec<Prediction>,
    matches: &Vec<Match>,
    at: Timestamp,
    r: (),
    i: int,
)
    requires
        call_ensures(evaluate_all, (rows, players, bets, matches, at), r),
        0 <= i < final(rows)@.len(),
    ensures
        final(rows)@.len() >= old(rows)@.len(),
        i < old(rows)@.len() ==> final(rows)@[i] == old(rows)@[i],
        i >= old(rows)@.len() ==> final(rows)@[i].earned_at == at && !final(rows)@[i].seen
            && final(rows)@[i].notified_at is None,
        i >= old(rows)@.len() ==> exists|k: int|
            0 <= k < players@.len() && (#[trigger] players@[k]).tenant_id
                == final(rows)@[i].tenant_id && players@[k].id == final(rows)@[i].user_id
                && qualified_codes(players@[k], bets@, matches@).contains(final(rows)@[i].code@),
{
    if i < old(rows)@.len() {
        given_badges_stay(old(rows)@, final(rows)@, at, i);
    } else {
        new_badges_are_fresh(old(rows)@, final(rows)@, players@, bets@, matches@, at, i);
    }
}

/// The badges of each player are those given to them, as far as the catalogue has them.
pub proof fn players_have_what_they_were_given(
    grants: &Vec<Achievement>,
    r: HashMap<u128, Vec<String>>,
    i: int,
)
    requires
        call_ensures(earned_by_user, (grants,), r),
        0 <= i < grants@.len(),
        known(grants@[i].code@),
    ensures
        r@.contains_key(grants@[i].user_id),
        texts(r@[grants@[i].user_id]@).contains(grants@[i].code@),
{
    let user = grants@[i].user_id;
    let codes = codes_given_to(grants@, user);
    given_badges_are_found(grants@, user, grants@[i].code@);
    known_codes_are_listed(codes, grants@[i].code@);
    assert(is_granted(grants@, user));
    assert(r@.contains_key(user));
}

proof fn known_codes_are_listed(codes: Seq<Seq<char>>, code: Seq<char>)
    ensures
        in_catalog_order(codes).contains(code) <==> codes.contains(code) && known(code),
{
    codes_of_the_first_are_listed(codes, BADGE_COUNT as int, code);
    if known(code) {
        let k = choose|k: int| 0 <= k < BADGE_COUNT && (#[trigger] badge_at(k)).code@ == code;
        assert(badge_at(k).code@ == code);
    }
}

proof fn codes_of_the_first_are_listed(codes: Seq<Seq<char>>, n: int, code: Seq<char>)
    ensures
        listed(codes, n).contains(code) <==> codes.contains(code) && exists|k: int|
            0 <= k < n && (#[trigger] badge_at(k)).code@ == code,
    decreases n,
{
    if n > 0 {
        codes_of_the_first_are_listed(codes, n - 1, code);
        let last = badge_at(n - 1).code@;
        one_code_more(listed(codes, n - 1), codes.contains(last), last, code);
    }
}

/// The badges to show are those held that were not shown yet, as far as the catalogue
/// has them; afterwards all count as shown.
pub proof fn unseen_badges_are_taken(
    rows: &mut Vec<Earned>,
    r: Vec<String>,
    code: Seq<char>,
    i: int,
)
    requires
        call_ensures(take_unseen, (rows,), r),
        0 <= i < old(rows)@.len(),
    ensures
        texts(r@).contains(code) <==> known(code) && exists|k: int|
            0 <= k < old(rows)@.len() && !(#[trigger] old(rows)@[k]).seen && old(rows)@[k].code@
                == code,
        final(rows)@.len() == old(rows)@.len(),
        final(rows)@[i].seen,
        final(rows)@[i].code == old(rows)@[i].code,
{
    unseen_badges_are_shown(old(rows)@, code);
    known_codes_are_listed(unseen_codes(old(rows)@), code);
}

/// A badge is read in the reader's language, and found by its code.
pub proof fn badges_are_read_in_a_language(
    b: &BadgeDef,
    loc: Locale,
    name: &'static str,
    desc: &'static str,
    icon: String,
    code: &str,
    found: Option<BadgeDef>,
)
    requires
        call_ensures(BadgeDef::name, (b, loc), name),
        call_ensures(BadgeDef::desc, (b, loc), desc),
        call_ensures(BadgeDef::icon_path, (b,), icon),
        call_ensures(def, (code,), found),
    ensures
        loc == Locale::Fr ==> name == b.name_fr && desc == b.desc_fr,
        loc == Locale::En ==> name == b.name_en && desc == b.desc_en,
        icon@ == "/static/badges/"@ + b.icon@,
        found is Some <==> known(code@),
        found is Some ==> found->0.code@ == code@,
{
}

/// The catalogue is loaded as it is, with the names of its badges in both languages.
pub proof fn badges_have_names(r: Vec<BadgeDef>)
    requires
        call_ensures(load_catalog, (), r),
    ensures
        r@.len() == 8,
        r@[0].name_fr@ == "Premier sans faute"@ && r@[0].name_en@ == "First bullseye"@,
        r@[1].name_fr@ == "Journée parfaite"@ && r@[1].name_en@ == "Perfect day"@,
        r@[2].name_fr@ == "Palier 50"@ && r@[2].name_en@ == "50 club"@,
        r@[3].name_fr@ == "Palier 100"@ && r@[3].name_en@ == "100 club"@,
        r@[4].name_fr@ == "Palier 250"@ && r@[4].name_en@ == "250 club"@,
        r@[5].name_fr@ == "En feu"@ && r@[5].name_en@ == "On fire"@,
        r@[6].name_fr@ == "Incandescent"@ && r@[6].name_en@ == "White hot"@,
        r@[7].name_fr@ == "Marathonien"@ && r@[7].name_en@ == "Marathoner"@,
        r@[0].code@ == "first_exact"@ && r@[7].code@ == "marathon"@,
{
    code_of_each_badge();
    assert(r@[0] == badge_at(0) && r@[1] == badge_at(1) && r@[2] == badge_at(2));
    assert(r@[3] == badge_at(3) && r@[4] == badge_at(4) && r@[5] == badge_at(5));
    assert(r@[6] == badge_at(6) && r@[7] == badge_at(7));
}

/// Whoever is listed was given a badge, and each badge listed for them was given to
/// them.
pub proof fn nobody_has_what_was_not_given(
    grants: &Vec<Achievement>,
    r: HashMap<u128, Vec<String>>,
    user: u128,
    code: Seq<char>,
)
    requires
        call_ensures(earned_by_user, (grants,), r),
        r@.contains_key(user),
    ensures
        exists|i: int| 0 <= i < grants@.len() && (#[trigger] grants@[i]).user_id == user,
        texts(r@[user]@).contains(code) <==> known(code) && exists|i: int|
            0 <= i < grants@.len() && (#[trigger] grants@[i]).user_id == user && grants@[i].code@
                == code,
{
    given_badges_are_found(grants@, user, code);
    known_codes_are_listed(codes_given_to(grants@, user), code);
    assert(is_granted(grants@, user));
}

} // verus!
