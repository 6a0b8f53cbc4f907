//! A player's profile: the badges they have, how far they are from the others,
//! and those unlocked since their last visit.
use vstd::prelude::*;

use crate::achievements::{
    all_seen, badge, badge_at, code_of_each_badge, def, def_of, earned_codes, in_catalog_order, known,
    listed, milestones_have_their_badges, point_badge, point_code, streak_badge, streak_code,
    take_unseen, unseen_codes, BadgeDef, Earned, BADGE_COUNT, POINT_TIERS, STREAK_TIERS,
};
use crate::i18n::Locale;
use crate::leaderboard::{
    members_have_their_line, points_for, points_of, streaks_for, streaks_of, LeaderboardRow,
};
use crate::models::{opt_text, User};
use crate::text::{any_text, decimal, str_eq, texts, to_decimal};

verus! {

/// A badge as the profile shows it.
#[derive(Debug)]
pub struct BadgeView {
    pub name: &'static str,
    pub desc: &'static str,
    pub icon: String,
    pub earned: bool,
    /// How far the player is, for a milestone not reached yet.
    pub progress: Option<String>,
}

/// How far along a milestone is.
pub open spec fn ratio(have: int, tier: int) -> Seq<char> {
    decimal(
        if have < tier {
            have
        } else {
            tier
        },
    ) + " / "@ + decimal(tier)
}

fn show_ratio(have: i64, tier: i64) -> (r: String)
    ensures
        r@ == ratio(have as int, tier as int),
{
    let mut text: String = to_decimal(
        if have < tier {
            have
        } else {
            tier
        },
    );
    text.append(" / ");
    text.append(to_decimal(tier).as_str());
    text
}

/// How far a player is from a badge they do not have, if it is a milestone.
pub open spec fn progress_text(code: Seq<char>, points: int, best_streak: int) -> Option<Seq<char>> {
    if code == point_code(POINT_TIERS@[0]) {
        Some(ratio(points, POINT_TIERS@[0] as int))
    } else if code == point_code(POINT_TIERS@[1]) {
        Some(ratio(points, POINT_TIERS@[1] as int))
    } else if code == point_code(POINT_TIERS@[2]) {
        Some(ratio(points, POINT_TIERS@[2] as int))
    } else if code == streak_code(STREAK_TIERS@[0]) {
        Some(ratio(best_streak, STREAK_TIERS@[0] as int))
    } else if code == streak_code(STREAK_TIERS@[1]) {
        Some(ratio(best_streak, STREAK_TIERS@[1] as int))
    } else {
        None
    }
}

/// How far a player is from a badge they do not have.
pub fn progress(code: &str, points: i64, best_streak: i32) -> (r: Option<String>)
    ensures
        opt_text(r) == progress_text(code@, points as int, best_streak as int),
{
    let points_at: [i64; 3] = POINT_TIERS;
    let streaks_at: [i32; 2] = STREAK_TIERS;
    if str_eq(code, point_badge(points_at[0]).as_str()) {
        Some(show_ratio(points, points_at[0]))
    } else if str_eq(code, point_badge(points_at[1]).as_str()) {
        Some(show_ratio(points, points_at[1]))
    } else if str_eq(code, point_badge(points_at[2]).as_str()) {
        Some(show_ratio(points, points_at[2]))
    } else if str_eq(code, streak_badge(streaks_at[0]).as_str()) {
        Some(show_ratio(best_streak as i64, streaks_at[0] as i64))
    } else if str_eq(code, streak_badge(streaks_at[1]).as_str()) {
        Some(show_ratio(best_streak as i64, streaks_at[1] as i64))
    } else {
        None
    }
}

impl BadgeView {
    /// Whether this shows a badge of the catalogue to a player with the given
    /// codes, points and best streak.
    pub open spec fn shows(
        self,
        d: BadgeDef,
        earned: Seq<Seq<char>>,
        points: int,
        best_streak: int,
        loc: Locale,
    ) -> bool {
        &&& self.name == loc.pick(d.name_fr, d.name_en)
        &&& self.desc == loc.pick(d.desc_fr, d.desc_en)
        &&& self.icon@ == "/static/badges/"@ + d.icon@
        &&& self.earned == earned.contains(d.code@)
        &&& opt_text(self.progress) == if earned.contains(d.code@) {
            None
        } else {
            progress_text(d.code@, points, best_streak)
        }
    }
}

/// What the profile shows.
#[derive(Debug)]
pub struct ProfileView {
    pub user_name: String,
    pub total_points: i32,
    pub is_admin: bool,
    pub best_streak: i32,
    pub current_streak: i32,
    pub earned_count: usize,
    pub total_badges: usize,
    pub badges: Vec<BadgeView>,
    /// The names of the badges unlocked since the last visit.
    pub unlocked: Vec<&'static str>,
}

/// The codes of a player's badges.
pub open spec fn held_codes(rows: Seq<Earned>) -> Seq<Seq<char>> {
    Seq::new(rows.len(), |i: int| rows[i].code@)
}

/// Whether some names are those of the badges with the given codes.
pub open spec fn are_names(names: Seq<&'static str>, codes: Seq<Seq<char>>, loc: Locale) -> bool {
    &&& names.len() == codes.len()
    &&& forall|i: int|
        0 <= i < names.len() ==> #[trigger] names[i] == loc.pick(
            def_of(codes[i])->0.name_fr,
            def_of(codes[i])->0.name_en,
        )
}

/// Every code listed in catalogue order is in the catalogue.
proof fn listed_codes_are_known(codes: Seq<Seq<char>>, n: int, i: int)
    requires
        n <= BADGE_COUNT,
        0 <= i < listed(codes, n).len(),
    ensures
        known(listed(codes, n)[i]),
    decreases n,
{
    let before = listed(codes, n - 1);
    if i < before.len() {
        listed_codes_are_known(codes, n - 1, i);
    } else {
        assert(badge_at(n - 1).code@ == listed(codes, n)[i]);
    }
}

fn badge_views(earned: &Vec<String>, points: i64, best_streak: i32, loc: Locale) -> (r: Vec<
    BadgeView,
>)
    ensures
        r@.len() == BADGE_COUNT,
        forall|i: int|
            0 <= i < r@.len() ==> (#[trigger] r@[i]).shows(
                badge_at(i),
                texts(earned@),
                points as int,
                best_streak as int,
                loc,
            ),
{
    let mut out: Vec<BadgeView> = Vec::new();
    let mut i: usize = 0;
    while i < BADGE_COUNT
        invariant
            i <= BADGE_COUNT,
            out@.len() == i,
            forall|k: int|
                0 <= k < i ==> (#[trigger] out@[k]).shows(
                    badge_at(k),
                    texts(earned@),
                    points as int,
                    best_streak as int,
                    loc,
                ),
        decreases BADGE_COUNT - i,
    {
        let b: BadgeDef = badge(i);
        let is_earned: bool = any_text(earned, b.code);
        let progress: Option<String> = if is_earned {
            None
        } else {
            progress(b.code, points, best_streak)
        };
        out.push(
            BadgeView {
                name: b.name(loc),
                desc: b.desc(loc),
                icon: b.icon_path(),
                earned: is_earned,
                progress,
            },
        );
        i = i + 1;
    }
    out
}

fn names_of(codes: &Vec<String>, loc: Locale) -> (r: Vec<&'static str>)
    requires
        forall|i: int| 0 <= i < codes@.len() ==> known((#[trigger] codes@[i])@),
    ensures
        are_names(r@, texts(codes@), loc),
{
    let mut out: Vec<&'static str> = Vec::new();
    let mut i: usize = 0;
    while i < codes.len()
        invariant
            i <= codes.len(),
            forall|k: int| 0 <= k < codes@.len() ==> known((#[trigger] codes@[k])@),
            out@.len() == i,
            forall|k: int|
                0 <= k < i ==> #[trigger] out@[k] == loc.pick(
                    def_of(texts(codes@)[k])->0.name_fr,
                    def_of(texts(codes@)[k])->0.name_en,
                ),
        decreases codes.len() - i,
    {
        if let Some(d) = def(codes[i].as_str()) {
            out.push(d.name(loc));
        }
        i = i + 1;
    }
    out
}

/// Whether some views show the whole catalogue to a player.
pub open spec fn show_catalog(
    views: Seq<BadgeView>,
    earned: Seq<Seq<char>>,
    points: int,
    best_streak: int,
    loc: Locale,
) -> bool {
    &&& views.len() == BADGE_COUNT
    &&& forall|i: int|
        0 <= i < views.len() ==> (#[trigger] views[i]).shows(
            badge_at(i),
            earned,
            points,
            best_streak,
            loc,
        )
}

/// A player's profile. The badges they had not seen yet are named, and count as
/// seen from then on.
pub fn me(user: &User, board: &Vec<LeaderboardRow>, rows: &mut Vec<Earned>, loc: Locale) -> (r:
    ProfileView)
    ensures
        final(rows)@ == all_seen(old(rows)@),
        r.user_name == user.display_name,
        r.is_admin == user.is_admin,
        r.total_points == points_of(board@, user.id),
        (r.current_streak, r.best_streak) == streaks_of(board@, user.id),
        r.earned_count == in_catalog_order(held_codes(old(rows)@)).len(),
        r.total_badges == BADGE_COUNT,
        r.badges@.len() == BADGE_COUNT,
        forall|i: int|
            0 <= i < r.badges@.len() ==> (#[trigger] r.badges@[i]).shows(
                badge_at(i),
                in_catalog_order(held_codes(old(rows)@)),
                points_of(board@, user.id) as int,
                streaks_of(board@, user.id).1 as int,
                loc,
            ),
        show_catalog(
            r.badges@,
            in_catalog_order(held_codes(old(rows)@)),
            points_of(board@, user.id) as int,
            streaks_of(board@, user.id).1 as int,
            loc,
        ),
        are_names(r.unlocked@, in_catalog_order(unseen_codes(old(rows)@)), loc),
{
    let total_points: i32 = points_for(board, user.id);
    let streaks: (i32, i32) = streaks_for(board, user.id);
    let mut held: Vec<String> = Vec::new();
    let mut i: usize = 0;
    while i < rows.len()
        invariant
            i <= rows.len(),
            texts(held@) =~= held_codes(rows@).take(i as int),
        decreases rows.len() - i,
    {
        let ghost before = held@;
        held.push(rows[i].code.clone());
        assert(texts(held@) =~= texts(before).push(rows@[i as int].code@));
        i = i + 1;
    }
    assert(texts(held@) =~= held_codes(rows@));
    let earned: Vec<String> = earned_codes(&held);
    assert(texts(earned@).len() == earned@.len());
    let badges: Vec<BadgeView> = badge_views(&earned, total_points as i64, streaks.1, loc);
    let ghost unseen = unseen_codes(rows@);
    let fresh: Vec<String> = take_unseen(rows);
    assert forall|k: int| 0 <= k < fresh@.len() implies known((#[trigger] fresh@[k])@) by {
        listed_codes_are_known(unseen, BADGE_COUNT as int, k);
        assert(texts(fresh@)[k] == fresh@[k]@);
    }
    ProfileView {
        user_name: user.display_name.clone(),
        total_points,
        is_admin: user.is_admin,
        best_streak: streaks.1,
        current_streak: streaks.0,
        earned_count: earned.len(),
        total_badges: BADGE_COUNT,
        badges,
        unlocked: names_of(&fresh, loc),
    }
}

proof fn listed_codes_are_held(codes: Seq<Seq<char>>, n: int, i: int)
    requires
        0 <= i < n <= BADGE_COUNT,
    ensures
        codes.contains(badge_at(i).code@) ==> listed(codes, n).contains(badge_at(i).code@),
    decreases n,
{
    let code = badge_at(i).code@;
    let all = listed(codes, n);
    if codes.contains(code) {
        if i == n - 1 {
            assert(all.last() == code);
        } else {
            listed_codes_are_held(codes, n - 1, i);
            let before = listed(codes, n - 1);
            let k = choose|k: int| 0 <= k < before.len() && before[k] == code;
            assert(all[k] == code);
        }
    }
}

proof fn listed_codes_are_given(codes: Seq<Seq<char>>, n: int, code: Seq<char>)
    requires
        n <= BADGE_COUNT,
    ensures
        listed(codes, n).contains(code) ==> codes.contains(code),
    decreases n,
{
    if n > 0 && listed(codes, n).contains(code) {
        let all = listed(codes, n);
        let before = listed(codes, n - 1);
        let k = choose|k: int| 0 <= k < all.len() && all[k] == code;
        if k < before.len() {
            assert(before[k] == code);
            listed_codes_are_given(codes, n - 1, code);
        }
    }
}

/// A badge of the catalogue shows as earned exactly when the player has it.
pub proof fn earned_badges_are_those_held(rows: Seq<Earned>, i: int)
    requires
        0 <= i < BADGE_COUNT,
    ensures
        in_catalog_order(held_codes(rows)).contains(badge_at(i).code@) <==> held_codes(
            rows,
        ).contains(badge_at(i).code@),
{
    listed_codes_are_held(held_codes(rows), BADGE_COUNT as int, i);
    listed_codes_are_given(held_codes(rows), BADGE_COUNT as int, badge_at(i).code@);
}

/// Before a milestone the points or the streak are shown beside it, and from it on
/// the milestone itself; badges that are no milestones show nothing.
pub proof fn progress_goes_up_to_the_milestone(points: int, best_streak: int)
    ensures
        progress_text("pts_50"@, points, best_streak) == Some(
            decimal(
                if points < 50 {
                    points
                } else {
                    50
                },
            ) + " / "@ + decimal(50),
        ),
        progress_text("pts_100"@, points, best_streak) == Some(
            decimal(
                if points < 100 {
                    points
                } else {
                    100
                },
            ) + " / "@ + decimal(100),
        ),
        progress_text("pts_250"@, points, best_streak) == Some(
            decimal(
                if points < 250 {
                    points
                } else {
                    250
                },
            ) + " / "@ + decimal(250),
        ),
        progress_text("streak_5"@, points, best_streak) == Some(
            decimal(
                if best_streak < 5 {
                    best_streak
                } else {
                    5
                },
            ) + " / "@ + decimal(5),
        ),
        progress_text("streak_10"@, points, best_streak) == Some(
            decimal(
                if best_streak < 10 {
                    best_streak
                } else {
                    10
                },
            ) + " / "@ + decimal(10),
        ),
        progress_text("first_exact"@, points, best_streak) is None,
        progress_text("perfect_day"@, points, best_streak) is None,
        progress_text("marathon"@, points, best_streak) is None,
{
    milestones_have_their_badges();
    code_of_each_badge();
    assert(badge_at(0).code@ != badge_at(2).code@ && badge_at(1).code@ != badge_at(2).code@);
    assert(badge_at(0).code@ != badge_at(3).code@ && badge_at(1).code@ != badge_at(3).code@);
    assert(badge_at(0).code@ != badge_at(4).code@ && badge_at(1).code@ != badge_at(4).code@);
    assert(badge_at(0).code@ != badge_at(5).code@ && badge_at(1).code@ != badge_at(5).code@);
    assert(badge_at(0).code@ != badge_at(6).code@ && badge_at(1).code@ != badge_at(6).code@);
    assert(badge_at(2).code@ != badge_at(3).code@ && badge_at(2).code@ != badge_at(4).code@);
    assert(badge_at(2).code@ != badge_at(5).code@ && badge_at(2).code@ != badge_at(6).code@);
    assert(badge_at(3).code@ != badge_at(4).code@ && badge_at(3).code@ != badge_at(5).code@);
    assert(badge_at(3).code@ != badge_at(6).code@ && badge_at(4).code@ != badge_at(5).code@);
    assert(badge_at(4).code@ != badge_at(6).code@ && badge_at(5).code@ != badge_at(6).code@);
    assert(badge_at(7).code@ != badge_at(2).code@ && badge_at(7).code@ != badge_at(3).code@);
    assert(badge_at(7).code@ != badge_at(4).code@ && badge_at(7).code@ != badge_at(5).code@);
    assert(badge_at(7).code@ != badge_at(6).code@);
}

/// Each badge of the catalogue is shown in the reader's language, as earned exactly
/// if the player has it, and with how far they are only if they do not.
pub proof fn badges_are_shown_as_held(
    v: BadgeView,
    i: int,
    rows: Seq<Earned>,
    points: int,
    best_streak: int,
    loc: Locale,
)
    requires
        0 <= i < BADGE_COUNT,
        v.shows(badge_at(i), in_catalog_order(held_codes(rows)), points, best_streak, loc),
    ensures
        v.earned <==> exists|k: int|
            0 <= k < rows.len() && (#[trigger] rows[k]).code@ == badge_at(i).code@,
        v.earned ==> v.progress is None,
        !v.earned ==> opt_text(v.progress) == progress_text(badge_at(i).code@, points, best_streak),
        loc == Locale::Fr ==> v.name == badge_at(i).name_fr && v.desc == badge_at(i).desc_fr,
        loc == Locale::En ==> v.name == badge_at(i).name_en && v.desc == badge_at(i).desc_en,
        v.icon@ == "/static/badges/"@ + badge_at(i).icon@,
{
    let code = badge_at(i).code@;
    earned_badges_are_those_held(rows, i);
    if held_codes(rows).contains(code) {
        let k = choose|k: int| 0 <= k < held_codes(rows).len() && held_codes(rows)[k] == code;
        assert(rows[k].code@ == code);
    }
    if exists|k: int| 0 <= k < rows.len() && (#[trigger] rows[k]).code@ == code {
        let k = choose|k: int| 0 <= k < rows.len() && (#[trigger] rows[k]).code@ == code;
        assert(held_codes(rows)[k] == code);
    }
}

/// The profile shows the player's own name, points and streaks, and every badge of the
/// catalogue, as earned exactly if they have it.
pub proof fn profiles_show_the_player(
    user: &User,
    board: &Vec<LeaderboardRow>,
    rows: &mut Vec<Earned>,
    loc: Locale,
    r: ProfileView,
    n: int,
    i: int,
)
    requires
        call_ensures(me, (user, board, rows, loc), r),
        0 <= n < board@.len(),
        board@[n].user_id == user.id,
        forall|k: int| 0 <= k < n ==> (#[trigger] board@[k]).user_id != user.id,
        i32::MIN <= board@[n].points <= i32::MAX,
        0 <= i < 8,
    ensures
        r.user_name == user.display_name,
        r.is_admin == user.is_admin,
        r.total_points == board@[n].points,
        r.current_streak == board@[n].current_streak,
        r.best_streak == board@[n].best_streak,
        r.total_badges == 8,
        r.earned_count == in_catalog_order(held_codes(old(rows)@)).len(),
        r.unlocked@.len() == in_catalog_order(unseen_codes(old(rows)@)).len(),
        are_names(r.unlocked@, in_catalog_order(unseen_codes(old(rows)@)), loc),
        r.badges@.len() == 8,
        r.badges@[i].earned <==> exists|k: int|
            0 <= k < old(rows)@.len() && (#[trigger] old(rows)@[k]).code@ == badge_at(i).code@,
        r.badges@[i].earned ==> r.badges@[i].progress is None,
        !r.badges@[i].earned ==> opt_text(r.badges@[i].progress) == progress_text(
            badge_at(i).code@,
            board@[n].points as int,
            board@[n].best_streak as int,
        ),
        loc == Locale::Fr ==> r.badges@[i].name == badge_at(i).name_fr,
        loc == Locale::En ==> r.badges@[i].name == badge_at(i).name_en,
        final(rows)@ == all_seen(old(rows)@),
{
    members_have_their_line(board@, user.id, n);
    let earned = in_catalog_order(held_codes(old(rows)@));
    let points = board@[n].points as int;
    let best = board@[n].best_streak as int;
    assert(r.badges@[i].shows(badge_at(i), earned, points, best, loc));
    badges_are_shown_as_held(r.badges@[i], i, old(rows)@, points, best, loc);
}

} // verus!
