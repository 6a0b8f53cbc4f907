//! Alerts to players who climb the leaderboard.
use vstd::prelude::*;

use crate::i18n::{others_read_english, user_locale, Locale};
use crate::leaderboard::LeaderboardRow;
use crate::notifications::{contents, leaderboard_url, Push, PushText};
use crate::text::{decimal, to_decimal};

verus! {

/// What is stored of a player for rank alerts.
#[derive(Debug)]
pub struct RankPrefs {
    pub user_id: u128,
    pub notify_push: bool,
    pub lang: String,
    /// The rank that was last reacted to; none before the first run.
    pub last_rank: Option<i32>,
}

/// What is stored of a player: the last entry that is theirs.
pub open spec fn prefs_of(prefs: Seq<RankPrefs>, user: u128) -> Option<RankPrefs>
    decreases prefs.len(),
{
    if prefs.len() == 0 {
        None
    } else if prefs.last().user_id == user {
        Some(prefs.last())
    } else {
        prefs_of(prefs.drop_last(), user)
    }
}

fn find_prefs(prefs: &Vec<RankPrefs>, user: u128) -> (r: Option<&RankPrefs>)
    ensures
        match r {
            Some(p) => prefs_of(prefs@, user) == Some(*p),
            None => prefs_of(prefs@, user) is None,
        },
{
    let mut i: usize = prefs.len();
    assert(prefs@.take(i as int) =~= prefs@);
    while i > 0
        invariant
            i <= prefs.len(),
            prefs_of(prefs@, user) == prefs_of(prefs@.take(i as int), user),
        decreases i,
    {
        assert(prefs@.take(i as int).last() == prefs@[i - 1]);
        assert(prefs@.take(i as int).drop_last() =~= prefs@.take(i - 1));
        if prefs[i - 1].user_id == user {
            return Some(&prefs[i - 1]);
        }
        i = i - 1;
    }
    None
}

/// The rank of the line at a position.
pub open spec fn rank_at(i: int) -> i32 {
    (i + 1) as i32
}

/// Whether a rank is strictly better than the one last reacted to.
pub open spec fn climbed(rank: i32, last: Option<i32>) -> bool {
    match last {
        Some(prev) => rank < prev,
        None => false,
    }
}

/// Whether a player with points, at a rank, is told of it.
pub open spec fn alerted(points: i64, rank: i32, prefs: Option<RankPrefs>) -> bool {
    match prefs {
        Some(p) => p.notify_push && points > 0 && climbed(rank, p.last_rank),
        None => false,
    }
}

/// What a player who climbed to a rank is told.
pub open spec fn climb_text(rank: i32, loc: Locale) -> Seq<char> {
    if rank == 1 {
        loc.pick(
            "Tu prends la tête du classement ! 👑"@,
            "You're now top of the leaderboard! 👑"@,
        )
    } else {
        loc.pick(
            "Tu grimpes à la "@ + decimal(rank as int) + "e place du classement ! 🎉"@,
            "You climbed to #"@ + decimal(rank as int) + " on the leaderboard! 🎉"@,
        )
    }
}

/// What a player who climbed to a rank is told. The first rank has a line of
/// its own.
pub fn climb_message(rank: i32, loc: Locale) -> (r: String)
    ensures
        r@ == climb_text(rank, loc),
{
    if rank == 1 {
        return loc.f(
            "Tu prends la tête du classement ! 👑",
            "You're now top of the leaderboard! 👑",
        ).to_owned();
    }
    let mut text: String = loc.f("Tu grimpes à la ", "You climbed to #").to_owned();
    text.append(to_decimal(rank as i64).as_str());
    text.append(loc.f("e place du classement ! 🎉", " on the leaderboard! 🎉"));
    text
}

/// The alerts for the first `n` lines of a leaderboard.
pub open spec fn alerts(
    board: Seq<LeaderboardRow>,
    prefs: Seq<RankPrefs>,
    tenant_name: Seq<char>,
    tenant_url: Seq<char>,
    n: int,
) -> Seq<PushText>
    decreases n,
{
    if n <= 0 {
        Seq::empty()
    } else {
        let before = alerts(board, prefs, tenant_name, tenant_url, n - 1);
        let row = board[n - 1];
        let mine = prefs_of(prefs, row.user_id);
        if alerted(row.points, rank_at(n - 1), mine) {
            before.push(
                PushText {
                    user_id: row.user_id,
                    title: tenant_name,
                    body: climb_text(rank_at(n - 1), user_locale(mine->0.lang@)),
                    url: tenant_url + "/leaderboard"@,
                },
            )
        } else {
            before
        }
    }
}

/// The alerts for a leaderboard: one for each player who has points, wants
/// pushes and stands strictly higher than when last reacted to.
pub fn send_rank_alerts(
    board: &Vec<LeaderboardRow>,
    prefs: &Vec<RankPrefs>,
    tenant_name: &str,
    tenant_url: &str,
) -> (r: Vec<Push>)
    ensures
        contents(r@) == alerts(
            board@,
            prefs@,
            tenant_name@,
            tenant_url@,
            board@.len() as int,
        ),
{
    let mut out: Vec<Push> = Vec::new();
    let mut i: usize = 0;
    assert(contents(out@) =~= alerts(board@, prefs@, tenant_name@, tenant_url@, 0));
    while i < board.len()
        invariant
            i <= board.len(),
            contents(out@) == alerts(board@, prefs@, tenant_name@, tenant_url@, i as int),
        decreases board.len() - i,
    {
        let rank: i32 = #[verifier::truncate] ((i + 1) as i32);
        let row: &LeaderboardRow = &board[i];
        let ghost before = out@;
        if let Some(mine) = find_prefs(prefs, row.user_id) {
            let up: bool = match mine.last_rank {
                Some(prev) => rank < prev,
                None => false,
            };
            if mine.notify_push && row.points > 0 && up {
                let loc: Locale = Locale::of_user(mine.lang.as_str());
                let push: Push = Push {
                    user_id: row.user_id,
                    title: tenant_name.to_owned(),
                    body: climb_message(rank, loc),
                    url: leaderboard_url(tenant_url),
                };
                let ghost told = push.content();
                out.push(push);
                assert(contents(out@) =~= contents(before).push(told));
            }
        }
        i = i + 1;
    }
    out
}

/// The position of a player on a leaderboard, or its length.
pub open spec fn standing(board: Seq<LeaderboardRow>, user: u128) -> int
    decreases board.len(),
{
    if board.len() == 0 {
        0
    } else if board[0].user_id == user {
        0
    } else {
        1 + standing(board.drop_first(), user)
    }
}

proof fn standing_bounds(board: Seq<LeaderboardRow>, user: u128)
    ensures
        0 <= standing(board, user) <= board.len(),
        forall|k: int| 0 <= k < standing(board, user) ==> (#[trigger] board[k]).user_id != user,
    decreases board.len(),
{
    if board.len() > 0 && board[0].user_id != user {
        let rest = board.drop_first();
        standing_bounds(rest, user);
        assert forall|k: int| 0 <= k < standing(board, user) implies (#[trigger] board[k]).user_id
            != user by {
            if k > 0 {
                assert(board[k] == rest[k - 1]);
            }
        }
    }
}

fn find_standing(board: &Vec<LeaderboardRow>, user: u128) -> (r: usize)
    ensures
        r == standing(board@, user),
        r <= board@.len(),
{
    let mut i: usize = 0;
    assert(board@.skip(0) =~= board@);
    while i < board.len()
        invariant
            i <= board.len(),
            standing(board@, user) == i + standing(board@.skip(i as int), user),
        decreases board.len() - i,
    {
        if board[i].user_id == user {
            return i;
        }
        assert(board@.skip(i as int).drop_first() =~= board@.skip(i + 1));
        i = i + 1;
    }
    i
}

/// What is stored of a player once the leaderboard was reacted to.
pub open spec fn rebased(p: RankPrefs, board: Seq<LeaderboardRow>) -> RankPrefs {
    let i = standing(board, p.user_id);
    if i < board.len() {
        RankPrefs { last_rank: Some(rank_at(i)), ..p }
    } else {
        p
    }
}

/// What is stored of all players once the leaderboard was reacted to.
pub open spec fn all_rebased(prefs: Seq<RankPrefs>, board: Seq<LeaderboardRow>) -> Seq<RankPrefs> {
    Seq::new(prefs.len(), |i: int| rebased(prefs[i], board))
}

/// Stores the current rank of every player on the leaderboard, whether it went
/// up or down.
pub fn rebase_ranks(prefs: &mut Vec<RankPrefs>, board: &Vec<LeaderboardRow>)
    ensures
        final(prefs)@ == all_rebased(old(prefs)@, board@),
{
    let ghost start = prefs@;
    let n: usize = prefs.len();
    let mut i: usize = 0;
    while i < n
        invariant
            i <= n,
            n == prefs@.len(),
            n == start.len(),
            forall|k: int| 0 <= k < i ==> #[trigger] prefs@[k] == rebased(start[k], board@),
            forall|k: int| i <= k < n ==> #[trigger] prefs@[k] == start[k],
        decreases n - i,
    {
        let at: usize = find_standing(board, prefs[i].user_id);
        if at < board.len() {
            let fresh: RankPrefs = RankPrefs {
                user_id: prefs[i].user_id,
                notify_push: prefs[i].notify_push,
                lang: prefs[i].lang.clone(),
                last_rank: Some(#[verifier::truncate] ((at + 1) as i32)),
            };
            prefs.set(i, fresh);
        }
        i = i + 1;
    }
    assert(prefs@ =~= all_rebased(start, board@));
}

proof fn rebased_prefs(prefs: Seq<RankPrefs>, board: Seq<LeaderboardRow>, user: u128)
    ensures
        match prefs_of(prefs, user) {
            Some(p) => p.user_id == user && prefs_of(all_rebased(prefs, board), user) == Some(
                rebased(p, board),
            ),
            None => prefs_of(all_rebased(prefs, board), user) is None,
        },
    decreases prefs.len(),
{
    if prefs.len() > 0 {
        assert(all_rebased(prefs, board).drop_last() =~= all_rebased(prefs.drop_last(), board));
        rebased_prefs(prefs.drop_last(), board, user);
    }
}

/// Reacting twice to one leaderboard alerts nobody the second time.
pub proof fn rank_alerts_are_sent_once(
    board: Seq<LeaderboardRow>,
    prefs: Seq<RankPrefs>,
    tenant_name: Seq<char>,
    tenant_url: Seq<char>,
    n: int,
)
    requires
        board.len() <= i32::MAX,
        n <= board.len(),
    ensures
        alerts(board, all_rebased(prefs, board), tenant_name, tenant_url, n) == Seq::<
            PushText,
        >::empty(),
    decreases n,
{
    if n > 0 {
        rank_alerts_are_sent_once(board, prefs, tenant_name, tenant_url, n - 1);
        let user = board[n - 1].user_id;
        rebased_prefs(prefs, board, user);
        standing_bounds(board, user);
        assert(standing(board, user) <= n - 1);
    }
}

/// The first run alerts nobody: no rank was reacted to before.
pub proof fn the_first_run_is_silent(
    board: Seq<LeaderboardRow>,
    prefs: Seq<RankPrefs>,
    tenant_name: Seq<char>,
    tenant_url: Seq<char>,
    n: int,
)
    requires
        forall|i: int| 0 <= i < prefs.len() ==> (#[trigger] prefs[i]).last_rank is None,
        n <= board.len(),
    ensures
        alerts(board, prefs, tenant_name, tenant_url, n) == Seq::<PushText>::empty(),
    decreases n,
{
    if n > 0 {
        the_first_run_is_silent(board, prefs, tenant_name, tenant_url, n - 1);
        prefs_are_stored(prefs, board[n - 1].user_id);
    }
}

proof fn prefs_are_stored(prefs: Seq<RankPrefs>, user: u128)
    ensures
        prefs_of(prefs, user) is Some ==> prefs.contains(prefs_of(prefs, user)->0),
    decreases prefs.len(),
{
    if prefs.len() > 0 {
        let front = prefs.drop_last();
        prefs_are_stored(front, user);
        if prefs.last().user_id == user {
            assert(prefs[prefs.len() - 1] == prefs.last());
        } else if prefs_of(front, user) is Some {
            let i = choose|i: int| 0 <= i < front.len() && front[i] == prefs_of(front, user)->0;
            assert(prefs[i] == front[i]);
        }
    }
}

/// A player without points, or whose rank did not get better, is not alerted.
pub proof fn only_climbs_are_alerted(points: i64, rank: i32, prefs: RankPrefs)
    ensures
        alerted(points, rank, Some(prefs)) <==> prefs.notify_push && points > 0
            && prefs.last_rank is Some && rank < prefs.last_rank->0,
{
}

/// What is stored of a player is found, where each player is stored once.
pub proof fn prefs_are_found(prefs: Seq<RankPrefs>, i: int)
    requires
        0 <= i < prefs.len(),
        forall|k: int| i < k < prefs.len() ==> (#[trigger] prefs[k]).user_id != prefs[i].user_id,
    ensures
        prefs_of(prefs, prefs[i].user_id) == Some(prefs[i]),
    decreases prefs.len(),
{
    if i < prefs.len() - 1 {
        let front = prefs.drop_last();
        assert(prefs[prefs.len() - 1].user_id != prefs[i].user_id);
        assert forall|k: int| i < k < front.len() implies (#[trigger] front[k]).user_id
            != front[i].user_id by {
            assert(front[k] == prefs[k]);
        }
        prefs_are_found(front, i);
    }
}

/// Each line in turn leads to an alert or not: it does, where the player wants
/// pushes, has points, and was last reacted to at a worse rank. The alert goes to
/// that player, under the name of the space, and gives the new rank.
pub proof fn each_line_leads_to_an_alert_or_not(
    board: Seq<LeaderboardRow>,
    prefs: Seq<RankPrefs>,
    tenant_name: Seq<char>,
    tenant_url: Seq<char>,
    n: int,
    i: int,
)
    requires
        0 <= n < board.len(),
        board.len() <= i32::MAX,
        0 <= i < prefs.len(),
        prefs[i].user_id == board[n].user_id,
        forall|k: int| i < k < prefs.len() ==> (#[trigger] prefs[k]).user_id != prefs[i].user_id,
    ensures
        ({
            let before = alerts(board, prefs, tenant_name, tenant_url, n);
            let after = alerts(board, prefs, tenant_name, tenant_url, n + 1);
            let p = prefs[i];
            let up = p.notify_push && board[n].points > 0 && p.last_rank is Some && n + 1
                < p.last_rank->0;
            &&& alerts(board, prefs, tenant_name, tenant_url, 0).len() == 0
            &&& !up ==> after == before
            &&& up ==> {
                &&& after == before.push(after.last())
                &&& after.last().user_id == board[n].user_id
                &&& after.last().title == tenant_name
                &&& after.last().url == tenant_url + "/leaderboard"@
                &&& p.lang@ == "fr"@ && n == 0 ==> after.last().body
                    == "Tu prends la tête du classement ! 👑"@
                &&& p.lang@ == "fr"@ && n > 0 ==> after.last().body == "Tu grimpes à la "@
                    + decimal(n + 1) + "e place du classement ! 🎉"@
                &&& p.lang@ != "fr"@ && n == 0 ==> after.last().body
                    == "You're now top of the leaderboard! 👑"@
                &&& p.lang@ != "fr"@ && n > 0 ==> after.last().body == "You climbed to #"@
                    + decimal(n + 1) + " on the leaderboard! 🎉"@
            }
        }),
{
    prefs_are_found(prefs, i);
    others_read_english(prefs[i].lang@);
}

/// The rank that is stored for a player is the place of their first line; without a
/// line it stays, and nothing else of what is stored changes.
pub proof fn stored_ranks_are_places(p: RankPrefs, board: Seq<LeaderboardRow>, n: int)
    requires
        board.len() <= i32::MAX,
    ensures
        0 <= n < board.len() && board[n].user_id == p.user_id && (forall|k: int|
            0 <= k < n ==> (#[trigger] board[k]).user_id != p.user_id) ==> rebased(p, board) == (
        RankPrefs { last_rank: Some((n + 1) as i32), ..p }),
        (forall|k: int| 0 <= k < board.len() ==> (#[trigger] board[k]).user_id != p.user_id)
            ==> rebased(p, board) == p,
{
    standing_bounds(board, p.user_id);
    standing_is_theirs(board, p.user_id);
    let s = standing(board, p.user_id);
    if 0 <= n < board.len() && board[n].user_id == p.user_id {
        if s > n {
            assert(board[n].user_id != p.user_id);
        }
        if s < n {
            assert(board[s].user_id == p.user_id);
        }
    }
    if s < board.len() {
        assert(board[s].user_id == p.user_id);
    }
}

proof fn standing_is_theirs(board: Seq<LeaderboardRow>, user: u128)
    ensures
        standing(board, user) < board.len() ==> board[standing(board, user)].user_id == user,
    decreases board.len(),
{
    if board.len() > 0 && board[0].user_id != user {
        standing_is_theirs(board.drop_first(), user);
        standing_bounds(board.drop_first(), user);
    }
}

proof fn alerts_of_lines(
    board: Seq<LeaderboardRow>,
    prefs: Seq<RankPrefs>,
    tenant_name: Seq<char>,
    tenant_url: Seq<char>,
    n: int,
    p: PushText,
)
    requires
        n <= board.len(),
    ensures
        alerts(board, prefs, tenant_name, tenant_url, n).contains(p) <==> exists|k: int|
            0 <= k < n && alerted(
                (#[trigger] board[k]).points,
                rank_at(k),
                prefs_of(prefs, board[k].user_id),
            ) && p == (PushText {
                user_id: board[k].user_id,
                title: tenant_name,
                body: climb_text(
                    rank_at(k),
                    user_locale(prefs_of(prefs, board[k].user_id)->0.lang@),
                ),
                url: tenant_url + "/leaderboard"@,
            }),
    decreases n,
{
    if n > 0 {
        alerts_of_lines(board, prefs, tenant_name, tenant_url, n - 1, p);
        let before = alerts(board, prefs, tenant_name, tenant_url, n - 1);
        let all = alerts(board, prefs, tenant_name, tenant_url, n);
        let mine = prefs_of(prefs, board[n - 1].user_id);
        if before.contains(p) {
            let k = choose|k: int| 0 <= k < before.len() && before[k] == p;
            assert(all[k] == p);
        }
        if alerted(board[n - 1].points, rank_at(n - 1), mine) {
            assert(all[before.len() as int].user_id == board[n - 1].user_id);
            assert(all.contains(all[before.len() as int]));
        }
        if all.contains(p) {
            let k = choose|k: int| 0 <= k < all.len() && all[k] == p;
            if k < before.len() {
                assert(before[k] == p);
            }
        }
    }
}

/// Whoever wants pushes, has points and climbed is told their new place, in their
/// language.
pub proof fn climbers_are_told_their_place(
    board: &Vec<LeaderboardRow>,
    prefs: &Vec<RankPrefs>,
    tenant_name: &str,
    tenant_url: &str,
    r: Vec<Push>,
    n: int,
    i: int,
)
    requires
        call_ensures(send_rank_alerts, (board, prefs, tenant_name, tenant_url), r),
        0 <= n < board@.len(),
        board@.len() <= i32::MAX,
        0 <= i < prefs@.len(),
        prefs@[i].user_id == board@[n].user_id,
        forall|k: int|
            i < k < prefs@.len() ==> (#[trigger] prefs@[k]).user_id != prefs@[i].user_id,
        prefs@[i].notify_push,
        board@[n].points > 0,
        prefs@[i].last_rank is Some,
        n + 1 < prefs@[i].last_rank->0,
    ensures
        exists|k: int|
            {
                &&& 0 <= k < r@.len()
                &&& (#[trigger] r@[k]).user_id == board@[n].user_id
                &&& r@[k].title@ == tenant_name@
                &&& r@[k].url@ == tenant_url@ + "/leaderboard"@
                &&& prefs@[i].lang@ == "fr"@ && n == 0 ==> r@[k].body@
                    == "Tu prends la tête du classement ! 👑"@
                &&& prefs@[i].lang@ == "fr"@ && n > 0 ==> r@[k].body@ == "Tu grimpes à la "@
                    + decimal(n + 1) + "e place du classement ! 🎉"@
                &&& prefs@[i].lang@ != "fr"@ && n == 0 ==> r@[k].body@
                    == "You're now top of the leaderboard! 👑"@
                &&& prefs@[i].lang@ != "fr"@ && n > 0 ==> r@[k].body@ == "You climbed to #"@
                    + decimal(n + 1) + " on the leaderboard! 🎉"@
            },
{
    prefs_are_found(prefs@, i);
    others_read_english(prefs@[i].lang@);
    let push = PushText {
        user_id: board@[n].user_id,
        title: tenant_name@,
        body: climb_text(rank_at(n), user_locale(prefs@[i].lang@)),
        url: tenant_url@ + "/leaderboard"@,
    };
    let all = contents(r@);
    assert(alerted(board@[n].points, rank_at(n), prefs_of(prefs@, board@[n].user_id)));
    alerts_of_lines(
        board@,
        prefs@,
        tenant_name@,
        tenant_url@,
        board@.len() as int,
        push,
    );
    let k = choose|k: int| 0 <= k < all.len() && all[k] == push;
    assert(r@[k].content() == push);
    assert(r@[k].user_id == board@[n].user_id);
}

/// Nobody else is told: every alert goes to a player with points who wants pushes and
/// stands better than before.
pub proof fn only_climbers_are_told(
    board: &Vec<LeaderboardRow>,
    prefs: &Vec<RankPrefs>,
    tenant_name: &str,
    tenant_url: &str,
    r: Vec<Push>,
    k: int,
)
    requires
        call_ensures(send_rank_alerts, (board, prefs, tenant_name, tenant_url), r),
        board@.len() <= i32::MAX,
        0 <= k < r@.len(),
    ensures
        exists|n: int, i: int|
            {
                &&& 0 <= n < board@.len()
                &&& 0 <= i < prefs@.len()
                &&& (#[trigger] board@[n]).user_id == r@[k].user_id
                &&& (#[trigger] prefs@[i]).user_id == r@[k].user_id
                &&& board@[n].points > 0
                &&& prefs@[i].notify_push
                &&& prefs@[i].last_rank is Some
                &&& n + 1 < prefs@[i].last_rank->0
            },
{
    let push = contents(r@)[k];
    assert(push == r@[k].content());
    assert(contents(r@).contains(push));
    alerts_of_lines(
        board@,
        prefs@,
        tenant_name@,
        tenant_url@,
        board@.len() as int,
        push,
    );
    let n = choose|n: int|
        0 <= n < board@.len() && alerted(
            (#[trigger] board@[n]).points,
            rank_at(n),
            prefs_of(prefs@, board@[n].user_id),
        ) && push == (PushText {
            user_id: board@[n].user_id,
            title: tenant_name@,
            body: climb_text(
                rank_at(n),
                user_locale(prefs_of(prefs@, board@[n].user_id)->0.lang@),
            ),
            url: tenant_url@ + "/leaderboard"@,
        });
    prefs_are_stored(prefs@, board@[n].user_id);
    rebased_prefs(prefs@, board@, board@[n].user_id);
    let p = prefs_of(prefs@, board@[n].user_id)->0;
    let i = choose|i: int| 0 <= i < prefs@.len() && prefs@[i] == p;
    assert(board@[n].user_id == r@[k].user_id && prefs@[i].user_id == r@[k].user_id);
}

/// After a run everyone on the leaderboard is stored with their place.
pub proof fn places_are_stored(
    prefs: &mut Vec<RankPrefs>,
    board: &Vec<LeaderboardRow>,
    r: (),
    i: int,
    n: int,
)
    requires
        call_ensures(rebase_ranks, (prefs, board), r),
        board@.len() <= i32::MAX,
        0 <= i < old(prefs)@.len(),
    ensures
        final(prefs)@.len() == old(prefs)@.len(),
        0 <= n < board@.len() && board@[n].user_id == old(prefs)@[i].user_id && (forall|k: int|
            0 <= k < n ==> (#[trigger] board@[k]).user_id != old(prefs)@[i].user_id)
            ==> final(prefs)@[i] == (RankPrefs {
            last_rank: Some((n + 1) as i32),
            ..old(prefs)@[i]
        }),
        (forall|k: int|
            0 <= k < board@.len() ==> (#[trigger] board@[k]).user_id != old(prefs)@[i].user_id)
            ==> final(prefs)@[i] == old(prefs)@[i],
{
    stored_ranks_are_places(old(prefs)@[i], board@, n);
}

} // verus!
