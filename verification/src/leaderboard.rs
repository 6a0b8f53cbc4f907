//! The ranking of a space's members.
use vstd::prelude::*;

verus! {

/// A member's line on the leaderboard; lines come in ranking order.
#[derive(Debug)]
pub struct LeaderboardRow {
    pub user_id: u128,
    pub display_name: String,
    pub points: i64,
    pub current_streak: i32,
    pub best_streak: i32,
}

/// The best player of a day, as recorded.
#[derive(Debug)]
pub struct Highlight {
    pub user_id: u128,
    pub display_name: String,
    pub points: i64,
}

/// The first line of a member.
pub open spec fn row_of(board: Seq<LeaderboardRow>, user: u128) -> Option<LeaderboardRow>
    decreases board.len(),
{
    if board.len() == 0 {
        None
    } else if board[0].user_id == user {
        Some(board[0])
    } else {
        row_of(board.drop_first(), user)
    }
}

/// Looks a member's line up.
pub fn find_row(board: &Vec<LeaderboardRow>, user: u128) -> (r: Option<&LeaderboardRow>)
    ensures
        match r {
            Some(row) => row_of(board@, user) == Some(*row),
            None => row_of(board@, user) is None,
        },
{
    let mut i: usize = 0;
    assert(board@.skip(0) =~= board@);
    while i < board.len()
        invariant
            i <= board.len(),
            row_of(board@, user) == row_of(board@.skip(i as int), user),
        decreases board.len() - i,
    {
        if board[i].user_id == user {
            return Some(&board[i]);
        }
        assert(board@.skip(i as int).drop_first() =~= board@.skip(i + 1));
        i = i + 1;
    }
    None
}

/// The points of a member, in 32 bits; zero when they are not on the board.
pub open spec fn points_of(board: Seq<LeaderboardRow>, user: u128) -> i32 {
    match row_of(board, user) {
        Some(row) => row.points as i32,
        None => 0,
    }
}

/// The points of a member.
pub fn points_for(board: &Vec<LeaderboardRow>, user: u128) -> (r: i32)
    ensures
        r == points_of(board@, user),
{
    match find_row(board, user) {
        Some(row) => #[verifier::truncate] (row.points as i32),
        None => 0,
    }
}

/// The current and the best streak of a member; zero when they are not on the
/// board.
pub open spec fn streaks_of(board: Seq<LeaderboardRow>, user: u128) -> (i32, i32) {
    match row_of(board, user) {
        Some(row) => (row.current_streak, row.best_streak),
        None => (0i32, 0i32),
    }
}

/// The current and the best streak of a member.
pub fn streaks_for(board: &Vec<LeaderboardRow>, user: u128) -> (r: (i32, i32))
    ensures
        r == streaks_of(board@, user),
{
    match find_row(board, user) {
        Some(row) => (row.current_streak, row.best_streak),
        None => (0, 0),
    }
}

/// A member's points and streaks are those of their first line; someone without a
/// line has none.
pub proof fn members_have_their_line(board: Seq<LeaderboardRow>, user: u128, i: int)
    ensures
        0 <= i < board.len() && board[i].user_id == user && (forall|k: int|
            0 <= k < i ==> (#[trigger] board[k]).user_id != user) && i32::MIN <= board[i].points
            <= i32::MAX ==> points_of(board, user) == board[i].points && streaks_of(board, user)
            == (board[i].current_streak, board[i].best_streak),
        (forall|k: int| 0 <= k < board.len() ==> (#[trigger] board[k]).user_id != user)
            ==> points_of(board, user) == 0 && streaks_of(board, user) == (0i32, 0i32),
    decreases board.len(),
{
    if board.len() > 0 && board[0].user_id != user {
        let rest = board.drop_first();
        members_have_their_line(rest, user, i - 1);
        if 0 < i < board.len() {
            assert(rest[i - 1] == board[i]);
        }
        if forall|k: int| 0 <= k < i ==> (#[trigger] board[k]).user_id != user {
            assert forall|k: int| 0 <= k < i - 1 && k < rest.len() implies (
            #[trigger] rest[k]).user_id != user by {
                assert(rest[k] == board[k + 1]);
            }
        }
        if forall|k: int| 0 <= k < board.len() ==> (#[trigger] board[k]).user_id != user {
            assert forall|k: int| 0 <= k < rest.len() implies (#[trigger] rest[k]).user_id
                != user by {
                assert(rest[k] == board[k + 1]);
            }
        }
    } else if board.len() > 0 && 0 < i < board.len() {
        assert(board[0].user_id == user);
    }
}

} // verus!
