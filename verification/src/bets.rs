//! Placing predictions and jokers, and the card that shows a match to a player.
use vstd::prelude::*;

use crate::clock::Timestamp;
use crate::i18n::Locale;
use crate::models::{
    find_match, match_with_id, matches_are_found_by_id, open_for_bets, opt_text, started, Match,
    Prediction,
};
use crate::text::{decimal, str_eq, to_decimal};

verus! {

/// The highest score a prediction may hold.
pub const MAX_SCORE: i32 = 30;

/// A prediction as it is submitted.
#[derive(Clone, Copy, PartialEq, Eq, Debug, Structural)]
pub struct BetForm {
    pub home_score: i32,
    pub away_score: i32,
}

impl BetForm {
    /// Whether both scores are ones a match can plausibly end with.
    pub open spec fn in_range(self) -> bool {
        0 <= self.home_score <= MAX_SCORE && 0 <= self.away_score <= MAX_SCORE
    }

    /// Whether both scores are ones a match can plausibly end with.
    pub fn is_valid(&self) -> (r: bool)
        ensures
            r == self.in_range(),
    {
        0 <= self.home_score && self.home_score <= MAX_SCORE && 0 <= self.away_score
            && self.away_score <= MAX_SCORE
    }
}

/// A member acting within their space.
#[derive(Clone, Copy, PartialEq, Eq, Debug, Structural)]
pub struct Member {
    pub tenant_id: u128,
    pub user_id: u128,
}

/// Why a prediction or a joker is refused.
#[derive(Clone, Copy, PartialEq, Eq, Debug, Structural)]
pub enum Refusal {
    /// A score is out of range.
    InvalidScore,
    /// There is no such match.
    MatchNotFound,
    /// Bets are closed for the match.
    BetsClosed,
    /// The space does not play with jokers.
    JokersDisabled,
    /// The match of the joker is closed.
    MatchClosed,
    /// There is no bet to double.
    NoBet,
    /// The joker of this phase is on a match that has started.
    JokerLocked,
}

impl Refusal {
    /// The HTTP status of a refusal.
    pub open spec fn code(self) -> u16 {
        match self {
            Refusal::InvalidScore => 400,
            Refusal::MatchNotFound => 404,
            Refusal::BetsClosed => 403,
            Refusal::JokersDisabled => 403,
            Refusal::MatchClosed => 403,
            Refusal::NoBet => 400,
            Refusal::JokerLocked => 409,
        }
    }

    /// The text of a refusal.
    pub open spec fn text(self, loc: Locale) -> Seq<char> {
        match self {
            Refusal::InvalidScore => loc.pick("Score invalide (0-30)."@, "Invalid score (0-30)."@),
            Refusal::MatchNotFound => loc.pick("Match introuvable."@, "Match not found."@),
            Refusal::BetsClosed => loc.pick(
                "Les paris sont fermés pour ce match."@,
                "Bets are closed for this match."@,
            ),
            Refusal::JokersDisabled => loc.pick(
                "Les jokers ne sont pas activés."@,
                "Jokers are not enabled."@,
            ),
            Refusal::MatchClosed => loc.pick("Ce match est fermé."@, "This match is closed."@),
            Refusal::NoBet => loc.pick(
                "Place d'abord ton pari sur ce match."@,
                "Place your bet on this match first."@,
            ),
            Refusal::JokerLocked => loc.pick(
                "Ton joker de cette phase est déjà verrouillé (le match a commencé)."@,
                "Your joker for this phase is locked (its match has started)."@,
            ),
        }
    }

    /// The HTTP status of a refusal.
    pub fn status(self) -> (r: u16)
        ensures
            r == self.code(),
    {
        match self {
            Refusal::InvalidScore => 400,
            Refusal::MatchNotFound => 404,
            Refusal::BetsClosed => 403,
            Refusal::JokersDisabled => 403,
            Refusal::MatchClosed => 403,
            Refusal::NoBet => 400,
            Refusal::JokerLocked => 409,
        }
    }

    /// The text of a refusal.
    pub fn message(self, loc: Locale) -> (r: &'static str)
        ensures
            r@ == self.text(loc),
    {
        match self {
            Refusal::InvalidScore => loc.f("Score invalide (0-30).", "Invalid score (0-30)."),
            Refusal::MatchNotFound => loc.f("Match introuvable.", "Match not found."),
            Refusal::BetsClosed => loc.f(
                "Les paris sont fermés pour ce match.",
                "Bets are closed for this match.",
            ),
            Refusal::JokersDisabled => loc.f(
                "Les jokers ne sont pas activés.",
                "Jokers are not enabled.",
            ),
            Refusal::MatchClosed => loc.f("Ce match est fermé.", "This match is closed."),
            Refusal::NoBet => loc.f(
                "Place d'abord ton pari sur ce match.",
                "Place your bet on this match first.",
            ),
            Refusal::JokerLocked => loc.f(
                "Ton joker de cette phase est déjà verrouillé (le match a commencé).",
                "Your joker for this phase is locked (its match has started).",
            ),
        }
    }
}

/// Whether no player has two predictions for one match.
pub open spec fn one_bet_per_match(book: Seq<Prediction>) -> bool {
    forall|i: int, j: int|
        0 <= i < j < book.len() ==> !((#[trigger] book[i]).user_id == (#[trigger] book[j]).user_id
            && book[i].match_id == book[j].match_id)
}

/// The position of a player's prediction for a match, or the length of the book.
pub open spec fn bet_position(book: Seq<Prediction>, user: u128, match_id: i64) -> int
    decreases book.len(),
{
    if book.len() == 0 {
        0
    } else if book[0].user_id == user && book[0].match_id == match_id {
        0
    } else {
        1 + bet_position(book.drop_first(), user, match_id)
    }
}

/// A player's prediction for a match.
pub open spec fn bet_on(book: Seq<Prediction>, user: u128, match_id: i64) -> Option<Prediction> {
    let i = bet_position(book, user, match_id);
    if 0 <= i < book.len() {
        Some(book[i])
    } else {
        None
    }
}

/// The book with a prediction written into it: an existing one for the same
/// match gets the new scores and keeps everything else.
pub open spec fn written(
    book: Seq<Prediction>,
    who: Member,
    match_id: i64,
    form: BetForm,
) -> Seq<Prediction> {
    let i = bet_position(book, who.user_id, match_id);
    if 0 <= i < book.len() {
        book.update(
            i,
            Prediction { home_score: form.home_score, away_score: form.away_score, ..book[i] },
        )
    } else {
        book.push(
            Prediction {
                tenant_id: who.tenant_id,
                user_id: who.user_id,
                match_id,
                home_score: form.home_score,
                away_score: form.away_score,
                points: None,
                multiplier: 1,
            },
        )
    }
}

/// What bounds the position of a prediction, and what lies there.
pub proof fn position_bounds(book: Seq<Prediction>, user: u128, match_id: i64)
    ensures
        ({
            let i = bet_position(book, user, match_id);
            &&& 0 <= i <= book.len()
            &&& i < book.len() ==> book[i].user_id == user && book[i].match_id == match_id
            &&& forall|k: int|
                0 <= k < i ==> !((#[trigger] book[k]).user_id == user && book[k].match_id
                    == match_id)
        }),
    decreases book.len(),
{
    if book.len() > 0 && !(book[0].user_id == user && book[0].match_id == match_id) {
        let rest = book.drop_first();
        position_bounds(rest, user, match_id);
        let i = bet_position(book, user, match_id);
        assert(i < book.len() ==> book[i] == rest[i - 1]);
        assert forall|k: int| 0 <= k < i implies !((#[trigger] book[k]).user_id == user
            && book[k].match_id == match_id) by {
            if k > 0 {
                assert(book[k] == rest[k - 1]);
            }
        }
    }
}

/// Looks up the position of a player's prediction for a match.
pub fn find_bet(book: &Vec<Prediction>, user: u128, match_id: i64) -> (r: usize)
    ensures
        r == bet_position(book@, user, match_id),
        r <= book@.len(),
{
    let mut i: usize = 0;
    assert(book@.skip(0) =~= book@);
    while i < book.len()
        invariant
            i <= book.len(),
            bet_position(book@, user, match_id) == i + bet_position(
                book@.skip(i as int),
                user,
                match_id,
            ),
        decreases book.len() - i,
    {
        if book[i].user_id == user && book[i].match_id == match_id {
            return i;
        }
        assert(book@.skip(i as int).drop_first() =~= book@.skip(i + 1));
        i = i + 1;
    }
    i
}

/// Why a prediction would be refused, if it would.
pub open spec fn bet_refusal(
    form: BetForm,
    target: Option<(Timestamp, Seq<char>)>,
    at: Timestamp,
) -> Option<Refusal> {
    if !form.in_range() {
        Some(Refusal::InvalidScore)
    } else {
        match target {
            None => Some(Refusal::MatchNotFound),
            Some((kickoff, status)) => if !open_for_bets(kickoff, status, at) {
                Some(Refusal::BetsClosed)
            } else {
                None
            },
        }
    }
}

/// The kickoff and status of a match.
pub open spec fn state_of(m: Option<Match>) -> Option<(Timestamp, Seq<char>)> {
    match m {
        Some(m) => Some((m.kickoff_at, m.status@)),
        None => None,
    }
}

/// Places a prediction, or changes the one already there, while the match is
/// open for bets. A refused prediction changes nothing.
pub fn place_or_update(
    book: &mut Vec<Prediction>,
    matches: &Vec<Match>,
    who: Member,
    match_id: i64,
    form: BetForm,
    at: Timestamp,
) -> (r: Result<(), Refusal>)
    ensures
        match bet_refusal(form, state_of(match_with_id(matches@, match_id)), at) {
            Some(why) => r == Err::<(), Refusal>(why) && final(book)@ == old(book)@,
            None => r is Ok && final(book)@ == written(old(book)@, who, match_id, form),
        },
        r is Ok <==> {
            &&& 0 <= form.home_score <= 30
            &&& 0 <= form.away_score <= 30
            &&& match match_with_id(matches@, match_id) {
                Some(m) => at.lt(m.kickoff_at) && !started(m.status@),
                None => false,
            }
        },
        r is Ok ==> exists|i: int|
            0 <= i < final(book)@.len() && (#[trigger] final(book)@[i]).user_id == who.user_id
                && final(book)@[i].match_id == match_id && final(book)@[i].home_score
                == form.home_score && final(book)@[i].away_score == form.away_score,
{
    if !form.is_valid() {
        return Err(Refusal::InvalidScore);
    }
    match find_match(matches, match_id) {
        None => {
            return Err(Refusal::MatchNotFound);
        },
        Some(m) => {
            if !m.is_open_for_bets_at(at) {
                return Err(Refusal::BetsClosed);
            }
        },
    }
    let i: usize = find_bet(book, who.user_id, match_id);
    proof {
        position_bounds(book@, who.user_id, match_id);
    }
    let ghost place = i as int;
    if i < book.len() {
        let changed: Prediction = Prediction {
            home_score: form.home_score,
            away_score: form.away_score,
            ..book[i]
        };
        book.set(i, changed);
    } else {
        book.push(
            Prediction {
                tenant_id: who.tenant_id,
                user_id: who.user_id,
                match_id,
                home_score: form.home_score,
                away_score: form.away_score,
                points: None,
                multiplier: 1,
            },
        );
    }
    assert(book@[place].user_id == who.user_id && book@[place].match_id == match_id);
    Ok(())
}

/// Whether a prediction is a joker of this member on a match of this phase.
pub open spec fn phase_joker(
    p: Prediction,
    who: Member,
    matches: Seq<Match>,
    stage: Option<Seq<char>>,
) -> bool {
    &&& p.user_id == who.user_id
    &&& p.tenant_id == who.tenant_id
    &&& p.multiplier == 2
    &&& match match_with_id(matches, p.match_id) {
        Some(m) => opt_text(m.stage) == stage,
        None => false,
    }
}

/// The position of the member's joker in a phase, or the length of the book.
pub open spec fn joker_position(
    book: Seq<Prediction>,
    who: Member,
    matches: Seq<Match>,
    stage: Option<Seq<char>>,
) -> int
    decreases book.len(),
{
    if book.len() == 0 {
        0
    } else if phase_joker(book[0], who, matches, stage) {
        0
    } else {
        1 + joker_position(book.drop_first(), who, matches, stage)
    }
}

/// What bounds the position of a joker, and what lies there.
proof fn joker_bounds(
    book: Seq<Prediction>,
    who: Member,
    matches: Seq<Match>,
    stage: Option<Seq<char>>,
)
    ensures
        ({
            let i = joker_position(book, who, matches, stage);
            &&& 0 <= i <= book.len()
            &&& i < book.len() ==> phase_joker(book[i], who, matches, stage)
            &&& forall|k: int|
                0 <= k < i ==> !phase_joker(#[trigger] book[k], who, matches, stage)
        }),
    decreases book.len(),
{
    if book.len() > 0 && !phase_joker(book[0], who, matches, stage) {
        let rest = book.drop_first();
        joker_bounds(rest, who, matches, stage);
        let i = joker_position(book, who, matches, stage);
        assert(i < book.len() ==> book[i] == rest[i - 1]);
        assert forall|k: int| 0 <= k < i implies !phase_joker(
            #[trigger] book[k],
            who,
            matches,
            stage,
        ) by {
            if k > 0 {
                assert(book[k] == rest[k - 1]);
            }
        }
    }
}

/// Whether two optional texts are the same.
pub fn same_text(a: &Option<String>, b: &Option<String>) -> (r: bool)
    ensures
        r == (opt_text(*a) == opt_text(*b)),
{
    match (a, b) {
        (Some(x), Some(y)) => str_eq(x.as_str(), y.as_str()),
        (None, None) => true,
        _ => false,
    }
}

fn find_joker(
    book: &Vec<Prediction>,
    who: Member,
    matches: &Vec<Match>,
    stage: &Option<String>,
) -> (r: usize)
    ensures
        r == joker_position(book@, who, matches@, opt_text(*stage)),
        r <= book@.len(),
{
    let mut i: usize = 0;
    assert(book@.skip(0) =~= book@);
    while i < book.len()
        invariant
            i <= book.len(),
            joker_position(book@, who, matches@, opt_text(*stage)) == i + joker_position(
                book@.skip(i as int),
                who,
                matches@,
                opt_text(*stage),
            ),
        decreases book.len() - i,
    {
        let p: Prediction = book[i];
        if p.user_id == who.user_id && p.tenant_id == who.tenant_id && p.multiplier == 2 {
            if let Some(m) = find_match(matches, p.match_id) {
                if same_text(&m.stage, stage) {
                    return i;
                }
            }
        }
        assert(book@.skip(i as int).drop_first() =~= book@.skip(i + 1));
        i = i + 1;
    }
    i
}

/// The member's own prediction for a match, within their space.
pub open spec fn own_bet(book: Seq<Prediction>, who: Member, match_id: i64) -> Option<Prediction> {
    match bet_on(book, who.user_id, match_id) {
        Some(p) if p.tenant_id == who.tenant_id => Some(p),
        _ => None,
    }
}

/// Looks up the member's own prediction for a match.
pub fn find_own_bet(book: &Vec<Prediction>, who: Member, match_id: i64) -> (r: Option<Prediction>)
    ensures
        r == own_bet(book@, who, match_id),
{
    let i: usize = find_bet(book, who.user_id, match_id);
    if i < book.len() && book[i].tenant_id == who.tenant_id {
        Some(book[i])
    } else {
        None
    }
}

/// Whether the member's joker of a phase is on a match that has started.
pub open spec fn joker_locked(
    book: Seq<Prediction>,
    who: Member,
    matches: Seq<Match>,
    stage: Option<Seq<char>>,
    at: Timestamp,
) -> bool {
    let i = joker_position(book, who, matches, stage);
    &&& 0 <= i < book.len()
    &&& match_with_id(matches, book[i].match_id)->0.kickoff_at.le(at)
}

/// Why toggling the joker would be refused, if it would.
pub open spec fn joker_refusal(
    book: Seq<Prediction>,
    who: Member,
    matches: Seq<Match>,
    jokers_enabled: bool,
    match_id: i64,
    at: Timestamp,
) -> Option<Refusal> {
    if !jokers_enabled {
        Some(Refusal::JokersDisabled)
    } else {
        match match_with_id(matches, match_id) {
            None => Some(Refusal::MatchNotFound),
            Some(m) => if !m.open_at(at) {
                Some(Refusal::MatchClosed)
            } else {
                match own_bet(book, who, match_id) {
                    None => Some(Refusal::NoBet),
                    Some(p) => if p.multiplier != 2 && joker_locked(
                        book,
                        who,
                        matches,
                        opt_text(m.stage),
                        at,
                    ) {
                        Some(Refusal::JokerLocked)
                    } else {
                        None
                    },
                }
            },
        }
    }
}

/// The book with the multiplier of one prediction changed.
pub open spec fn with_multiplier(book: Seq<Prediction>, i: int, multiplier: i32) -> Seq<Prediction> {
    if 0 <= i < book.len() {
        book.update(i, Prediction { multiplier, ..book[i] })
    } else {
        book
    }
}

/// The book with the member's joker toggled on a match: taken off when it is
/// there, otherwise put there and taken off the match of the phase that has it.
pub open spec fn toggled(
    book: Seq<Prediction>,
    who: Member,
    matches: Seq<Match>,
    match_id: i64,
) -> Seq<Prediction> {
    let i = bet_position(book, who.user_id, match_id);
    if book[i].multiplier == 2 {
        with_multiplier(book, i, 1)
    } else {
        let stage = opt_text(match_with_id(matches, match_id)->0.stage);
        let freed = with_multiplier(book, joker_position(book, who, matches, stage), 1);
        with_multiplier(freed, i, 2)
    }
}

fn set_multiplier(book: &mut Vec<Prediction>, i: usize, multiplier: i32)
    ensures
        final(book)@ == with_multiplier(old(book)@, i as int, multiplier),
{
    if i < book.len() {
        let changed: Prediction = Prediction { multiplier, ..book[i] };
        book.set(i, changed);
    }
}

/// Toggles the member's joker on a match. Jokers must be enabled, the match
/// must be open and carry a bet. A phase has at most one joker: setting it on a
/// second match moves it, unless the match that has it has started.
pub fn toggle_joker(
    book: &mut Vec<Prediction>,
    matches: &Vec<Match>,
    who: Member,
    jokers_enabled: bool,
    match_id: i64,
    at: Timestamp,
) -> (r: Result<(), Refusal>)
    ensures
        match joker_refusal(old(book)@, who, matches@, jokers_enabled, match_id, at) {
            Some(why) => r == Err::<(), Refusal>(why) && final(book)@ == old(book)@,
            None => r is Ok && final(book)@ == toggled(old(book)@, who, matches@, match_id),
        },
{
    if !jokers_enabled {
        return Err(Refusal::JokersDisabled);
    }
    match find_match(matches, match_id) {
        None => Err(Refusal::MatchNotFound),
        Some(m) => {
            if !m.is_open_for_bets_at(at) {
                return Err(Refusal::MatchClosed);
            }
            let i: usize = find_bet(book, who.user_id, match_id);
            if i >= book.len() || book[i].tenant_id != who.tenant_id {
                return Err(Refusal::NoBet);
            }
            if book[i].multiplier == 2 {
                set_multiplier(book, i, 1);
                return Ok(());
            }
            let j: usize = find_joker(book, who, matches, &m.stage);
            proof {
                joker_bounds(book@, who, matches@, opt_text(m.stage));
            }
            if j < book.len() {
                if let Some(old_match) = find_match(matches, book[j].match_id) {
                    if !at.before(old_match.kickoff_at) {
                        return Err(Refusal::JokerLocked);
                    }
                }
            }
            set_multiplier(book, j, 1);
            set_multiplier(book, i, 2);
            Ok(())
        },
    }
}

/// Whether a member has at most one joker in every phase.
pub open spec fn one_joker_per_phase(
    book: Seq<Prediction>,
    who: Member,
    matches: Seq<Match>,
) -> bool {
    forall|i: int, j: int, stage: Option<Seq<char>>|
        0 <= i < j < book.len() ==> !(#[trigger] phase_joker(book[i], who, matches, stage)
            && #[trigger] phase_joker(book[j], who, matches, stage))
}

/// Toggling a joker keeps at most one of them in every phase.
pub proof fn toggling_keeps_one_joker_per_phase(
    book: Seq<Prediction>,
    who: Member,
    matches: Seq<Match>,
    jokers_enabled: bool,
    match_id: i64,
    at: Timestamp,
)
    requires
        one_joker_per_phase(book, who, matches),
        joker_refusal(book, who, matches, jokers_enabled, match_id, at) is None,
    ensures
        one_joker_per_phase(toggled(book, who, matches, match_id), who, matches),
{
    let b = bet_position(book, who.user_id, match_id);
    let stage = opt_text(match_with_id(matches, match_id)->0.stage);
    let k = joker_position(book, who, matches, stage);
    position_bounds(book, who.user_id, match_id);
    joker_bounds(book, who, matches, stage);
    let after = toggled(book, who, matches, match_id);
    assert forall|i: int, j: int, s: Option<Seq<char>>|
        0 <= i < j < after.len() implies !(#[trigger] phase_joker(after[i], who, matches, s)
        && #[trigger] phase_joker(after[j], who, matches, s)) by {
        if phase_joker(after[i], who, matches, s) && phase_joker(after[j], who, matches, s) {
            if i != b {
                assert(phase_joker(book[i], who, matches, s));
            }
            if j != b {
                assert(phase_joker(book[j], who, matches, s));
            }
            if book[b].multiplier == 2 {
                assert(i != b && j != b);
            } else {
                assert(i == b ==> s == stage);
                assert(j == b ==> s == stage);
                if i == b {
                    assert(j != k);
                    assert(phase_joker(book[j], who, matches, stage));
                    assert(phase_joker(book[k], who, matches, stage));
                } else if j == b {
                    assert(i != k);
                    assert(phase_joker(book[i], who, matches, stage));
                    assert(phase_joker(book[k], who, matches, stage));
                }
            }
        }
    }
}

/// Toggling a joker changes multipliers only, and only to one or two: scores
/// and points stay as they are.
pub proof fn toggling_changes_multipliers_only(
    book: Seq<Prediction>,
    who: Member,
    matches: Seq<Match>,
    match_id: i64,
    i: int,
)
    requires
        0 <= i < book.len(),
    ensures
        toggled(book, who, matches, match_id).len() == book.len(),
        ({
            let p = toggled(book, who, matches, match_id)[i];
            &&& p == Prediction { multiplier: p.multiplier, ..book[i] }
            &&& p.multiplier == book[i].multiplier || p.multiplier == 1 || p.multiplier == 2
        }),
{
}

/// A joker that was set can be taken off again: the match then has none.
pub proof fn toggling_twice_clears_the_joker(
    book: Seq<Prediction>,
    who: Member,
    matches: Seq<Match>,
    jokers_enabled: bool,
    match_id: i64,
    at: Timestamp,
)
    requires
        joker_refusal(book, who, matches, jokers_enabled, match_id, at) is None,
        own_bet(book, who, match_id)->0.multiplier != 2,
    ensures
        ({
            let once = toggled(book, who, matches, match_id);
            let twice = toggled(once, who, matches, match_id);
            &&& own_bet(once, who, match_id)->0.multiplier == 2
            &&& joker_refusal(once, who, matches, jokers_enabled, match_id, at) is None
            &&& own_bet(twice, who, match_id)->0.multiplier == 1
        }),
{
    let once = toggled(book, who, matches, match_id);
    let twice = toggled(once, who, matches, match_id);
    same_keys_same_position(book, once, who.user_id, match_id);
    same_keys_same_position(once, twice, who.user_id, match_id);
    position_bounds(book, who.user_id, match_id);
}

proof fn same_keys_same_position(
    a: Seq<Prediction>,
    b: Seq<Prediction>,
    user: u128,
    match_id: i64,
)
    requires
        a.len() == b.len(),
        forall|i: int|
            0 <= i < a.len() ==> (#[trigger] a[i]).user_id == b[i].user_id && a[i].match_id
                == b[i].match_id,
    ensures
        bet_position(a, user, match_id) == bet_position(b, user, match_id),
    decreases a.len(),
{
    if a.len() > 0 {
        assert(a[0].user_id == b[0].user_id);
        let x = a.drop_first();
        let y = b.drop_first();
        assert forall|i: int| 0 <= i < x.len() implies (#[trigger] x[i]).user_id == y[i].user_id
            && x[i].match_id == y[i].match_id by {
            assert(x[i] == a[i + 1]);
        }
        same_keys_same_position(x, y, user, match_id);
    }
}

/// A prediction that was placed is there to be read, with the scores that were
/// submitted, and every other player's predictions are as before.
pub proof fn placed_bets_are_read_back(
    book: Seq<Prediction>,
    who: Member,
    match_id: i64,
    form: BetForm,
    user: u128,
    other: i64,
)
    ensures
        ({
            let after = written(book, who, match_id, form);
            &&& bet_on(after, who.user_id, match_id) matches Some(p) && p.home_score
                == form.home_score && p.away_score == form.away_score
            &&& (user != who.user_id || other != match_id) ==> bet_on(after, user, other) == bet_on(
                book,
                user,
                other,
            )
        }),
{
    let after = written(book, who, match_id, form);
    position_bounds(book, who.user_id, match_id);
    position_bounds(after, who.user_id, match_id);
    position_bounds(book, user, other);
    position_bounds(after, user, other);
    let i = bet_position(book, who.user_id, match_id);
    let j = bet_position(after, who.user_id, match_id);
    assert(after[i].user_id == who.user_id && after[i].match_id == match_id);
    assert(j == i) by {
        if j < i {
            assert(after[j] == book[j]);
        }
    }
    if user != who.user_id || other != match_id {
        let a = bet_position(book, user, other);
        let b = bet_position(after, user, other);
        if a < book.len() {
            assert(a != i);
            assert(after[a] == book[a]);
        }
        if b < book.len() {
            assert(b != i);
            assert(after[b] == book[b]);
        }
        if b < after.len() {
            assert(b != i);
        }
    }
}

/// Placing a prediction keeps one prediction per player and match.
pub proof fn placing_keeps_one_bet_per_match(
    book: Seq<Prediction>,
    who: Member,
    match_id: i64,
    form: BetForm,
)
    requires
        one_bet_per_match(book),
    ensures
        one_bet_per_match(written(book, who, match_id, form)),
{
    let after = written(book, who, match_id, form);
    position_bounds(book, who.user_id, match_id);
    assert forall|i: int, j: int| 0 <= i < j < after.len() implies !((#[trigger] after[i]).user_id
        == (#[trigger] after[j]).user_id && after[i].match_id == after[j].match_id) by {
        if j < book.len() {
            assert(book[i].user_id == after[i].user_id && book[i].match_id == after[i].match_id);
            assert(book[j].user_id == after[j].user_id && book[j].match_id == after[j].match_id);
        } else {
            assert(after[i] == book[i]);
        }
    }
}

/// Where a browser without scripts goes after a change: back to the card.
pub fn card_anchor(match_id: i64) -> (r: String)
    ensures
        r@ == "/matches#match-"@ + decimal(match_id as int),
{
    let mut path: String = "/matches#match-".to_owned();
    path.append(to_decimal(match_id).as_str());
    path
}

/// A match as a player sees it, with their own prediction.
#[derive(Debug)]
pub struct MatchView {
    pub m: Match,
    pub open: bool,
    pub finished: bool,
    pub bet_home: Option<i32>,
    pub bet_away: Option<i32>,
    pub points: Option<i32>,
    pub is_joker: bool,
    pub jokers_enabled: bool,
}

impl MatchView {
    /// Whether this is the view of a match at an instant, for a player with the
    /// given prediction.
    pub open spec fn shows(
        self,
        m: Match,
        bet: Option<Prediction>,
        jokers_enabled: bool,
        at: Timestamp,
    ) -> bool {
        &&& self.m == m
        &&& self.open == m.open_at(at)
        &&& self.finished == m.concluded_by(at)
        &&& self.jokers_enabled == jokers_enabled
        &&& match bet {
            Some(p) => {
                &&& self.bet_home == Some(p.home_score)
                &&& self.bet_away == Some(p.away_score)
                &&& self.points == p.points
                &&& self.is_joker == (p.multiplier == 2)
            },
            None => {
                &&& self.bet_home is None
                &&& self.bet_away is None
                &&& self.points is None
                &&& !self.is_joker
            },
        }
    }
}

/// The view of a match for a player with the given prediction. A match that can
/// no longer be in play shows as finished even when the feed left it undecided.
pub fn render_match_card(
    m: Match,
    bet: Option<Prediction>,
    jokers_enabled: bool,
    at: Timestamp,
) -> (r: MatchView)
    ensures
        r.shows(m, bet, jokers_enabled, at),
{
    let open: bool = m.is_open_for_bets_at(at);
    let finished: bool = m.is_concluded_at(at);
    match bet {
        Some(p) => MatchView {
            m,
            open,
            finished,
            bet_home: Some(p.home_score),
            bet_away: Some(p.away_score),
            points: p.points,
            is_joker: p.multiplier == 2,
            jokers_enabled,
        },
        None => MatchView {
            m,
            open,
            finished,
            bet_home: None,
            bet_away: None,
            points: None,
            is_joker: false,
            jokers_enabled,
        },
    }
}

/// A prediction is accepted exactly when both its scores lie between 0 and 30, its
/// match is there, the kickoff lies ahead, and the status is none that says the
/// match has begun. Each refusal has its reason, in this order.
pub proof fn acceptable_bets_are_accepted(
    form: BetForm,
    matches: Seq<Match>,
    i: int,
    at: Timestamp,
)
    requires
        0 <= i < matches.len(),
        forall|k: int| 0 <= k < i ==> (#[trigger] matches[k]).id != matches[i].id,
    ensures
        ({
            let m = matches[i];
            let why = bet_refusal(form, state_of(match_with_id(matches, m.id)), at);
            let in_bounds = 0 <= form.home_score && form.home_score <= 30 && 0 <= form.away_score
                && form.away_score <= 30;
            let ahead = at.secs < m.kickoff_at.secs || (at.secs == m.kickoff_at.secs && at.nanos
                < m.kickoff_at.nanos);
            let begun = m.status@ == "IN_PLAY"@ || m.status@ == "PAUSED"@ || m.status@
                == "EXTRA_TIME"@ || m.status@ == "PENALTY_SHOOTOUT"@ || m.status@ == "FINISHED"@
                || m.status@ == "AWARDED"@ || m.status@ == "SUSPENDED"@;
            &&& in_bounds && ahead && !begun ==> why is None
            &&& !in_bounds ==> why == Some(Refusal::InvalidScore)
            &&& in_bounds && (!ahead || begun) ==> why == Some(Refusal::BetsClosed)
        }),
{
    matches_are_found_by_id(matches, matches[i].id);
}

/// A prediction on a match that is not there is refused as such.
pub proof fn bets_need_their_match(form: BetForm, matches: Seq<Match>, id: i64, at: Timestamp)
    requires
        forall|k: int| 0 <= k < matches.len() ==> (#[trigger] matches[k]).id != id,
        0 <= form.home_score <= 30,
        0 <= form.away_score <= 30,
    ensures
        bet_refusal(form, state_of(match_with_id(matches, id)), at) == Some(Refusal::MatchNotFound),
{
    matches_are_found_by_id(matches, id);
}

/// Writing a prediction changes the scores of the one that was there, or adds one
/// without points and joker; every other prediction stays as it was.
pub proof fn written_bets_hold_the_scores(
    book: Seq<Prediction>,
    who: Member,
    match_id: i64,
    form: BetForm,
    i: int,
)
    requires
        one_bet_per_match(book),
        0 <= i < book.len(),
    ensures
        ({
            let after = written(book, who, match_id, form);
            let mine = book[i].user_id == who.user_id && book[i].match_id == match_id;
            &&& mine ==> after.len() == book.len() && after[i].home_score == form.home_score
                && after[i].away_score == form.away_score && after[i].points == book[i].points
                && after[i].multiplier == book[i].multiplier && after[i].tenant_id
                == book[i].tenant_id && after[i].user_id == book[i].user_id && after[i].match_id
                == book[i].match_id
            &&& !mine ==> after[i] == book[i]
            &&& after.len() > book.len() ==> after.len() == book.len() + 1 && after.last() == (
            Prediction {
                tenant_id: who.tenant_id,
                user_id: who.user_id,
                match_id,
                home_score: form.home_score,
                away_score: form.away_score,
                points: None,
                multiplier: 1,
            })
        }),
{
    position_bounds(book, who.user_id, match_id);
    let p = bet_position(book, who.user_id, match_id);
    if book[i].user_id == who.user_id && book[i].match_id == match_id {
        if p < i {
            assert(book[p].user_id == book[i].user_id);
        }
        assert(p == i);
    }
}

/// A member's own prediction on a match is the one that names them, the match and
/// their space.
pub proof fn own_bets_are_found(book: Seq<Prediction>, who: Member, match_id: i64, i: int)
    requires
        one_bet_per_match(book),
    ensures
        0 <= i < book.len() && book[i].user_id == who.user_id && book[i].match_id == match_id
            && book[i].tenant_id == who.tenant_id ==> own_bet(book, who, match_id) == Some(book[i]),
        own_bet(book, who, match_id) is Some ==> {
            let p = own_bet(book, who, match_id)->0;
            p.user_id == who.user_id && p.match_id == match_id && p.tenant_id == who.tenant_id
        },
{
    position_bounds(book, who.user_id, match_id);
    let p = bet_position(book, who.user_id, match_id);
    if 0 <= i < book.len() && book[i].user_id == who.user_id && book[i].match_id == match_id {
        if p < i {
            assert(book[p].user_id == book[i].user_id);
        }
        assert(p == i);
    }
}

/// Whether a prediction is a joker of this member on a match of a phase, looked up
/// in a list of matches without repeated ids.
pub open spec fn jokers_phase(
    p: Prediction,
    who: Member,
    matches: Seq<Match>,
    k: int,
    stage: Option<Seq<char>>,
) -> bool {
    &&& p.user_id == who.user_id
    &&& p.tenant_id == who.tenant_id
    &&& p.multiplier == 2
    &&& 0 <= k < matches.len()
    &&& matches[k].id == p.match_id
    &&& match matches[k].stage {
        Some(s) => stage == Some(s@),
        None => stage is None,
    }
}

/// Whether no id occurs twice among some matches.
pub open spec fn ids_differ(matches: Seq<Match>) -> bool {
    forall|a: int, b: int|
        0 <= a < b < matches.len() ==> (#[trigger] matches[a]).id != (#[trigger] matches[b]).id
}

proof fn ids_that_differ_are_found(matches: Seq<Match>, k: int)
    requires
        ids_differ(matches),
        0 <= k < matches.len(),
    ensures
        match_with_id(matches, matches[k].id) == Some(matches[k]),
{
    assert forall|j: int| 0 <= j < k implies (#[trigger] matches[j]).id != matches[k].id by {}
    matches_are_found_by_id(matches, matches[k].id);
}

/// A joker may be set or cleared exactly when the space plays with jokers, the match
/// is open, the member has bet on it, and, to set it, no joker of theirs lies on a
/// match of the same phase that has kicked off.
pub proof fn jokers_are_free_until_kickoff(
    book: Seq<Prediction>,
    who: Member,
    matches: Seq<Match>,
    at: Timestamp,
    i: int,
    k: int,
    other: int,
    l: int,
)
    requires
        ids_differ(matches),
        one_bet_per_match(book),
        one_joker_per_phase(book, who, matches),
        0 <= k < matches.len(),
        matches[k].open_at(at),
        0 <= i < book.len(),
        book[i].user_id == who.user_id,
        book[i].tenant_id == who.tenant_id,
        book[i].match_id == matches[k].id,
        0 <= other < book.len(),
    ensures
        ({
            let id = matches[k].id;
            let stage = opt_text(matches[k].stage);
            let why = joker_refusal(book, who, matches, true, id, at);
            &&& book[i].multiplier == 2 ==> why is None
            &&& jokers_phase(book[other], who, matches, l, stage) && book[i].multiplier != 2 ==> (
            why is None <==> at.lt(matches[l].kickoff_at))
            &&& jokers_phase(book[other], who, matches, l, stage) && book[i].multiplier != 2
                && matches[l].kickoff_at.le(at) ==> why == Some(Refusal::JokerLocked)
            &&& (forall|o: int, f: int|
                0 <= o < book.len() ==> !#[trigger] jokers_phase(
                    book[o],
                    who,
                    matches,
                    f,
                    stage,
                )) ==> why is None
        }),
{
    let id = matches[k].id;
    let stage = opt_text(matches[k].stage);
    ids_that_differ_are_found(matches, k);
    own_bets_are_found(book, who, id, i);
    joker_bounds(book, who, matches, stage);
    let j = joker_position(book, who, matches, stage);
    if jokers_phase(book[other], who, matches, l, stage) {
        ids_that_differ_are_found(matches, l);
        assert(phase_joker(book[other], who, matches, stage));
        if j < other {
            assert(phase_joker(book[j], who, matches, stage));
        }
        assert(j == other);
    }
    if j < book.len() {
        let p = book[j];
        matches_are_found_by_id(matches, p.match_id);
        assert(phase_joker(p, who, matches, stage));
        if forall|o: int, f: int|
            0 <= o < book.len() ==> !#[trigger] jokers_phase(book[o], who, matches, f, stage) {
            if exists|f: int| 0 <= f < matches.len() && (#[trigger] matches[f]).id == p.match_id {
                let f = choose|f: int|
                    0 <= f < matches.len() && (#[trigger] matches[f]).id == p.match_id;
                ids_that_differ_are_found(matches, f);
                assert(jokers_phase(book[j], who, matches, f, stage));
            } else {
                assert forall|f: int| 0 <= f < matches.len() implies (#[trigger] matches[f]).id
                    != p.match_id by {}
            }
        }
    }
}

/// Without jokers in the space, on a match that is not there or has begun, or
/// without a bet, a joker is refused, each for its reason.
pub proof fn jokers_are_refused_for_a_reason(
    book: Seq<Prediction>,
    who: Member,
    matches: Seq<Match>,
    id: i64,
    at: Timestamp,
    k: int,
)
    requires
        ids_differ(matches),
    ensures
        joker_refusal(book, who, matches, false, id, at) == Some(Refusal::JokersDisabled),
        (forall|f: int| 0 <= f < matches.len() ==> (#[trigger] matches[f]).id != id)
            ==> joker_refusal(book, who, matches, true, id, at) == Some(Refusal::MatchNotFound),
        0 <= k < matches.len() && matches[k].id == id && !matches[k].open_at(at) ==> joker_refusal(
            book,
            who,
            matches,
            true,
            id,
            at,
        ) == Some(Refusal::MatchClosed),
        0 <= k < matches.len() && matches[k].id == id && matches[k].open_at(at) && (forall|i: int|
            0 <= i < book.len() ==> !((#[trigger] book[i]).user_id == who.user_id
                && book[i].match_id == id && book[i].tenant_id == who.tenant_id)) ==> joker_refusal(
            book,
            who,
            matches,
            true,
            id,
            at,
        ) == Some(Refusal::NoBet),
{
    matches_are_found_by_id(matches, id);
    position_bounds(book, who.user_id, id);
    if 0 <= k < matches.len() && matches[k].id == id {
        ids_that_differ_are_found(matches, k);
    }
}

/// Toggling clears the joker of a bet that has it. Otherwise it sets it, and takes
/// it from the bet of the same phase that had it; every other bet stays as it was.
pub proof fn toggling_moves_the_joker(
    book: Seq<Prediction>,
    who: Member,
    matches: Seq<Match>,
    i: int,
    k: int,
    other: int,
    l: int,
)
    requires
        ids_differ(matches),
        one_bet_per_match(book),
        one_joker_per_phase(book, who, matches),
        0 <= k < matches.len(),
        0 <= i < book.len(),
        book[i].user_id == who.user_id,
        book[i].tenant_id == who.tenant_id,
        book[i].match_id == matches[k].id,
        0 <= other < book.len(),
        other != i,
        0 <= l < matches.len(),
        matches[l].id == book[other].match_id,
    ensures
        ({
            let after = toggled(book, who, matches, matches[k].id);
            let stage = opt_text(matches[k].stage);
            let freed = book[i].multiplier != 2 && jokers_phase(
                book[other],
                who,
                matches,
                l,
                stage,
            );
            &&& after.len() == book.len()
            &&& book[i].multiplier == 2 ==> after[i].multiplier == 1
            &&& book[i].multiplier != 2 ==> after[i].multiplier == 2
            &&& after[i] == (Prediction { multiplier: after[i].multiplier, ..book[i] })
            &&& freed ==> after[other] == (Prediction { multiplier: 1, ..book[other] })
            &&& !freed ==> after[other] == book[other]
        }),
{
    let id = matches[k].id;
    let stage = opt_text(matches[k].stage);
    ids_that_differ_are_found(matches, k);
    ids_that_differ_are_found(matches, l);
    position_bounds(book, who.user_id, id);
    let p = bet_position(book, who.user_id, id);
    if p < i {
        assert(book[p].user_id == book[i].user_id);
    }
    assert(p == i);
    joker_bounds(book, who, matches, stage);
    let j = joker_position(book, who, matches, stage);
    if phase_joker(book[other], who, matches, stage) {
        if j < other {
            assert(phase_joker(book[j], who, matches, stage));
        }
        assert(j == other);
    } else if j < book.len() {
        assert(j != other);
    }
}

/// A card shows the match, the scores the member bet, the points they got, and
/// whether the bet is a joker; without a bet it shows none of these.
pub proof fn cards_show_the_bet(
    v: MatchView,
    m: Match,
    bet: Option<Prediction>,
    jokers_enabled: bool,
    at: Timestamp,
)
    requires
        v.shows(m, bet, jokers_enabled, at),
    ensures
        v.m == m,
        v.open <==> m.open_at(at),
        v.finished <==> m.concluded_by(at),
        v.jokers_enabled == jokers_enabled,
        bet is Some ==> v.bet_home == Some(bet->0.home_score) && v.bet_away == Some(
            bet->0.away_score,
        ) && v.points == bet->0.points && (v.is_joker <==> bet->0.multiplier == 2),
        bet is None ==> v.bet_home is None && v.bet_away is None && v.points is None
            && !v.is_joker,
{
}

/// Placing a bet on a match succeeds exactly with two scores from 0 to 30, ahead of
/// kickoff, on a match that has not begun. The book then holds these scores for this
/// player and match; every other bet stays as it was, and all do where it is refused.
pub proof fn placing_a_bet_writes_its_scores(
    book: &mut Vec<Prediction>,
    matches: &Vec<Match>,
    who: Member,
    match_id: i64,
    form: BetForm,
    at: Timestamp,
    r: Result<(), Refusal>,
    i: int,
    k: int,
)
    requires
        call_ensures(place_or_update, (book, matches, who, match_id, form, at), r),
        one_bet_per_match(old(book)@),
        0 <= i < matches@.len(),
        matches@[i].id == match_id,
        forall|j: int| 0 <= j < i ==> (#[trigger] matches@[j]).id != match_id,
        0 <= k < old(book)@.len(),
    ensures
        ({
            let m = matches@[i];
            let p = old(book)@[k];
            let after = final(book)@[k];
            let in_bounds = 0 <= form.home_score && form.home_score <= 30 && 0 <= form.away_score
                && form.away_score <= 30;
            let ahead = at.secs < m.kickoff_at.secs || (at.secs == m.kickoff_at.secs && at.nanos
                < m.kickoff_at.nanos);
            let begun = m.status@ == "IN_PLAY"@ || m.status@ == "PAUSED"@ || m.status@
                == "EXTRA_TIME"@ || m.status@ == "PENALTY_SHOOTOUT"@ || m.status@ == "FINISHED"@
                || m.status@ == "AWARDED"@ || m.status@ == "SUSPENDED"@;
            let mine = p.user_id == who.user_id && p.match_id == match_id;
            &&& r is Ok <==> in_bounds && ahead && !begun
            &&& !in_bounds ==> r == Err::<(), Refusal>(Refusal::InvalidScore)
            &&& in_bounds && (!ahead || begun) ==> r == Err::<(), Refusal>(Refusal::BetsClosed)
            &&& r is Err ==> final(book)@ == old(book)@
            &&& r is Ok && mine ==> final(book)@.len() == old(book)@.len() && after == (Prediction {
                home_score: form.home_score,
                away_score: form.away_score,
                ..p
            })
            &&& r is Ok && !mine ==> after == p
        }),
        r is Ok ==> exists|j: int|
            0 <= j < final(book)@.len() && (#[trigger] final(book)@[j]).user_id == who.user_id
                && final(book)@[j].match_id == match_id && final(book)@[j].home_score
                == form.home_score && final(book)@[j].away_score == form.away_score,
{
    acceptable_bets_are_accepted(form, matches@, i, at);
    written_bets_hold_the_scores(old(book)@, who, match_id, form, k);
}

/// A first bet on a match is added to the book, in the name of the player and of their
/// space, without points or a joker.
pub proof fn placing_a_first_bet_adds_it(
    book: &mut Vec<Prediction>,
    matches: &Vec<Match>,
    who: Member,
    match_id: i64,
    form: BetForm,
    at: Timestamp,
    r: Result<(), Refusal>,
)
    requires
        call_ensures(place_or_update, (book, matches, who, match_id, form, at), r),
        r is Ok,
        forall|k: int|
            0 <= k < old(book)@.len() ==> !((#[trigger] old(book)@[k]).user_id == who.user_id
                && old(book)@[k].match_id == match_id),
    ensures
        final(book)@ == old(book)@.push(
            Prediction {
                tenant_id: who.tenant_id,
                user_id: who.user_id,
                match_id,
                home_score: form.home_score,
                away_score: form.away_score,
                points: None,
                multiplier: 1,
            },
        ),
{
    position_bounds(old(book)@, who.user_id, match_id);
}

/// A bet on a match that nobody knows is refused.
pub proof fn placing_a_bet_needs_a_match(
    book: &mut Vec<Prediction>,
    matches: &Vec<Match>,
    who: Member,
    match_id: i64,
    form: BetForm,
    at: Timestamp,
    r: Result<(), Refusal>,
)
    requires
        call_ensures(place_or_update, (book, matches, who, match_id, form, at), r),
        forall|k: int| 0 <= k < matches@.len() ==> (#[trigger] matches@[k]).id != match_id,
        0 <= form.home_score <= 30,
        0 <= form.away_score <= 30,
    ensures
        r == Err::<(), Refusal>(Refusal::MatchNotFound),
        final(book)@ == old(book)@,
{
    bets_need_their_match(form, matches@, match_id, at);
}

/// Toggling takes the joker off the player's own bet if it is there; else it puts it
/// there and takes it off the bet that had it in this phase, unless that one's match
/// has kicked off. It needs jokers to be on and the match to be open, and changes
/// nothing where it is refused.
pub proof fn toggling_puts_the_joker_where_asked(
    book: &mut Vec<Prediction>,
    matches: &Vec<Match>,
    who: Member,
    jokers_enabled: bool,
    match_id: i64,
    at: Timestamp,
    r: Result<(), Refusal>,
    i: int,
    k: int,
    other: int,
    l: int,
)
    requires
        call_ensures(toggle_joker, (book, matches, who, jokers_enabled, match_id, at), r),
        ids_differ(matches@),
        one_bet_per_match(old(book)@),
        one_joker_per_phase(old(book)@, who, matches@),
        0 <= k < matches@.len(),
        matches@[k].id == match_id,
        0 <= i < old(book)@.len(),
        old(book)@[i].user_id == who.user_id,
        old(book)@[i].tenant_id == who.tenant_id,
        old(book)@[i].match_id == match_id,
        0 <= other < old(book)@.len(),
        other != i,
        0 <= l < matches@.len(),
        matches@[l].id == old(book)@[other].match_id,
    ensures
        ({
            let mine = old(book)@[i];
            let theirs = old(book)@[other];
            let same_stage = match (matches@[k].stage, matches@[l].stage) {
                (Some(a), Some(b)) => a@ == b@,
                (None, None) => true,
                _ => false,
            };
            let had_it = theirs.user_id == who.user_id && theirs.tenant_id == who.tenant_id
                && theirs.multiplier == 2 && same_stage;
            &&& !jokers_enabled ==> r == Err::<(), Refusal>(Refusal::JokersDisabled)
            &&& jokers_enabled && !matches@[k].open_at(at) ==> r == Err::<(), Refusal>(
                Refusal::MatchClosed,
            )
            &&& jokers_enabled && matches@[k].open_at(at) && mine.multiplier == 2 ==> r is Ok
            &&& jokers_enabled && matches@[k].open_at(at) && mine.multiplier != 2 && had_it ==> (r
                is Ok <==> at.lt(matches@[l].kickoff_at)) && (r is Err ==> r == Err::<(), Refusal>(
                Refusal::JokerLocked,
            ))
            &&& r is Err ==> final(book)@ == old(book)@
            &&& r is Ok && mine.multiplier == 2 ==> final(book)@[i] == (Prediction {
                multiplier: 1,
                ..mine
            })
            &&& r is Ok && mine.multiplier != 2 ==> final(book)@[i] == (Prediction {
                multiplier: 2,
                ..mine
            })
            &&& r is Ok && mine.multiplier != 2 && had_it ==> final(book)@[other] == (Prediction {
                multiplier: 1,
                ..theirs
            })
            &&& r is Ok && !(mine.multiplier != 2 && had_it) ==> final(book)@[other] == theirs
        }),
{
    let before = old(book)@;
    jokers_are_refused_for_a_reason(before, who, matches@, match_id, at, k);
    toggling_moves_the_joker(before, who, matches@, i, k, other, l);
    if matches@[k].open_at(at) {
        jokers_are_free_until_kickoff(before, who, matches@, at, i, k, other, l);
    }
}

/// What each refusal is answered.
pub proof fn refusals_are_answered(why: Refusal, loc: Locale, code: u16, text: &'static str)
    requires
        call_ensures(Refusal::status, (why,), code),
        call_ensures(Refusal::message, (why, loc), text),
    ensures
        match why {
            Refusal::InvalidScore => code == 400 && text@ == loc.pick(
                "Score invalide (0-30)."@,
                "Invalid score (0-30)."@,
            ),
            Refusal::MatchNotFound => code == 404 && text@ == loc.pick(
                "Match introuvable."@,
                "Match not found."@,
            ),
            Refusal::BetsClosed => code == 403 && text@ == loc.pick(
                "Les paris sont fermés pour ce match."@,
                "Bets are closed for this match."@,
            ),
            Refusal::JokersDisabled => code == 403 && text@ == loc.pick(
                "Les jokers ne sont pas activés."@,
                "Jokers are not enabled."@,
            ),
            Refusal::MatchClosed => code == 403 && text@ == loc.pick(
                "Ce match est fermé."@,
                "This match is closed."@,
            ),
            Refusal::NoBet => code == 400 && text@ == loc.pick(
                "Place d'abord ton pari sur ce match."@,
                "Place your bet on this match first."@,
            ),
            Refusal::JokerLocked => code == 409 && text@ == loc.pick(
                "Ton joker de cette phase est déjà verrouillé (le match a commencé)."@,
                "Your joker for this phase is locked (its match has started)."@,
            ),
        },
{
}

/// A card is rendered with the scores of the bet, and leads back to its place in the
/// list.
pub proof fn rendered_cards_show_the_bet(
    m: Match,
    bet: Option<Prediction>,
    jokers_enabled: bool,
    at: Timestamp,
    r: MatchView,
    anchor: String,
)
    requires
        call_ensures(render_match_card, (m, bet, jokers_enabled, at), r),
        call_ensures(card_anchor, (m.id,), anchor),
    ensures
        r.m == m,
        r.open <==> m.open_at(at),
        r.finished <==> m.concluded_by(at),
        r.jokers_enabled == jokers_enabled,
        bet is Some ==> r.bet_home == Some(bet->0.home_score) && r.bet_away == Some(
            bet->0.away_score,
        ) && r.points == bet->0.points && (r.is_joker <==> bet->0.multiplier == 2),
        bet is None ==> r.bet_home is None && r.bet_away is None && r.points is None
            && !r.is_joker,
        anchor@ == "/matches#match-"@ + decimal(m.id as int),
{
    cards_show_the_bet(r, m, bet, jokers_enabled, at);
}

/// A joker needs a match that is known and open and a bet of the player's own on it.
pub proof fn toggling_needs_a_bet(
    book: &mut Vec<Prediction>,
    matches: &Vec<Match>,
    who: Member,
    match_id: i64,
    at: Timestamp,
    r: Result<(), Refusal>,
    k: int,
)
    requires
        call_ensures(toggle_joker, (book, matches, who, true, match_id, at), r),
        ids_differ(matches@),
    ensures
        (forall|f: int| 0 <= f < matches@.len() ==> (#[trigger] matches@[f]).id != match_id) ==> r
            == Err::<(), Refusal>(Refusal::MatchNotFound),
        0 <= k < matches@.len() && matches@[k].id == match_id && matches@[k].open_at(at) && (forall|
            i: int,
        |
            0 <= i < old(book)@.len() ==> !((#[trigger] old(book)@[i]).user_id == who.user_id
                && old(book)@[i].match_id == match_id && old(book)@[i].tenant_id == who.tenant_id))
            ==> r == Err::<(), Refusal>(Refusal::NoBet),
        r is Err ==> final(book)@ == old(book)@,
{
    jokers_are_refused_for_a_reason(old(book)@, who, matches@, match_id, at, k);
}

} // verus!
