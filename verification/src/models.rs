//! Players, matches and predictions, and what follows from a match's state.
use vstd::prelude::*;

use crate::clock::{now, time_passes, Timestamp, HOUR, SECOND};
use crate::i18n::Locale;
use crate::ordering::{by_time, order_by_time, positions, times_are_in_order};
use crate::text::{
    capitals, char_rows, decimal, is_plain, letter_or_number, lowered, nothing_to_trim, one_piece,
    pieces, pieces_part_at_a_separator, smalls, split, str_eq, string_of, to_decimal, trim, trimmed,
    trimmed_end, trimmed_start, uppered, white_space, Cut,
};

verus! {

/// A member of a space.
#[derive(Debug, Clone)]
pub struct User {
    pub id: u128,
    pub email: String,
    pub display_name: String,
    pub is_admin: bool,
    pub created_at: Timestamp,
    pub stake_eur: Option<i32>,
    pub stake_chosen_at: Option<Timestamp>,
    pub paid_at: Option<Timestamp>,
}

/// A fixture, with what is known of its result.
#[derive(Debug, Clone)]
pub struct Match {
    pub id: i64,
    pub competition: String,
    pub stage: Option<String>,
    pub group_name: Option<String>,
    pub home_team: String,
    pub away_team: String,
    pub home_team_code: Option<String>,
    pub away_team_code: Option<String>,
    pub kickoff_at: Timestamp,
    pub status: String,
    pub home_score: Option<i32>,
    pub away_score: Option<i32>,
    /// Penalty shootout score, set only for a knockout decided on penalties.
    pub pens_home: Option<i32>,
    pub pens_away: Option<i32>,
}

/// A member's prediction for one match.
#[derive(Debug, Clone)]
pub struct Bet {
    pub id: u128,
    pub user_id: u128,
    pub match_id: i64,
    pub home_score: i32,
    pub away_score: i32,
    pub points: Option<i32>,
}

/// A member's prediction as it is ranked: the bet, its joker multiplier and the
/// points it was given.
#[derive(Clone, Copy, PartialEq, Eq, Debug, Structural)]
pub struct Prediction {
    pub tenant_id: u128,
    pub user_id: u128,
    pub match_id: i64,
    pub home_score: i32,
    pub away_score: i32,
    /// Base points times the multiplier, once the match is settled.
    pub points: Option<i32>,
    /// 2 for a joker, 1 otherwise.
    pub multiplier: i32,
}

/// The match with a given id: the first one that carries it.
pub open spec fn match_with_id(matches: Seq<Match>, id: i64) -> Option<Match>
    decreases matches.len(),
{
    if matches.len() == 0 {
        None
    } else if matches[0].id == id {
        Some(matches[0])
    } else {
        match_with_id(matches.drop_first(), id)
    }
}

/// Looks a match up by its id.
pub fn find_match(matches: &Vec<Match>, id: i64) -> (r: Option<&Match>)
    ensures
        match r {
            Some(m) => match_with_id(matches@, id) == Some(*m),
            None => match_with_id(matches@, id) is None,
        },
{
    let mut i: usize = 0;
    assert(matches@.skip(0) =~= matches@);
    while i < matches.len()
        invariant
            i <= matches.len(),
            match_with_id(matches@, id) == match_with_id(matches@.skip(i as int), id),
        decreases matches.len() - i,
    {
        if matches[i].id == id {
            return Some(&matches[i]);
        }
        assert(matches@.skip(i as int).drop_first() =~= matches@.skip(i + 1));
        i = i + 1;
    }
    None
}

/// The kickoffs of some matches.
pub open spec fn kickoffs(matches: Seq<Match>) -> Seq<Timestamp> {
    Seq::new(matches.len(), |i: int| matches[i].kickoff_at)
}

/// The positions of some matches, earliest kickoff first.
pub open spec fn by_kickoff(matches: Seq<Match>) -> Seq<int> {
    by_time(kickoffs(matches))
}

/// Orders matches by kickoff: gives their positions, earliest first.
pub fn order_by_kickoff(matches: &Vec<Match>) -> (r: Vec<usize>)
    ensures
        positions(r@) == by_kickoff(matches@),
        r@.len() == matches@.len(),
        forall|k: int| 0 <= k < r@.len() ==> (#[trigger] r@[k]) < matches@.len(),
{
    let mut times: Vec<Timestamp> = Vec::new();
    let mut i: usize = 0;
    while i < matches.len()
        invariant
            i <= matches.len(),
            times@.len() == i,
            forall|k: int| 0 <= k < i ==> #[trigger] times@[k] == matches@[k].kickoff_at,
        decreases matches.len() - i,
    {
        times.push(matches[i].kickoff_at);
        i = i + 1;
    }
    assert(times@ =~= kickoffs(matches@));
    order_by_time(&times)
}

/// The canonical order of the tournament's stages.
pub const STAGE_ORDER: [&'static str; 7] = [
    "GROUP_STAGE",
    "LAST_32",
    "LAST_16",
    "QUARTER_FINALS",
    "SEMI_FINALS",
    "THIRD_PLACE",
    "FINAL",
];

/// A match cannot still be in play this many hours after kickoff.
pub const MAX_MATCH_DURATION_HOURS: i64 = 4;

/// Feed statuses that mean a match is under way or already decided. Anything
/// outside this set (a value the feed adds later, too) is a pre-match state.
pub open spec fn started(status: Seq<char>) -> bool {
    ||| status == "IN_PLAY"@
    ||| status == "PAUSED"@
    ||| status == "EXTRA_TIME"@
    ||| status == "PENALTY_SHOOTOUT"@
    ||| status == "FINISHED"@
    ||| status == "AWARDED"@
    ||| status == "SUSPENDED"@
}

/// Whether a feed status means that the match has started.
pub fn has_kicked_off(status: &str) -> (r: bool)
    ensures
        r == started(status@),
{
    str_eq(status, "IN_PLAY") || str_eq(status, "PAUSED") || str_eq(status, "EXTRA_TIME")
        || str_eq(status, "PENALTY_SHOOTOUT") || str_eq(status, "FINISHED")
        || str_eq(status, "AWARDED") || str_eq(status, "SUSPENDED")
}

/// Whether bets are taken at `at` on a match with this kickoff and status: the
/// kickoff is ahead and the feed has not moved the match into a started state.
pub open spec fn open_for_bets(kickoff: Timestamp, status: Seq<char>, at: Timestamp) -> bool {
    at.lt(kickoff) && !started(status)
}

/// Whether bets are taken at a given instant.
pub fn betting_open_at(kickoff_at: Timestamp, status: &str, at: Timestamp) -> (r: bool)
    ensures
        r == open_for_bets(kickoff_at, status@, at),
{
    at.before(kickoff_at) && !has_kicked_off(status)
}

/// Whether bets are taken now. The present instant is unknown, but it is the
/// same for both halves of the rule, and a started match is closed at any time.
pub fn betting_open(kickoff_at: Timestamp, status: &str) -> (r: bool)
    ensures
        exists|at: Timestamp|
            at.valid() && at.secs >= 0 && r == #[trigger] open_for_bets(kickoff_at, status@, at),
        started(status@) ==> !r,
        kickoff_at.secs < 0 ==> !r,
{
    let at: Timestamp = now();
    let r: bool = betting_open_at(kickoff_at, status, at);
    assert(r == open_for_bets(kickoff_at, status@, at));
    r
}

/// The first `n` items of a sequence, or all of them where there are fewer.
pub open spec fn first_n<T>(s: Seq<T>, n: int) -> Seq<T> {
    if s.len() <= n {
        s
    } else {
        s.take(n)
    }
}

/// Whether a word holds a letter or a digit.
pub open spec fn readable(word: Seq<char>) -> bool {
    exists|i: int| 0 <= i < word.len() && letter_or_number(#[trigger] word[i])
}

/// Whether a word counts for an abbreviation: it can be read, and is no
/// connector.
pub open spec fn significant(word: Seq<char>) -> bool {
    &&& readable(word)
    &&& lowered(word) != "and"@
    &&& lowered(word) != "of"@
    &&& lowered(word) != "the"@
}

/// The words of a name that count for its abbreviation.
pub open spec fn significant_words(name: Seq<char>) -> Seq<Seq<char>> {
    only_significant(pieces(name, Cut::Blank))
}

/// The significant words among some words, in their order.
pub open spec fn only_significant(words: Seq<Seq<char>>) -> Seq<Seq<char>> {
    words.filter(|word: Seq<char>| significant(word))
}

/// A short code made from a team name: the first three letters of a single
/// word, or the initials of the first three words, in uppercase.
pub open spec fn abbreviation(name: Seq<char>) -> Seq<char> {
    let words = significant_words(name);
    if words.len() == 0 {
        "?"@
    } else if words.len() == 1 {
        uppered(first_n(words[0], 3))
    } else {
        uppered(first_n(Seq::new(words.len(), |i: int| words[i][0]), 3))
    }
}

fn is_significant(word: &Vec<char>) -> (r: bool)
    ensures
        r == significant(word@),
{
    let mut found: bool = false;
    let mut i: usize = 0;
    while i < word.len() && !found
        invariant
            i <= word.len(),
            found ==> readable(word@),
            !found ==> forall|k: int| 0 <= k < i ==> !letter_or_number(#[trigger] word@[k]),
        decreases word.len() - i,
    {
        if word[i].is_alphanumeric() {
            assert(letter_or_number(word@[i as int]));
            found = true;
        }
        i = i + 1;
    }
    if !found {
        return false;
    }
    let lower: String = string_of(word).as_str().to_lowercase();
    !str_eq(lower.as_str(), "and") && !str_eq(lower.as_str(), "of") && !str_eq(
        lower.as_str(),
        "the",
    )
}

/// Keeping one more word: what a filter does with the last item.
proof fn filter_grows(words: Seq<Seq<char>>, n: int)
    requires
        0 <= n < words.len(),
    ensures
        only_significant(words.take(n + 1)) == if significant(words[n]) {
            only_significant(words.take(n)).push(words[n])
        } else {
            only_significant(words.take(n))
        },
{
    reveal(Seq::filter);
    assert(words.take(n + 1).drop_last() =~= words.take(n));
}

/// A significant word is not empty.
proof fn significant_words_are_some(name: Seq<char>)
    ensures
        forall|i: int|
            0 <= i < significant_words(name).len() ==> (#[trigger] significant_words(name)[i]).len()
                > 0,
{
    let words = pieces(name, Cut::Blank);
    assert forall|i: int| 0 <= i < significant_words(name).len() implies (
    #[trigger] significant_words(name)[i]).len() > 0 by {
        words.lemma_filter_pred(|word: Seq<char>| significant(word), i);
        assert(significant(significant_words(name)[i]));
    }
}

/// Derives a short code from a team name when the feed gives none.
pub fn abbreviate(name: &str) -> (r: String)
    ensures
        r@ == abbreviation(name@),
        r@.len() > 0,
{
    let words: Vec<Vec<char>> = split(name, Cut::Blank);
    let ghost all = pieces(name@, Cut::Blank);
    let mut initials: Vec<char> = Vec::new();
    let mut first: Vec<char> = Vec::new();
    let mut count: usize = 0;
    let mut i: usize = 0;
    proof {
        reveal(Seq::filter);
        assert(all.take(0) =~= Seq::empty());
    }
    while i < words.len()
        invariant
            i <= words.len(),
            char_rows(words@) == all,
            count == only_significant(all.take(i as int)).len(),
            count <= i,
            initials@ == Seq::new(
                count as nat,
                |k: int| only_significant(all.take(i as int))[k][0],
            ),
            count > 0 ==> first@ == only_significant(all.take(i as int))[0],
        decreases words.len() - i,
    {
        assert(words@[i as int]@ == char_rows(words@)[i as int]);
        proof {
            filter_grows(all, i as int);
        }
        if is_significant(&words[i]) {
            if count == 0 {
                first = clone_chars(&words[i]);
            }
            initials.push(words[i][0]);
            count = count + 1;
        }
        i = i + 1;
    }
    assert(all.take(all.len() as int) =~= all);
    if count == 0 {
        proof {
            reveal_strlit("?");
        }
        return "?".to_owned();
    }
    proof {
        significant_words_are_some(name@);
    }
    let source: Vec<char> = if count == 1 {
        first
    } else {
        initials
    };
    let code: Vec<char> = take_chars(&source, 3);
    string_of(&code).as_str().to_uppercase()
}

fn clone_chars(v: &Vec<char>) -> (r: Vec<char>)
    ensures
        r@ == v@,
{
    take_chars(v, v.len())
}

fn take_chars(v: &Vec<char>, n: usize) -> (r: Vec<char>)
    ensures
        r@ == first_n(v@, n as int),
{
    let mut out: Vec<char> = Vec::new();
    let mut i: usize = 0;
    while i < v.len() && i < n
        invariant
            i <= v.len(),
            i <= n,
            out@ =~= v@.take(i as int),
        decreases v.len() - i,
    {
        out.push(v[i]);
        i = i + 1;
    }
    assert(v@.take(v@.len() as int) =~= v@);
    out
}

/// The badge code of a team: the feed's code when it gives one that is not
/// blank, in uppercase, otherwise an abbreviation of the name.
pub open spec fn team_code_text(tla: Option<Seq<char>>, name: Seq<char>) -> Seq<char> {
    match tla {
        Some(code) if trimmed(code).len() > 0 => uppered(trimmed(code)),
        _ => abbreviation(name),
    }
}

/// The view of an optional text.
pub open spec fn opt_text(s: Option<String>) -> Option<Seq<char>> {
    match s {
        Some(t) => Some(t@),
        None => None,
    }
}

/// The view of an optional borrowed text.
pub open spec fn opt_str(s: Option<&str>) -> Option<Seq<char>> {
    match s {
        Some(t) => Some(t@),
        None => None,
    }
}

/// The badge code of a team. There always is one.
pub fn team_code(tla: Option<&str>, name: &str) -> (r: String)
    ensures
        r@ == team_code_text(opt_str(tla), name@),
        r@.len() > 0,
{
    if let Some(code) = tla {
        let code: String = trim(code);
        if !code.as_str().is_empty() {
            return code.as_str().to_uppercase();
        }
    }
    abbreviate(name)
}

/// Copies an optional text.
pub fn copy_opt(s: &Option<String>) -> (r: Option<String>)
    ensures
        r == *s,
{
    match s {
        Some(t) => Some(t.clone()),
        None => None,
    }
}

/// Borrows an optional text.
pub fn as_opt_str(s: &Option<String>) -> (r: Option<&str>)
    ensures
        opt_str(r) == opt_text(*s),
{
    match s {
        Some(t) => Some(t.as_str()),
        None => None,
    }
}

impl Match {
    /// A copy of this match.
    pub fn copied(&self) -> (r: Match)
        ensures
            r == *self,
    {
        Match {
            id: self.id,
            competition: self.competition.clone(),
            stage: copy_opt(&self.stage),
            group_name: copy_opt(&self.group_name),
            home_team: self.home_team.clone(),
            away_team: self.away_team.clone(),
            home_team_code: copy_opt(&self.home_team_code),
            away_team_code: copy_opt(&self.away_team_code),
            kickoff_at: self.kickoff_at,
            status: self.status.clone(),
            home_score: self.home_score,
            away_score: self.away_score,
            pens_home: self.pens_home,
            pens_away: self.pens_away,
        }
    }

    /// Whether the feed gave a final result.
    pub open spec fn decided(self) -> bool {
        self.status@ == "FINISHED"@ && self.home_score is Some && self.away_score is Some
    }

    /// Whether the match kicked off so long before `at` that it cannot still
    /// be in play.
    pub open spec fn over_by(self, at: Timestamp) -> bool {
        at.elapsed(self.kickoff_at) > MAX_MATCH_DURATION_HOURS * HOUR * SECOND
    }

    /// Whether bets are taken on this match at `at`.
    pub open spec fn open_at(self, at: Timestamp) -> bool {
        open_for_bets(self.kickoff_at, self.status@, at)
    }

    /// Whether this match is shown as concluded at `at`.
    pub open spec fn concluded_by(self, at: Timestamp) -> bool {
        self.decided() || self.over_by(at)
    }

    /// Whether bets are taken on this match at a given instant.
    pub fn is_open_for_bets_at(&self, at: Timestamp) -> (r: bool)
        ensures
            r == self.open_at(at),
    {
        betting_open_at(self.kickoff_at, self.status.as_str(), at)
    }

    /// Whether bets are taken on this match now.
    pub fn is_open_for_bets(&self) -> (r: bool)
        ensures
            exists|at: Timestamp| at.valid() && at.secs >= 0 && r == #[trigger] self.open_at(at),
            started(self.status@) ==> !r,
            self.kickoff_at.secs < 0 ==> !r,
    {
        let at: Timestamp = now();
        let r: bool = self.is_open_for_bets_at(at);
        assert(r == self.open_at(at));
        r
    }

    /// Whether the feed gave a final result.
    pub fn has_final_result(&self) -> (r: bool)
        ensures
            r == self.decided(),
    {
        str_eq(self.status.as_str(), "FINISHED") && self.home_score.is_some()
            && self.away_score.is_some()
    }

    /// The penalty shootout score as "home-away", or `None` when the match was
    /// not decided on penalties.
    pub fn penalty_score(&self) -> (r: Option<String>)
        ensures
            opt_text(r) == match (self.pens_home, self.pens_away) {
                (Some(h), Some(a)) => Some(decimal(h as int) + "-"@ + decimal(a as int)),
                _ => None,
            },
    {
        match (self.pens_home, self.pens_away) {
            (Some(h), Some(a)) => {
                let mut out: String = to_decimal(h as i64);
                out.append("-");
                out.append(to_decimal(a as i64).as_str());
                Some(out)
            },
            _ => None,
        }
    }

    /// Whether this match kicked off so long before `at` that it cannot still
    /// be in play.
    pub fn is_long_over_at(&self, at: Timestamp) -> (r: bool)
        ensures
            r == self.over_by(at),
    {
        at.is_past(self.kickoff_at, MAX_MATCH_DURATION_HOURS * HOUR)
    }

    /// Whether this match kicked off so long ago that it cannot still be in
    /// play: a safety net for matches the feed never marked as finished.
    pub fn is_long_over(&self) -> (r: bool)
        ensures
            exists|at: Timestamp| at.valid() && at.secs >= 0 && r == #[trigger] self.over_by(at),
            self.kickoff_at.secs < -MAX_MATCH_DURATION_HOURS * HOUR - 4 ==> r,
    {
        let at: Timestamp = now();
        let r: bool = self.is_long_over_at(at);
        assert(r == self.over_by(at));
        r
    }

    /// Whether this match is shown as concluded at a given instant.
    pub fn is_concluded_at(&self, at: Timestamp) -> (r: bool)
        ensures
            r == self.concluded_by(at),
    {
        self.has_final_result() || self.is_long_over_at(at)
    }

    /// Whether this match is shown as concluded rather than as open or live:
    /// the feed gave a final result, or it can no longer be in play.
    pub fn is_concluded(&self) -> (r: bool)
        ensures
            exists|at: Timestamp|
                at.valid() && at.secs >= 0 && r == #[trigger] self.concluded_by(at),
            self.decided() ==> r,
            self.kickoff_at.secs < -MAX_MATCH_DURATION_HOURS * HOUR - 4 ==> r,
    {
        let at: Timestamp = now();
        let r: bool = self.is_concluded_at(at);
        assert(r == self.concluded_by(at));
        r
    }

    /// Short code shown on the home team's badge.
    pub fn home_code(&self) -> (r: String)
        ensures
            r@ == team_code_text(opt_text(self.home_team_code), self.home_team@),
            r@.len() > 0,
    {
        team_code(as_opt_str(&self.home_team_code), self.home_team.as_str())
    }

    /// Short code shown on the away team's badge.
    pub fn away_code(&self) -> (r: String)
        ensures
            r@ == team_code_text(opt_text(self.away_team_code), self.away_team@),
            r@.len() > 0,
    {
        team_code(as_opt_str(&self.away_team_code), self.away_team.as_str())
    }

    /// Localised label of the match's tournament stage.
    pub fn stage_label(&self, loc: Locale) -> (r: Option<&str>)
        ensures
            opt_str(r) == match self.stage {
                Some(s) => Some(stage_text(s@, loc)),
                None => None,
            },
    {
        match &self.stage {
            Some(s) => Some(stage_label_for(s.as_str(), loc)),
            None => None,
        }
    }
}

/// The label of a stage: its name in the given language, or the raw value when
/// it is not a stage we know.
pub open spec fn stage_text(stage: Seq<char>, loc: Locale) -> Seq<char> {
    if stage == "GROUP_STAGE"@ {
        loc.pick("Phase de groupes"@, "Group stage"@)
    } else if stage == "LAST_32"@ {
        loc.pick("16èmes de finale"@, "Round of 32"@)
    } else if stage == "LAST_16"@ {
        loc.pick("8èmes de finale"@, "Round of 16"@)
    } else if stage == "QUARTER_FINALS"@ {
        loc.pick("Quarts de finale"@, "Quarter-finals"@)
    } else if stage == "SEMI_FINALS"@ {
        loc.pick("Demi-finales"@, "Semi-finals"@)
    } else if stage == "THIRD_PLACE"@ {
        loc.pick("Match pour la 3e place"@, "Third-place match"@)
    } else if stage == "FINAL"@ {
        loc.pick("Finale"@, "Final"@)
    } else {
        stage
    }
}

/// The label of a stage in the given language.
pub fn stage_label_for(stage: &str, loc: Locale) -> (r: &str)
    ensures
        r@ == stage_text(stage@, loc),
{
    if str_eq(stage, "GROUP_STAGE") {
        loc.f("Phase de groupes", "Group stage")
    } else if str_eq(stage, "LAST_32") {
        loc.f("16èmes de finale", "Round of 32")
    } else if str_eq(stage, "LAST_16") {
        loc.f("8èmes de finale", "Round of 16")
    } else if str_eq(stage, "QUARTER_FINALS") {
        loc.f("Quarts de finale", "Quarter-finals")
    } else if str_eq(stage, "SEMI_FINALS") {
        loc.f("Demi-finales", "Semi-finals")
    } else if str_eq(stage, "THIRD_PLACE") {
        loc.f("Match pour la 3e place", "Third-place match")
    } else if str_eq(stage, "FINAL") {
        loc.f("Finale", "Final")
    } else {
        stage
    }
}

/// Once bets have closed on a match whose status stays the same, they stay
/// closed.
pub proof fn closed_bets_stay_closed(m: Match, at: Timestamp, later: Timestamp)
    requires
        !m.open_at(at),
        at.le(later),
    ensures
        !m.open_at(later),
{
}

/// A match that is shown as concluded stays so. Around midnight the count of a
/// leap second goes back, so no instant may lie in one.
pub proof fn concluded_matches_stay_concluded(m: Match, at: Timestamp, later: Timestamp)
    requires
        m.concluded_by(at),
        at.le(later),
        m.kickoff_at.is_plain(),
        at.is_plain(),
        later.is_plain(),
    ensures
        m.concluded_by(later),
{
}

/// No match is open for bets and concluded at the same time.
pub proof fn open_matches_are_not_concluded(m: Match, at: Timestamp)
    requires
        m.open_at(at),
    ensures
        !m.concluded_by(at),
{
}

/// White space parts the significant words before it from those after it.
pub proof fn white_space_parts_words(a: Seq<char>, c: char, b: Seq<char>)
    requires
        white_space(c),
    ensures
        significant_words(a + seq![c] + b) == significant_words(a) + significant_words(b),
{
    pieces_part_at_a_separator(a, c, b, Cut::Blank);
    Seq::filter_distributes_over_add(
        pieces(a, Cut::Blank),
        pieces(b, Cut::Blank),
        |word: Seq<char>| significant(word),
    );
}

proof fn one_word_that_does_not_count(w: Seq<char>)
    requires
        !significant(w),
    ensures
        only_significant(seq![w]) == Seq::<Seq<char>>::empty(),
{
    let all = seq![w];
    filter_grows(all, 0);
    assert(all.take(1) =~= all);
    assert(all.take(0) =~= Seq::<Seq<char>>::empty());
    reveal(Seq::filter);
}

/// White space in front of a name, behind it, or next to other white space in
/// it leaves its code as it is.
pub proof fn more_white_space_keeps_the_code(a: Seq<char>, c: char, d: char, b: Seq<char>)
    requires
        white_space(c),
        white_space(d),
    ensures
        abbreviation(seq![c] + b) == abbreviation(b),
        abbreviation(a + seq![c]) == abbreviation(a),
        abbreviation(a + seq![c] + seq![d] + b) == abbreviation(a + seq![c] + b),
        abbreviation(a + seq![d] + b) == abbreviation(a + seq![c] + b),
{
    let none = Seq::<char>::empty();
    one_word_that_does_not_count(none);
    white_space_parts_words(none, c, b);
    assert(none + seq![c] + b =~= seq![c] + b);
    assert(significant_words(seq![c] + b) =~= significant_words(b));
    white_space_parts_words(a, c, none);
    assert(a + seq![c] + none =~= a + seq![c]);
    assert(significant_words(a + seq![c]) =~= significant_words(a));
    white_space_parts_words(a + seq![c], d, b);
    white_space_parts_words(a, c, b);
    white_space_parts_words(a, d, b);
}

/// Whether a word is a connector, in any case of its letters.
pub open spec fn is_connector(w: Seq<char>) -> bool {
    is_plain(w) && (smalls(w) == "and"@ || smalls(w) == "of"@ || smalls(w) == "the"@)
}

/// A connector, or a word without a letter or a digit, leaves the code of a name
/// as it is.
pub proof fn connectors_keep_the_code(
    a: Seq<char>,
    c: char,
    w: Seq<char>,
    d: char,
    b: Seq<char>,
)
    requires
        white_space(c),
        white_space(d),
        forall|k: int| 0 <= k < w.len() ==> !white_space(#[trigger] w[k]),
        is_connector(w) || !readable(w),
    ensures
        abbreviation(a + seq![c] + w + seq![d] + b) == abbreviation(a + seq![c] + b),
        abbreviation(w + seq![d] + b) == abbreviation(b),
        abbreviation(a + seq![c] + w) == abbreviation(a),
{
    one_piece(w, Cut::Blank);
    assert(!significant(w));
    one_word_that_does_not_count(w);
    white_space_parts_words(a, c, w);
    white_space_parts_words(a + seq![c] + w, d, b);
    white_space_parts_words(a, c, b);
    white_space_parts_words(w, d, b);
    assert(significant_words(a + seq![c] + w) =~= significant_words(a));
    assert(significant_words(w + seq![d] + b) =~= significant_words(b));
}

/// Looking an id up gives the first match that carries it, and nothing where none
/// does.
pub proof fn matches_are_found_by_id(matches: Seq<Match>, id: i64)
    ensures
        forall|i: int|
            0 <= i < matches.len() && (#[trigger] matches[i]).id == id && (forall|k: int|
                0 <= k < i ==> (#[trigger] matches[k]).id != id) ==> match_with_id(matches, id)
                == Some(matches[i]),
        (forall|k: int| 0 <= k < matches.len() ==> (#[trigger] matches[k]).id != id)
            ==> match_with_id(matches, id) is None,
        match_with_id(matches, id) is Some ==> match_with_id(matches, id)->0.id == id,
    decreases matches.len(),
{
    if matches.len() > 0 {
        let rest = matches.drop_first();
        matches_are_found_by_id(rest, id);
        if matches[0].id != id {
            assert forall|i: int|
                0 <= i < matches.len() && (#[trigger] matches[i]).id == id && (forall|k: int|
                    0 <= k < i ==> (#[trigger] matches[k]).id != id) implies match_with_id(
                matches,
                id,
            ) == Some(matches[i]) by {
                assert(rest[i - 1] == matches[i]);
                assert forall|k: int| 0 <= k < i - 1 implies (#[trigger] rest[k]).id != id by {
                    assert(rest[k] == matches[k + 1]);
                }
            }
            if forall|k: int| 0 <= k < matches.len() ==> (#[trigger] matches[k]).id != id {
                assert forall|k: int| 0 <= k < rest.len() implies (#[trigger] rest[k]).id != id by {
                    assert(rest[k] == matches[k + 1]);
                }
            }
        } else {
            assert forall|i: int|
                0 <= i < matches.len() && (#[trigger] matches[i]).id == id && (forall|k: int|
                    0 <= k < i ==> (#[trigger] matches[k]).id != id) implies match_with_id(
                matches,
                id,
            ) == Some(matches[i]) by {
                if i > 0 {
                    assert(matches[0].id != id);
                }
            }
        }
    }
}

/// Bets are open as long as the kickoff lies ahead, whatever the status, unless it
/// is one of the seven that say that the match has begun.
pub proof fn bets_are_open_until_the_match_begins(m: Match, at: Timestamp)
    ensures
        m.open_at(at) <==> {
            &&& at.secs < m.kickoff_at.secs || (at.secs == m.kickoff_at.secs && at.nanos
                < m.kickoff_at.nanos)
            &&& m.status@ != "IN_PLAY"@
            &&& m.status@ != "PAUSED"@
            &&& m.status@ != "EXTRA_TIME"@
            &&& m.status@ != "PENALTY_SHOOTOUT"@
            &&& m.status@ != "FINISHED"@
            &&& m.status@ != "AWARDED"@
            &&& m.status@ != "SUSPENDED"@
        },
{
}

/// A match is concluded once it is finished with both scores known, and else when
/// more than four hours have passed since kickoff.
pub proof fn matches_are_concluded_in_two_ways(m: Match, at: Timestamp)
    requires
        m.kickoff_at.nanos < 1_000_000_000,
        at.nanos < 1_000_000_000,
    ensures
        m.decided() <==> m.status@ == "FINISHED"@ && m.home_score is Some && m.away_score is Some,
        m.concluded_by(at) <==> m.decided() || (at.secs - m.kickoff_at.secs) * 1_000_000_000
            + at.nanos - m.kickoff_at.nanos > 4 * 3_600 * 1_000_000_000,
{
    time_passes(m.kickoff_at, at);
}

/// Each stage has its name in both languages, and any other stage is called as the
/// feed calls it.
pub proof fn stages_have_names(stage: Seq<char>, loc: Locale)
    ensures
        stage_text("GROUP_STAGE"@, loc) == loc.pick("Phase de groupes"@, "Group stage"@),
        stage_text("LAST_32"@, loc) == loc.pick("16èmes de finale"@, "Round of 32"@),
        stage_text("LAST_16"@, loc) == loc.pick("8èmes de finale"@, "Round of 16"@),
        stage_text("QUARTER_FINALS"@, loc) == loc.pick("Quarts de finale"@, "Quarter-finals"@),
        stage_text("SEMI_FINALS"@, loc) == loc.pick("Demi-finales"@, "Semi-finals"@),
        stage_text("THIRD_PLACE"@, loc) == loc.pick("Match pour la 3e place"@, "Third-place match"@),
        stage_text("FINAL"@, loc) == loc.pick("Finale"@, "Final"@),
        stage != "GROUP_STAGE"@
            && stage != "LAST_32"@
            && stage != "LAST_16"@
            && stage != "QUARTER_FINALS"@
            && stage != "SEMI_FINALS"@
            && stage != "THIRD_PLACE"@
            && stage != "FINAL"@ ==> stage_text(stage, loc)
            == stage,
{
    reveal_strlit("GROUP_STAGE");
    reveal_strlit("LAST_32");
    reveal_strlit("LAST_16");
    reveal_strlit("QUARTER_FINALS");
    reveal_strlit("SEMI_FINALS");
    reveal_strlit("THIRD_PLACE");
    reveal_strlit("FINAL");
    assert("FINAL"@.len() == 5 && "QUARTER_FINALS"@.len() == 14 && "LAST_16"@.len() == 7);
    assert("LAST_32"@[5] == '3' && "LAST_16"@[5] == '1');
    assert("SEMI_FINALS"@[0] == 'S' && "GROUP_STAGE"@[0] == 'G' && "THIRD_PLACE"@[0] == 'T');
}

/// Whether a word can stand for itself in a code: an ASCII word with a letter, no
/// white space, and no connector.
pub open spec fn is_plain_word(w: Seq<char>) -> bool {
    &&& is_plain(w)
    &&& exists|k: int| 0 <= k < w.len() && ('a' <= #[trigger] w[k] <= 'z' || 'A' <= w[k] <= 'Z')
    &&& forall|k: int| 0 <= k < w.len() ==> !white_space(#[trigger] w[k])
    &&& smalls(w) != "and"@
    &&& smalls(w) != "of"@
    &&& smalls(w) != "the"@
}

proof fn one_word_that_counts(w: Seq<char>)
    requires
        is_plain_word(w),
    ensures
        significant_words(w) == seq![w],
        w.len() > 0,
{
    one_piece(w, Cut::Blank);
    let k = choose|k: int|
        0 <= k < w.len() && ('a' <= #[trigger] w[k] <= 'z' || 'A' <= w[k] <= 'Z');
    assert(letter_or_number(w[k]));
    assert(significant(w));
    let all = seq![w];
    filter_grows(all, 0);
    assert(all.take(1) =~= all);
    assert(all.take(0) =~= Seq::<Seq<char>>::empty());
    reveal(Seq::filter);
    assert(only_significant(all) =~= seq![w]);
}

/// The code of a name of one word is its first three letters; of two words their
/// two initials; of three or more the initials of the first three. All in capitals.
pub proof fn codes_are_made_of_words(
    a: Seq<char>,
    b: Seq<char>,
    c: Seq<char>,
    more: Seq<char>,
)
    requires
        is_plain_word(a),
        is_plain_word(b),
        is_plain_word(c),
    ensures
        a.len() <= 3 ==> abbreviation(a) == capitals(a),
        a.len() > 3 ==> abbreviation(a) == capitals(seq![a[0], a[1], a[2]]),
        abbreviation(a + seq![' '] + b) == capitals(seq![a[0], b[0]]),
        abbreviation(a + seq![' '] + b + seq![' '] + c) == capitals(seq![a[0], b[0], c[0]]),
        abbreviation(a + seq![' '] + b + seq![' '] + c + seq![' '] + more) == abbreviation(
            a + seq![' '] + b + seq![' '] + c,
        ),
{
    one_word_that_counts(a);
    one_word_that_counts(b);
    one_word_that_counts(c);
    assert(a[0] <= '\u{7f}' && b[0] <= '\u{7f}' && c[0] <= '\u{7f}');
    if a.len() > 3 {
        assert(a[1] <= '\u{7f}' && a[2] <= '\u{7f}');
        assert(a.take(3) =~= seq![a[0], a[1], a[2]]);
    }
    let ab = a + seq![' '] + b;
    let abc = ab + seq![' '] + c;
    let all = abc + seq![' '] + more;
    white_space_parts_words(a, ' ', b);
    white_space_parts_words(ab, ' ', c);
    white_space_parts_words(abc, ' ', more);
    let two = seq![a[0], b[0]];
    let three = seq![a[0], b[0], c[0]];
    assert(Seq::new(significant_words(ab).len(), |i: int| significant_words(ab)[i][0]) =~= two);
    assert(Seq::new(significant_words(abc).len(), |i: int| significant_words(abc)[i][0])
        =~= three);
    let rest = significant_words(more);
    let initials = Seq::new(significant_words(all).len(), |i: int| significant_words(all)[i][0]);
    assert(initials.take(3) =~= three);
    assert(first_n(initials, 3) =~= three) by {
        if initials.len() <= 3 {
            assert(initials =~= three);
        }
    }
}

/// A code of the feed that is not blank is used without the white space around
/// it, in capitals, whatever the name.
pub proof fn feed_codes_are_used(tla: Seq<char>, name: Seq<char>, other: Seq<char>)
    requires
        is_plain(tla),
        tla.len() > 0,
        forall|k: int| 0 <= k < tla.len() ==> !white_space(#[trigger] tla[k]),
    ensures
        team_code_text(Some(tla), name) == capitals(tla),
        team_code_text(Some(seq![' '] + tla + seq![' ']), other) == capitals(tla),
        team_code_text(None, name) == abbreviation(name),
        team_code_text(Some(seq![' ']), name) == abbreviation(name),
{
    nothing_to_trim(tla);
    let padded = seq![' '] + tla + seq![' '];
    let tail = tla + seq![' '];
    assert(padded.drop_first() =~= tail);
    assert(!white_space(tla[0]) && tail[0] == tla[0]);
    assert(trimmed_start(padded) == trimmed_start(tail));
    assert(trimmed_start(tail) == tail);
    assert(tail.drop_last() =~= tla);
    assert(!white_space(tla[tla.len() - 1]));
    assert(trimmed_end(tail) == trimmed_end(tla));
    assert(trimmed_end(tla) == tla);
    let blank = seq![' '];
    assert(blank.drop_first() =~= Seq::<char>::empty());
    assert(trimmed_start(blank) == trimmed_start(Seq::<char>::empty()));
    assert(trimmed(blank).len() == 0);
}

/// What a match answers when asked: whether bets on it are open, whether its result is
/// in, whether it is over, and what the penalties were, the home side first.
pub proof fn matches_answer(
    m: &Match,
    at: Timestamp,
    open: bool,
    settled: bool,
    long_over: bool,
    concluded: bool,
    penalties: Option<String>,
)
    requires
        call_ensures(Match::is_open_for_bets_at, (m, at), open),
        call_ensures(Match::has_final_result, (m,), settled),
        call_ensures(Match::is_long_over_at, (m, at), long_over),
        call_ensures(Match::is_concluded_at, (m, at), concluded),
        call_ensures(Match::penalty_score, (m,), penalties),
    ensures
        open <==> (at.secs < m.kickoff_at.secs || (at.secs == m.kickoff_at.secs && at.nanos
            < m.kickoff_at.nanos)) && m.status@ != "IN_PLAY"@ && m.status@ != "PAUSED"@ && m.status@
            != "EXTRA_TIME"@ && m.status@ != "PENALTY_SHOOTOUT"@ && m.status@ != "FINISHED"@
            && m.status@ != "AWARDED"@ && m.status@ != "SUSPENDED"@,
        settled <==> m.status@ == "FINISHED"@ && m.home_score is Some && m.away_score is Some,
        at.nanos < 1_000_000_000 && m.kickoff_at.nanos < 1_000_000_000 ==> (long_over <==> (at.secs
            - m.kickoff_at.secs) * 1_000_000_000 + at.nanos - m.kickoff_at.nanos > 4 * 3_600
            * 1_000_000_000),
        concluded <==> settled || long_over,
        m.pens_home is Some && m.pens_away is Some ==> penalties is Some && penalties->0@
            == decimal(m.pens_home->0 as int) + "-"@ + decimal(m.pens_away->0 as int),
        m.pens_home is None || m.pens_away is None ==> penalties is None,
{
    bets_are_open_until_the_match_begins(*m, at);
    if at.nanos < 1_000_000_000 && m.kickoff_at.nanos < 1_000_000_000 {
        time_passes(m.kickoff_at, at);
    }
}

/// Each side has its own code, from the feed or from its own name, and a match that has
/// a stage has its label.
pub proof fn sides_have_their_own_codes(
    m: &Match,
    home: String,
    away: String,
    loc: Locale,
    stage: Option<&str>,
)
    requires
        call_ensures(Match::home_code, (m,), home),
        call_ensures(Match::away_code, (m,), away),
        call_ensures(Match::stage_label, (m, loc), stage),
    ensures
        m.home_team_code is None ==> home@ == abbreviation(m.home_team@),
        m.away_team_code is None ==> away@ == abbreviation(m.away_team@),
        m.home_team_code is Some && trimmed(m.home_team_code->0@).len() > 0 ==> home@ == uppered(
            trimmed(m.home_team_code->0@),
        ),
        m.away_team_code is Some && trimmed(m.away_team_code->0@).len() > 0 ==> away@ == uppered(
            trimmed(m.away_team_code->0@),
        ),
        m.home_team_code is Some && trimmed(m.home_team_code->0@).len() == 0 ==> home@
            == abbreviation(m.home_team@),
        m.away_team_code is Some && trimmed(m.away_team_code->0@).len() == 0 ==> away@
            == abbreviation(m.away_team@),
        m.stage is None <==> stage is None,
        m.stage is Some && stage is Some ==> stage->0@ == stage_text(m.stage->0@, loc),
{
}

/// Matches are put in order of kickoff, each once; those that kick off together stay in
/// theirs.
pub proof fn matches_are_in_order_of_kickoff(matches: &Vec<Match>, r: Vec<usize>, a: int, b: int)
    requires
        call_ensures(order_by_kickoff, (matches,), r),
        0 <= a < b < r@.len(),
    ensures
        r@.len() == matches@.len(),
        r@[a] < matches@.len() && r@[b] < matches@.len(),
        r@[a] != r@[b],
        ({
            let (first, second) = (
                matches@[r@[a] as int].kickoff_at,
                matches@[r@[b] as int].kickoff_at,
            );
            first.secs < second.secs || (first.secs == second.secs && first.nanos < second.nanos)
                || (first == second && r@[a] < r@[b])
        }),
{
    times_are_in_order(kickoffs(matches@), a, b);
    assert(positions(r@)[a] == r@[a] && positions(r@)[b] == r@[b]);
}

/// By kickoff the earlier match comes first, and of two that kick off together the one
/// that is listed first.
pub proof fn earlier_matches_come_first(matches: Seq<Match>, a: int, b: int)
    requires
        0 <= a < b < matches.len(),
    ensures
        ({
            let (i, j) = (by_kickoff(matches)[a], by_kickoff(matches)[b]);
            let (first, second) = (matches[i].kickoff_at, matches[j].kickoff_at);
            &&& 0 <= i < matches.len()
            &&& 0 <= j < matches.len()
            &&& first.secs < second.secs || (first.secs == second.secs && first.nanos
                < second.nanos) || (first == second && i < j)
        }),
{
    times_are_in_order(kickoffs(matches), a, b);
}

} // verus!
