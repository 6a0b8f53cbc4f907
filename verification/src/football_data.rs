//! What the football-data.org feed says of a match, and how it is taken over.
use vstd::prelude::*;

use crate::clock::Timestamp;
use crate::models::{copy_opt, opt_text, Match};
use crate::text::{any_text, distinct, distinct_keeps_each_once, str_eq, texts};

verus! {

/// The goals of both sides in one part of a match.
#[derive(Clone, Copy, PartialEq, Eq, Debug, Structural)]
pub struct ApiScorePart {
    pub home: Option<i32>,
    pub away: Option<i32>,
}

/// The score of a match as the feed breaks it down.
#[derive(Debug)]
pub struct ApiScore {
    pub duration: Option<String>,
    pub full_time: ApiScorePart,
    pub regular_time: Option<ApiScorePart>,
    pub extra_time: Option<ApiScorePart>,
    /// Shootout score, present only when the match was decided on penalties.
    pub penalties: Option<ApiScorePart>,
}

/// The competition of a match.
#[derive(Debug)]
pub struct ApiCompetition {
    pub code: Option<String>,
    pub name: Option<String>,
}

/// One of the two teams of a match.
#[derive(Debug)]
pub struct ApiTeam {
    pub name: Option<String>,
    pub tla: Option<String>,
}

/// A match as the feed reports it.
#[derive(Debug)]
pub struct ApiMatch {
    pub id: i64,
    pub utc_date: Timestamp,
    pub status: String,
    pub stage: Option<String>,
    pub group: Option<String>,
    pub competition: ApiCompetition,
    pub home_team: ApiTeam,
    pub away_team: ApiTeam,
    pub score: Option<ApiScore>,
}

/// The value of an optional number, zero when it is missing.
pub open spec fn or_zero(n: Option<i32>) -> int {
    match n {
        Some(v) => v as int,
        None => 0,
    }
}

/// The sum of two optional score parts: a missing part counts as zero, and the
/// sum is missing only when both parts are.
pub open spec fn parts_sum(a: Option<i32>, b: Option<i32>) -> Option<int> {
    if a is None && b is None {
        None
    } else {
        Some(or_zero(a) + or_zero(b))
    }
}

/// Whether the sum of two optional score parts can be stored.
pub open spec fn sum_fits(a: Option<i32>, b: Option<i32>) -> bool {
    i32::MIN <= or_zero(a) + or_zero(b) <= i32::MAX
}

/// An optional number as an integer.
pub open spec fn widened(n: Option<i32>) -> Option<int> {
    match n {
        Some(v) => Some(v as int),
        None => None,
    }
}

/// Adds two optional score parts.
pub fn sum_parts(a: Option<i32>, b: Option<i32>) -> (r: Option<i32>)
    requires
        sum_fits(a, b),
    ensures
        widened(r) == parts_sum(a, b),
{
    match (a, b) {
        (None, None) => None,
        (Some(x), None) => Some(x),
        (None, Some(y)) => Some(y),
        (Some(x), Some(y)) => Some(x + y),
    }
}

/// The home goals of an optional part.
pub open spec fn home_of(part: Option<ApiScorePart>) -> Option<i32> {
    match part {
        Some(p) => p.home,
        None => None,
    }
}

/// The away goals of an optional part.
pub open spec fn away_of(part: Option<ApiScorePart>) -> Option<i32> {
    match part {
        Some(p) => p.away,
        None => None,
    }
}

fn home_in(part: Option<ApiScorePart>) -> (r: Option<i32>)
    ensures
        r == home_of(part),
{
    match part {
        Some(p) => p.home,
        None => None,
    }
}

fn away_in(part: Option<ApiScorePart>) -> (r: Option<i32>)
    ensures
        r == away_of(part),
{
    match part {
        Some(p) => p.away,
        None => None,
    }
}

impl ApiScore {
    /// Whether the match went to a penalty shootout.
    pub open spec fn went_to_penalties(self) -> bool {
        opt_text(self.duration) == Some("PENALTY_SHOOTOUT"@)
    }

    /// The score that bets are settled against: the result after 120 minutes,
    /// with any shootout ignored. For a shootout the feed folds the penalties
    /// into the full-time score, so it is rebuilt from its parts.
    pub open spec fn settled(self) -> (Option<int>, Option<int>) {
        if self.went_to_penalties() {
            (
                parts_sum(home_of(self.regular_time), home_of(self.extra_time)),
                parts_sum(away_of(self.regular_time), away_of(self.extra_time)),
            )
        } else {
            (widened(self.full_time.home), widened(self.full_time.away))
        }
    }

    /// Whether the settled score can be stored.
    pub open spec fn settles(self) -> bool {
        self.went_to_penalties() ==> {
            &&& sum_fits(home_of(self.regular_time), home_of(self.extra_time))
            &&& sum_fits(away_of(self.regular_time), away_of(self.extra_time))
        }
    }

    fn is_shootout(&self) -> (r: bool)
        ensures
            r == self.went_to_penalties(),
    {
        match &self.duration {
            Some(d) => str_eq(d.as_str(), "PENALTY_SHOOTOUT"),
            None => false,
        }
    }

    /// The score that bets are settled against.
    pub fn settled_score(&self) -> (r: (Option<i32>, Option<i32>))
        requires
            self.settles(),
        ensures
            (widened(r.0), widened(r.1)) == self.settled(),
            !self.went_to_penalties() ==> r == (self.full_time.home, self.full_time.away),
    {
        if self.is_shootout() {
            let home: Option<i32> = sum_parts(home_in(self.regular_time), home_in(self.extra_time));
            let away: Option<i32> = sum_parts(away_in(self.regular_time), away_in(self.extra_time));
            (home, away)
        } else {
            (self.full_time.home, self.full_time.away)
        }
    }

    /// Whether [`ApiScore::settled_score`] takes this score.
    pub fn is_settleable(&self) -> (r: bool)
        ensures
            r == self.settles(),
    {
        if !self.is_shootout() {
            return true;
        }
        let home: i64 = goals(home_in(self.regular_time)) + goals(home_in(self.extra_time));
        let away: i64 = goals(away_in(self.regular_time)) + goals(away_in(self.extra_time));
        -2147483648 <= home && home <= 2147483647 && -2147483648 <= away && away <= 2147483647
    }
}

fn goals(n: Option<i32>) -> (r: i64)
    ensures
        r == or_zero(n),
        i32::MIN <= r <= i32::MAX,
{
    match n {
        Some(v) => v as i64,
        None => 0,
    }
}

/// The first of two optional texts that is there, else a fallback.
pub open spec fn first_text(
    a: Option<Seq<char>>,
    b: Option<Seq<char>>,
    otherwise: Seq<char>,
) -> Seq<char> {
    match (a, b) {
        (Some(t), _) => t,
        (None, Some(t)) => t,
        (None, None) => otherwise,
    }
}

impl ApiMatch {
    /// Whether the score of this match can be stored.
    pub open spec fn storable(self) -> bool {
        match self.score {
            Some(s) => s.settles(),
            None => true,
        }
    }

    /// The settled score of this match, unknown when the feed gives none.
    pub open spec fn settled(self) -> (Option<int>, Option<int>) {
        match self.score {
            Some(s) => s.settled(),
            None => (None, None),
        }
    }

    /// The shootout of this match.
    pub open spec fn shootout(self) -> (Option<i32>, Option<i32>) {
        match self.score {
            Some(s) => (home_of(s.penalties), away_of(s.penalties)),
            None => (None, None),
        }
    }

    /// Whether this is the match to store for this report, within a competition.
    pub open spec fn reports(self, m: Match, competition: Seq<char>) -> bool {
        &&& m.id == self.id
        &&& m.competition@ == first_text(
            opt_text(self.competition.name),
            opt_text(self.competition.code),
            competition,
        )
        &&& m.stage == self.stage
        &&& m.group_name == self.group
        &&& m.home_team@ == first_text(opt_text(self.home_team.name), None, "?"@)
        &&& m.away_team@ == first_text(opt_text(self.away_team.name), None, "?"@)
        &&& m.home_team_code == self.home_team.tla
        &&& m.away_team_code == self.away_team.tla
        &&& m.kickoff_at == self.utc_date
        &&& m.status == self.status
        &&& (widened(m.home_score), widened(m.away_score)) == self.settled()
        &&& (m.pens_home, m.pens_away) == self.shootout()
    }

    /// Whether the score of this match can be stored.
    pub fn is_storable(&self) -> (r: bool)
        ensures
            r == self.storable(),
    {
        match &self.score {
            Some(s) => s.is_settleable(),
            None => true,
        }
    }

    /// The match to store for this report, within a competition: the settled
    /// score, the shootout, and a placeholder for a team the feed does not name.
    pub fn to_match(&self, competition: &str) -> (r: Match)
        requires
            self.storable(),
        ensures
            self.reports(r, competition@),
            self.score is Some && !self.score->0.went_to_penalties() ==> r.home_score
                == self.score->0.full_time.home && r.away_score == self.score->0.full_time.away,
    {
        let name: String = match &self.competition.name {
            Some(n) => n.clone(),
            None => match &self.competition.code {
                Some(c) => c.clone(),
                None => competition.to_owned(),
            },
        };
        let (home_score, away_score): (Option<i32>, Option<i32>) = match &self.score {
            Some(s) => s.settled_score(),
            None => (None, None),
        };
        let (pens_home, pens_away): (Option<i32>, Option<i32>) = match &self.score {
            Some(s) => (home_in(s.penalties), away_in(s.penalties)),
            None => (None, None),
        };
        let home_team: String = match &self.home_team.name {
            Some(n) => n.clone(),
            None => "?".to_owned(),
        };
        let away_team: String = match &self.away_team.name {
            Some(n) => n.clone(),
            None => "?".to_owned(),
        };
        Match {
            id: self.id,
            competition: name,
            stage: copy_opt(&self.stage),
            group_name: copy_opt(&self.group),
            home_team,
            away_team,
            home_team_code: copy_opt(&self.home_team.tla),
            away_team_code: copy_opt(&self.away_team.tla),
            kickoff_at: self.utc_date,
            status: self.status.clone(),
            home_score,
            away_score,
            pens_home,
            pens_away,
        }
    }
}

/// A stored match after a sync. A locked match keeps its outcome, which was set
/// by hand because the feed is wrong about it; everything else follows the feed.
pub open spec fn merged(stored: Match, locked: bool, fresh: Match) -> Match {
    if locked {
        Match {
            status: stored.status,
            home_score: stored.home_score,
            away_score: stored.away_score,
            pens_home: stored.pens_home,
            pens_away: stored.pens_away,
            ..fresh
        }
    } else {
        fresh
    }
}

/// Takes a fresh report of a match over into the stored one.
pub fn merge(stored: Match, locked: bool, fresh: Match) -> (r: Match)
    ensures
        r == merged(stored, locked, fresh),
{
    if locked {
        Match {
            status: stored.status,
            home_score: stored.home_score,
            away_score: stored.away_score,
            pens_home: stored.pens_home,
            pens_away: stored.pens_away,
            ..fresh
        }
    } else {
        fresh
    }
}

/// A match as it is stored.
#[derive(Debug)]
pub struct StoredMatch {
    pub m: Match,
    /// Whether the outcome was set by hand.
    pub score_locked: bool,
}

/// The position of the stored match with an id, or the number of stored matches.
pub open spec fn stored_position(stored: Seq<StoredMatch>, id: i64) -> int
    decreases stored.len(),
{
    if stored.len() == 0 {
        0
    } else if stored[0].m.id == id {
        0
    } else {
        1 + stored_position(stored.drop_first(), id)
    }
}

proof fn stored_bounds(stored: Seq<StoredMatch>, id: i64)
    ensures
        ({
            let i = stored_position(stored, id);
            &&& 0 <= i <= stored.len()
            &&& i < stored.len() ==> stored[i].m.id == id
            &&& forall|k: int| 0 <= k < i ==> (#[trigger] stored[k]).m.id != id
        }),
    decreases stored.len(),
{
    if stored.len() > 0 && stored[0].m.id != id {
        let rest = stored.drop_first();
        stored_bounds(rest, id);
        let i = stored_position(stored, id);
        assert(i < stored.len() ==> stored[i] == rest[i - 1]);
        assert forall|k: int| 0 <= k < i implies (#[trigger] stored[k]).m.id != id by {
            if k > 0 {
                assert(stored[k] == rest[k - 1]);
            }
        }
    }
}

fn find_stored(stored: &Vec<StoredMatch>, id: i64) -> (r: usize)
    ensures
        r == stored_position(stored@, id),
        r <= stored@.len(),
{
    let mut i: usize = 0;
    assert(stored@.skip(0) =~= stored@);
    while i < stored.len()
        invariant
            i <= stored.len(),
            stored_position(stored@, id) == i + stored_position(stored@.skip(i as int), id),
        decreases stored.len() - i,
    {
        if stored[i].m.id == id {
            return i;
        }
        assert(stored@.skip(i as int).drop_first() =~= stored@.skip(i + 1));
        i = i + 1;
    }
    i
}

/// The stored matches once one was taken over from the feed: it is merged into
/// the one with its id, or added without a lock.
pub open spec fn upserted(stored: Seq<StoredMatch>, fresh: Match) -> Seq<StoredMatch> {
    let i = stored_position(stored, fresh.id);
    if 0 <= i < stored.len() {
        stored.update(
            i,
            StoredMatch { m: merged(stored[i].m, stored[i].score_locked, fresh), ..stored[i] },
        )
    } else {
        stored.push(StoredMatch { m: fresh, score_locked: false })
    }
}

/// The stored matches once some were taken over from the feed, in order.
pub open spec fn synced(stored: Seq<StoredMatch>, fresh: Seq<Match>) -> Seq<StoredMatch>
    decreases fresh.len(),
{
    if fresh.len() == 0 {
        stored
    } else {
        upserted(synced(stored, fresh.drop_last()), fresh.last())
    }
}

/// Takes a match over from the feed.
pub fn upsert(stored: &mut Vec<StoredMatch>, fresh: Match)
    ensures
        final(stored)@ == upserted(old(stored)@, fresh),
{
    let i: usize = find_stored(stored, fresh.id);
    if i < stored.len() {
        let locked: bool = stored[i].score_locked;
        let m: Match = merge(stored[i].m.copied(), locked, fresh);
        stored.set(i, StoredMatch { m, score_locked: locked });
    } else {
        stored.push(StoredMatch { m: fresh, score_locked: false });
    }
}

/// Whether some matches are those to store for some reports, one each.
pub open spec fn report_all(
    fresh: Seq<Match>,
    reports: Seq<ApiMatch>,
    competition: Seq<char>,
) -> bool {
    &&& fresh.len() == reports.len()
    &&& forall|i: int|
        0 <= i < fresh.len() ==> reports[i].reports(#[trigger] fresh[i], competition)
}

/// Takes all reports on a competition over, and says how many there were.
pub fn sync_one_competition(
    stored: &mut Vec<StoredMatch>,
    reports: &Vec<ApiMatch>,
    competition: &str,
) -> (r: usize)
    requires
        forall|i: int| 0 <= i < reports@.len() ==> (#[trigger] reports@[i]).storable(),
    ensures
        r == reports@.len(),
        exists|fresh: Seq<Match>|
            report_all(fresh, reports@, competition@) && final(stored)@ == #[trigger] synced(
                old(stored)@,
                fresh,
            ),
{
    let ghost start = stored@;
    let ghost mut fresh: Seq<Match> = Seq::empty();
    let mut i: usize = 0;
    while i < reports.len()
        invariant
            i <= reports.len(),
            forall|k: int| 0 <= k < reports@.len() ==> (#[trigger] reports@[k]).storable(),
            fresh.len() == i,
            forall|k: int|
                0 <= k < fresh.len() ==> reports@[k].reports(#[trigger] fresh[k], competition@),
            stored@ == synced(start, fresh),
        decreases reports.len() - i,
    {
        let m: Match = reports[i].to_match(competition);
        proof {
            assert(fresh.push(m).drop_last() =~= fresh);
            fresh = fresh.push(m);
        }
        upsert(stored, m);
        i = i + 1;
    }
    assert(report_all(fresh, reports@, competition@));
    i
}

/// The competitions to sync: each one that some space follows, once.
pub fn competitions(followed: &Vec<String>) -> (r: Vec<String>)
    ensures
        texts(r@) == distinct(texts(followed@)),
{
    let mut out: Vec<String> = Vec::new();
    let mut i: usize = 0;
    assert(texts(out@) =~= distinct(texts(followed@).take(0)));
    while i < followed.len()
        invariant
            i <= followed.len(),
            texts(out@) == distinct(texts(followed@).take(i as int)),
        decreases followed.len() - i,
    {
        assert(texts(followed@).take(i + 1).drop_last() =~= texts(followed@).take(i as int));
        assert(texts(followed@).take(i + 1).last() == followed@[i as int]@);
        if !any_text(&out, followed[i].as_str()) {
            let ghost before = out@;
            out.push(followed[i].clone());
            assert(texts(out@) =~= texts(before).push(followed@[i as int]@));
        }
        i = i + 1;
    }
    assert(texts(followed@).take(followed@.len() as int) =~= texts(followed@));
    out
}

/// The feed's address for the matches of a competition.
pub fn feed_url(competition: &str) -> (r: String)
    ensures
        r@ == "https://api.football-data.org/v4/competitions/"@ + competition@ + "/matches"@,
{
    let mut url: String = "https://api.football-data.org/v4/competitions/".to_owned();
    url.append(competition);
    url.append("/matches");
    url
}

/// What the shootout alone says never changes the settled score.
pub proof fn penalties_do_not_change_the_settled_score(s: ApiScore, penalties: Option<ApiScorePart>)
    ensures
        (ApiScore { penalties, ..s }).settled() == s.settled(),
{
}

/// After a shootout the folded full-time score never changes the settled score.
pub proof fn shootouts_ignore_the_full_time_score(s: ApiScore, full_time: ApiScorePart)
    requires
        s.went_to_penalties(),
    ensures
        (ApiScore { full_time, ..s }).settled() == s.settled(),
{
}

/// A locked match keeps its outcome whatever the feed reports, and an unlocked
/// one is exactly what the feed reports.
pub proof fn locks_protect_the_outcome(stored: Match, fresh: Match)
    ensures
        merged(stored, true, fresh).status == stored.status,
        merged(stored, true, fresh).home_score == stored.home_score,
        merged(stored, true, fresh).away_score == stored.away_score,
        merged(stored, true, fresh).pens_home == stored.pens_home,
        merged(stored, true, fresh).pens_away == stored.pens_away,
        merged(stored, false, fresh) == fresh,
{
}

/// Syncing the same report twice gives what syncing it once gave.
pub proof fn merging_is_idempotent(stored: Match, locked: bool, fresh: Match)
    ensures
        merged(merged(stored, locked, fresh), locked, fresh) == merged(stored, locked, fresh),
{
}

/// A sync keeps every stored match in its place with its id and its lock, and a
/// locked one with its outcome.
pub proof fn syncing_keeps_locked_outcomes(stored: Seq<StoredMatch>, fresh: Seq<Match>, i: int)
    requires
        0 <= i < stored.len(),
    ensures
        ({
            let after = synced(stored, fresh);
            &&& after.len() >= stored.len()
            &&& after[i].m.id == stored[i].m.id
            &&& after[i].score_locked == stored[i].score_locked
            &&& stored[i].score_locked ==> {
                &&& after[i].m.status == stored[i].m.status
                &&& after[i].m.home_score == stored[i].m.home_score
                &&& after[i].m.away_score == stored[i].m.away_score
                &&& after[i].m.pens_home == stored[i].m.pens_home
                &&& after[i].m.pens_away == stored[i].m.pens_away
            }
        }),
    decreases fresh.len(),
{
    if fresh.len() > 0 {
        syncing_keeps_locked_outcomes(stored, fresh.drop_last(), i);
        stored_bounds(synced(stored, fresh.drop_last()), fresh.last().id);
    }
}

/// A sync leaves a match alone that the feed does not report.
pub proof fn syncing_leaves_others_alone(stored: Seq<StoredMatch>, fresh: Seq<Match>, i: int)
    requires
        0 <= i < stored.len(),
        forall|k: int| 0 <= k < fresh.len() ==> (#[trigger] fresh[k]).id != stored[i].m.id,
    ensures
        synced(stored, fresh).len() >= stored.len(),
        synced(stored, fresh)[i] == stored[i],
    decreases fresh.len(),
{
    if fresh.len() > 0 {
        let front = fresh.drop_last();
        assert forall|k: int| 0 <= k < front.len() implies (#[trigger] front[k]).id
            != stored[i].m.id by {
            assert(front[k] == fresh[k]);
        }
        syncing_leaves_others_alone(stored, front, i);
        assert(fresh[fresh.len() - 1].id != stored[i].m.id);
        stored_bounds(synced(stored, front), fresh.last().id);
    }
}

/// Whether every id is stored once.
pub open spec fn ids_are_unique(stored: Seq<StoredMatch>) -> bool {
    forall|i: int, j: int|
        0 <= i < j < stored.len() ==> (#[trigger] stored[i]).m.id != (#[trigger] stored[j]).m.id
}

/// A sync stores no id twice.
pub proof fn syncing_keeps_ids_unique(stored: Seq<StoredMatch>, fresh: Seq<Match>)
    requires
        ids_are_unique(stored),
    ensures
        ids_are_unique(synced(stored, fresh)),
    decreases fresh.len(),
{
    if fresh.len() > 0 {
        let before = synced(stored, fresh.drop_last());
        syncing_keeps_ids_unique(stored, fresh.drop_last());
        stored_bounds(before, fresh.last().id);
        let after = synced(stored, fresh);
        let p = stored_position(before, fresh.last().id);
        assert forall|i: int, j: int| 0 <= i < j < after.len() implies (
        #[trigger] after[i]).m.id != (#[trigger] after[j]).m.id by {
            assert(after[i].m.id == before[i].m.id);
            if j < before.len() {
                assert(after[j].m.id == before[j].m.id);
            } else {
                assert(before[i].m.id != fresh.last().id);
            }
        }
    }
}

/// Whatever its status, a report with a score that was not decided on penalties is
/// stored with just the full-time score; one without a score is stored without.
pub proof fn full_time_scores_are_stored(r: ApiMatch, m: Match, competition: Seq<char>)
    requires
        r.reports(m, competition),
    ensures
        r.score is Some && !(r.score->0.duration is Some && r.score->0.duration->0@
            == "PENALTY_SHOOTOUT"@) ==> m.home_score == r.score->0.full_time.home && m.away_score
            == r.score->0.full_time.away,
        r.score is None ==> m.home_score is None && m.away_score is None,
{
}

/// A report decided on penalties is stored with the goals of the regular and the
/// extra time added up on each side, where one that is missing counts as none;
/// where both are missing the score is not known.
pub proof fn shootouts_are_stored_without_the_penalties(
    r: ApiMatch,
    m: Match,
    competition: Seq<char>,
    reg: ApiScorePart,
    ext: ApiScorePart,
)
    requires
        r.reports(m, competition),
        r.score is Some,
        r.score->0.duration is Some,
        r.score->0.duration->0@ == "PENALTY_SHOOTOUT"@,
        r.score->0.regular_time == Some(reg),
    ensures
        r.score->0.extra_time == Some(ext) ==> {
            &&& reg.home is Some && ext.home is Some ==> m.home_score is Some && m.home_score->0
                == reg.home->0 + ext.home->0
            &&& reg.away is Some && ext.away is Some ==> m.away_score is Some && m.away_score->0
                == reg.away->0 + ext.away->0
            &&& reg.home is None ==> m.home_score == ext.home
            &&& reg.away is None ==> m.away_score == ext.away
            &&& ext.home is None ==> m.home_score == reg.home
            &&& ext.away is None ==> m.away_score == reg.away
        },
        r.score->0.extra_time is None ==> m.home_score == reg.home && m.away_score == reg.away,
{
}

/// Everything else of a report is stored as it is; a team without a name is stored
/// as a question mark, and a competition by its name, else its code, else the code
/// it was asked for.
pub proof fn reports_are_stored_as_given(r: ApiMatch, m: Match, competition: Seq<char>)
    requires
        r.reports(m, competition),
    ensures
        m.id == r.id,
        m.status@ == r.status@,
        m.kickoff_at == r.utc_date,
        m.stage == r.stage,
        m.group_name == r.group,
        m.home_team_code == r.home_team.tla,
        m.away_team_code == r.away_team.tla,
        r.home_team.name is Some ==> m.home_team@ == r.home_team.name->0@,
        r.home_team.name is None ==> m.home_team@ == "?"@,
        r.away_team.name is Some ==> m.away_team@ == r.away_team.name->0@,
        r.away_team.name is None ==> m.away_team@ == "?"@,
        r.competition.name is Some ==> m.competition@ == r.competition.name->0@,
        r.competition.name is None && r.competition.code is Some ==> m.competition@
            == r.competition.code->0@,
        r.competition.name is None && r.competition.code is None ==> m.competition@ == competition,
        r.score is Some && r.score->0.penalties is Some ==> m.pens_home
            == r.score->0.penalties->0.home && m.pens_away == r.score->0.penalties->0.away,
        r.score is None || r.score->0.penalties is None ==> m.pens_home is None && m.pens_away
            is None,
{
}

/// A report of a stored match is taken over there and nowhere else: whole, or all
/// but the outcome where that is locked.
pub proof fn reports_update_their_match(stored: Seq<StoredMatch>, fresh: Match, i: int, k: int)
    requires
        0 <= i < stored.len(),
        stored[i].m.id == fresh.id,
        forall|j: int| 0 <= j < i ==> (#[trigger] stored[j]).m.id != fresh.id,
        0 <= k < stored.len(),
        k != i,
    ensures
        ({
            let after = upserted(stored, fresh);
            let m = after[i].m;
            &&& after.len() == stored.len()
            &&& after[k] == stored[k]
            &&& after[i].score_locked == stored[i].score_locked
            &&& !stored[i].score_locked ==> m == fresh
            &&& stored[i].score_locked ==> {
                &&& m.status == stored[i].m.status
                &&& m.home_score == stored[i].m.home_score
                &&& m.away_score == stored[i].m.away_score
                &&& m.pens_home == stored[i].m.pens_home
                &&& m.pens_away == stored[i].m.pens_away
                &&& m.id == fresh.id
                &&& m.competition == fresh.competition
                &&& m.stage == fresh.stage
                &&& m.group_name == fresh.group_name
                &&& m.home_team == fresh.home_team
                &&& m.away_team == fresh.away_team
                &&& m.home_team_code == fresh.home_team_code
                &&& m.away_team_code == fresh.away_team_code
                &&& m.kickoff_at == fresh.kickoff_at
            }
        }),
{
    stored_bounds(stored, fresh.id);
    let p = stored_position(stored, fresh.id);
    assert(p == i) by {
        if p < i {
            assert(stored[p].m.id != fresh.id);
        }
        if i < p {
            assert(stored[i].m.id != fresh.id);
        }
    }
}

/// A report of a match that is not stored is added as it is, without a lock.
pub proof fn new_reports_are_added(stored: Seq<StoredMatch>, fresh: Match)
    requires
        forall|j: int| 0 <= j < stored.len() ==> (#[trigger] stored[j]).m.id != fresh.id,
    ensures
        upserted(stored, fresh) == stored.push(StoredMatch { m: fresh, score_locked: false }),
{
    stored_bounds(stored, fresh.id);
    let p = stored_position(stored, fresh.id);
    if p < stored.len() {
        assert(stored[p].m.id != fresh.id);
    }
}

/// Reports are taken over one after the other, all of them.
pub proof fn reports_are_taken_over_in_turn(
    stored: Seq<StoredMatch>,
    fresh: Seq<Match>,
    next: Match,
)
    ensures
        synced(stored, Seq::empty()) == stored,
        synced(stored, fresh.push(next)) == upserted(synced(stored, fresh), next),
{
    assert(fresh.push(next).drop_last() =~= fresh);
}

/// A report is read with the score of its full time, whatever the status of its match,
/// unless it was decided by penalties.
pub proof fn reading_a_report_keeps_the_score(report: &ApiMatch, competition: &str, r: Match)
    requires
        call_ensures(ApiMatch::to_match, (report, competition), r),
    ensures
        r.id == report.id,
        r.status@ == report.status@,
        r.kickoff_at == report.utc_date,
        report.score is Some && !(report.score->0.duration is Some && report.score->0.duration->0@
            == "PENALTY_SHOOTOUT"@) ==> r.home_score == report.score->0.full_time.home
            && r.away_score == report.score->0.full_time.away,
        report.score is None ==> r.home_score is None && r.away_score is None,
        report.score is Some && report.score->0.penalties is Some ==> r.pens_home
            == report.score->0.penalties->0.home && r.pens_away
            == report.score->0.penalties->0.away,
        report.home_team.name is Some ==> r.home_team@ == report.home_team.name->0@,
        report.away_team.name is Some ==> r.away_team@ == report.away_team.name->0@,
        r.home_team_code == report.home_team.tla,
        r.away_team_code == report.away_team.tla,
        r.stage == report.stage,
        r.group_name == report.group,
{
    full_time_scores_are_stored(*report, r, competition@);
    reports_are_stored_as_given(*report, r, competition@);
}

proof fn the_last_report_stands(stored: Seq<StoredMatch>, fresh: Seq<Match>, k: int) -> (e: int)
    requires
        0 <= k < fresh.len(),
        forall|j: int| k < j < fresh.len() ==> (#[trigger] fresh[j]).id != fresh[k].id,
    ensures
        0 <= e < synced(stored, fresh).len(),
        synced(stored, fresh)[e].m.id == fresh[k].id,
        !synced(stored, fresh)[e].score_locked ==> synced(stored, fresh)[e].m == fresh[k],
        synced(stored, fresh)[e].m.kickoff_at == fresh[k].kickoff_at,
    decreases fresh.len(),
{
    let front = fresh.drop_last();
    let before = synced(stored, front);
    stored_bounds(before, fresh.last().id);
    let p = stored_position(before, fresh.last().id);
    if k == fresh.len() - 1 {
        p
    } else {
        assert(fresh[fresh.len() - 1].id != fresh[k].id);
        assert forall|j: int| k < j < front.len() implies (#[trigger] front[j]).id
            != front[k].id by {
            assert(front[j] == fresh[j]);
        }
        the_last_report_stands(stored, front, k)
    }
}

/// After a run every reported match is stored, as last reported; one whose result is
/// locked keeps its status and score.
pub proof fn syncing_stores_the_reports(
    stored: &mut Vec<StoredMatch>,
    reports: &Vec<ApiMatch>,
    competition: &str,
    r: usize,
    k: int,
)
    requires
        call_ensures(sync_one_competition, (stored, reports, competition), r),
        0 <= k < reports@.len(),
        forall|j: int| k < j < reports@.len() ==> (#[trigger] reports@[j]).id != reports@[k].id,
    ensures
        r == reports@.len(),
        exists|e: int|
            {
                let kept = final(stored)@[e];
                let report = reports@[k];
                &&& 0 <= e < final(stored)@.len()
                &&& (#[trigger] final(stored)@[e]).m.id == report.id
                &&& kept.m.kickoff_at == report.utc_date
                &&& !kept.score_locked ==> {
                    &&& kept.m.status@ == report.status@
                    &&& report.score is Some && !(report.score->0.duration is Some
                        && report.score->0.duration->0@ == "PENALTY_SHOOTOUT"@)
                        ==> kept.m.home_score == report.score->0.full_time.home
                        && kept.m.away_score == report.score->0.full_time.away
                    &&& report.score is None ==> kept.m.home_score is None && kept.m.away_score
                        is None
                }
            },
{
    let fresh = choose|fresh: Seq<Match>|
        report_all(fresh, reports@, competition@) && final(stored)@ == #[trigger] synced(
            old(stored)@,
            fresh,
        );
    assert forall|j: int| k < j < fresh.len() implies (#[trigger] fresh[j]).id != fresh[k].id by {
        assert(reports@[j].reports(fresh[j], competition@));
        assert(reports@[k].reports(fresh[k], competition@));
        assert(reports@[j].id != reports@[k].id);
    }
    let e = the_last_report_stands(old(stored)@, fresh, k);
    assert(reports@[k].reports(fresh[k], competition@));
    full_time_scores_are_stored(reports@[k], fresh[k], competition@);
    reports_are_stored_as_given(reports@[k], fresh[k], competition@);
    assert(final(stored)@[e].m.id == reports@[k].id);
}

/// A run leaves a locked result alone, and a match that is not reported.
pub proof fn syncing_touches_what_is_reported(
    stored: &mut Vec<StoredMatch>,
    reports: &Vec<ApiMatch>,
    competition: &str,
    r: usize,
    i: int,
)
    requires
        call_ensures(sync_one_competition, (stored, reports, competition), r),
        0 <= i < old(stored)@.len(),
    ensures
        final(stored)@.len() >= old(stored)@.len(),
        final(stored)@[i].score_locked == old(stored)@[i].score_locked,
        old(stored)@[i].score_locked ==> final(stored)@[i].m.status == old(stored)@[i].m.status
            && final(stored)@[i].m.home_score == old(stored)@[i].m.home_score
            && final(stored)@[i].m.away_score == old(stored)@[i].m.away_score
            && final(stored)@[i].m.pens_home == old(stored)@[i].m.pens_home
            && final(stored)@[i].m.pens_away == old(stored)@[i].m.pens_away,
        (forall|k: int|
            0 <= k < reports@.len() ==> (#[trigger] reports@[k]).id != old(stored)@[i].m.id)
            ==> final(stored)@[i] == old(stored)@[i],
{
    let fresh = choose|fresh: Seq<Match>|
        report_all(fresh, reports@, competition@) && final(stored)@ == #[trigger] synced(
            old(stored)@,
            fresh,
        );
    syncing_keeps_locked_outcomes(old(stored)@, fresh, i);
    if forall|k: int|
        0 <= k < reports@.len() ==> (#[trigger] reports@[k]).id != old(stored)@[i].m.id {
        assert forall|k: int| 0 <= k < fresh.len() implies (#[trigger] fresh[k]).id
            != old(stored)@[i].m.id by {
            assert(reports@[k].reports(fresh[k], competition@));
            assert(reports@[k].id != old(stored)@[i].m.id);
        }
        syncing_leaves_others_alone(old(stored)@, fresh, i);
    }
}

/// Each competition that someone follows is fetched once, at its own address.
pub proof fn competitions_are_fetched_once(
    followed: &Vec<String>,
    r: Vec<String>,
    code: Seq<char>,
    competition: &str,
    url: String,
)
    requires
        call_ensures(competitions, (followed,), r),
        call_ensures(feed_url, (competition,), url),
    ensures
        texts(r@).no_duplicates(),
        texts(r@).contains(code) <==> texts(followed@).contains(code),
        url@ == "https://api.football-data.org/v4/competitions/"@ + competition@ + "/matches"@,
{
    distinct_keeps_each_once(texts(followed@));
}

/// Reports can be stored unless the goals of a shootout's match do not add up within
/// the range of numbers; ordinary ones always do.
pub proof fn ordinary_reports_can_be_stored(
    report: &ApiMatch,
    storable: bool,
    a: Option<i32>,
    b: Option<i32>,
    sum: Option<i32>,
)
    requires
        call_ensures(ApiMatch::is_storable, (report,), storable),
        call_ensures(sum_parts, (a, b), sum),
    ensures
        report.score is None ==> storable,
        report.score is Some && !(report.score->0.duration is Some && report.score->0.duration->0@
            == "PENALTY_SHOOTOUT"@) ==> storable,
        report.score is Some && report.score->0.regular_time is None ==> storable,
        report.score is Some && report.score->0.extra_time is None ==> storable,
        a is Some && b is Some ==> sum is Some && sum->0 == a->0 + b->0,
        a is None ==> sum == b,
        b is None ==> sum == a,
{
}

} // verus!
