//! Reminders to bet: shortly before kickoff, to those who have not bet yet.
use vstd::prelude::*;

use crate::bets::{
    bet_position, find_own_bet, one_bet_per_match, own_bet, own_bets_are_found, position_bounds,
    Member,
};
use crate::clock::{amsterdam_clock, amsterdam_text, on_calendar, Timestamp, MINUTE};
use crate::i18n::{others_read_english, user_locale, Locale};
use crate::json::{json_text, record_text, render_texts, text_fields};
use crate::models::{
    as_opt_str, by_kickoff, earlier_matches_come_first, kickoffs, open_for_bets, opt_str, opt_text,
    order_by_kickoff, started, Match, Prediction,
};
use crate::notifications::{Contact, Push};
use crate::ordering::{by_time_is_a_sorted_permutation, positions};
use crate::tenant::Tenant;
use crate::text::{decimal, str_eq, to_decimal};

verus! {

/// A space that was reminded of a match.
#[derive(Clone, Copy, PartialEq, Eq, Debug, Structural)]
pub struct Reminded {
    pub tenant_id: u128,
    pub match_id: i64,
}

/// When the members of any space were first reminded of a match.
#[derive(Clone, Copy, PartialEq, Eq, Debug, Structural)]
pub struct FirstReminder {
    pub match_id: i64,
    pub reminded_at: Option<Timestamp>,
}

/// Whether a space's members are to be reminded of a match: it is scheduled,
/// kicks off within the lead time, and no reminder has gone out to the space.
pub open spec fn due(
    m: Match,
    tenant_id: u128,
    log: Seq<Reminded>,
    lead_minutes: int,
    at: Timestamp,
) -> bool {
    &&& at.lt(m.kickoff_at)
    &&& m.kickoff_at.le(at.shifted(lead_minutes * MINUTE))
    &&& m.status@ == "SCHEDULED"@ || m.status@ == "TIMED"@
    &&& !log.contains(Reminded { tenant_id, match_id: m.id })
}

/// The positions, among some, of the matches that are due.
pub open spec fn due_among(
    order: Seq<int>,
    matches: Seq<Match>,
    tenant_id: u128,
    log: Seq<Reminded>,
    lead_minutes: int,
    at: Timestamp,
) -> Seq<int>
    decreases order.len(),
{
    if order.len() == 0 {
        Seq::empty()
    } else {
        let before = due_among(order.drop_last(), matches, tenant_id, log, lead_minutes, at);
        if due(matches[order.last()], tenant_id, log, lead_minutes, at) {
            before.push(order.last())
        } else {
            before
        }
    }
}

fn was_reminded(log: &Vec<Reminded>, entry: Reminded) -> (r: bool)
    ensures
        r == log@.contains(entry),
{
    let mut i: usize = 0;
    while i < log.len()
        invariant
            i <= log.len(),
            forall|k: int| 0 <= k < i ==> log@[k] != entry,
        decreases log.len() - i,
    {
        if log[i] == entry {
            assert(log@[i as int] == entry);
            return true;
        }
        i = i + 1;
    }
    false
}

/// The matches a space's members are to be reminded of, as positions in
/// `matches`, earliest kickoff first. `log` holds what any space was reminded of
/// before.
pub fn send_match_reminders(
    tenant: &Tenant,
    matches: &Vec<Match>,
    log: &Vec<Reminded>,
    at: Timestamp,
) -> (r: Vec<usize>)
    requires
        at.valid(),
        on_calendar(at.secs + tenant.reminder_lead_minutes * MINUTE),
    ensures
        positions(r@) == due_among(
            by_kickoff(matches@),
            matches@,
            tenant.id,
            log@,
            tenant.reminder_lead_minutes as int,
            at,
        ),
        forall|k: int| 0 <= k < r@.len() ==> (#[trigger] r@[k]) < matches@.len(),
{
    let lead: i64 = tenant.reminder_lead_minutes;
    let window_end: Timestamp = at.shift(lead * MINUTE);
    let order: Vec<usize> = order_by_kickoff(matches);
    let ghost all = positions(order@);
    let mut out: Vec<usize> = Vec::new();
    let mut i: usize = 0;
    assert(positions(out@) =~= due_among(
        all.take(0),
        matches@,
        tenant.id,
        log@,
        lead as int,
        at,
    ));
    while i < order.len()
        invariant
            i <= order.len(),
            all == positions(order@),
            window_end == at.shifted(lead * MINUTE),
            forall|k: int| 0 <= k < order@.len() ==> (#[trigger] order@[k]) < matches@.len(),
            forall|k: int| 0 <= k < out@.len() ==> (#[trigger] out@[k]) < matches@.len(),
            positions(out@) == due_among(
                all.take(i as int),
                matches@,
                tenant.id,
                log@,
                lead as int,
                at,
            ),
        decreases order.len() - i,
    {
        assert(all.take(i + 1).drop_last() =~= all.take(i as int));
        assert(all.take(i + 1).last() == order@[i as int]);
        let m: &Match = &matches[order[i]];
        let scheduled: bool = str_eq(m.status.as_str(), "SCHEDULED") || str_eq(
            m.status.as_str(),
            "TIMED",
        );
        let entry: Reminded = Reminded { tenant_id: tenant.id, match_id: m.id };
        if at.before(m.kickoff_at) && !window_end.before(m.kickoff_at) && scheduled
            && !was_reminded(log, entry) {
            let ghost before = out@;
            out.push(order[i]);
            assert(positions(out@) =~= positions(before).push(order@[i as int] as int));
        }
        i = i + 1;
    }
    assert(all.take(all.len() as int) =~= all);
    out
}

/// The log with one more entry, kept once.
pub open spec fn marked(log: Seq<Reminded>, entry: Reminded) -> Seq<Reminded> {
    if log.contains(entry) {
        log
    } else {
        log.push(entry)
    }
}

/// The first reminders once one more went out: an earlier one stays.
pub open spec fn first_marked(
    firsts: Seq<FirstReminder>,
    match_id: i64,
    at: Timestamp,
) -> Seq<FirstReminder> {
    Seq::new(
        firsts.len(),
        |i: int|
            if firsts[i].match_id == match_id && firsts[i].reminded_at is None {
                FirstReminder { reminded_at: Some(at), ..firsts[i] }
            } else {
                firsts[i]
            },
    )
}

/// Records that a space was reminded of a match, once, and when the first
/// reminder of that match went out.
pub fn mark_reminded(
    log: &mut Vec<Reminded>,
    firsts: &mut Vec<FirstReminder>,
    entry: Reminded,
    at: Timestamp,
)
    ensures
        final(log)@ == marked(old(log)@, entry),
        final(firsts)@ == first_marked(old(firsts)@, entry.match_id, at),
{
    if !was_reminded(log, entry) {
        log.push(entry);
    }
    let ghost start = firsts@;
    let n: usize = firsts.len();
    let mut i: usize = 0;
    while i < n
        invariant
            i <= n,
            n == firsts@.len(),
            n == start.len(),
            forall|k: int|
                0 <= k < i ==> #[trigger] firsts@[k] == first_marked(
                    start,
                    entry.match_id,
                    at,
                )[k],
            forall|k: int| i <= k < n ==> #[trigger] firsts@[k] == start[k],
        decreases n - i,
    {
        if firsts[i].match_id == entry.match_id && firsts[i].reminded_at.is_none() {
            firsts.set(i, FirstReminder { match_id: entry.match_id, reminded_at: Some(at) });
        }
        i = i + 1;
    }
    assert(firsts@ =~= first_marked(start, entry.match_id, at));
}

/// A member to remind of a match.
#[derive(Debug)]
pub struct Reminder {
    pub user_id: u128,
    pub email: String,
    pub loc: Locale,
    /// What the mail tells of the match: both teams, and the kickoff by the clock
    /// of Amsterdam.
    pub home: String,
    pub away: String,
    pub kickoff_local: String,
    /// The push that goes out beside the mail, for those who want it.
    pub push: Option<Push>,
}

/// The body of the push that reminds to bet.
pub open spec fn nudge(loc: Locale) -> Seq<char> {
    loc.pick(
        "Coup d'envoi bientôt et tu n'as pas encore parié !"@,
        "Kick-off soon and you haven't bet yet!"@,
    )
}

impl Reminder {
    /// Whether this is the reminder of a match to a member.
    pub open spec fn tells(self, contact: Contact, m: Match, tenant_url: Seq<char>) -> bool {
        &&& self.user_id == contact.user_id
        &&& self.email == contact.email
        &&& self.loc == user_locale(contact.lang@)
        &&& self.home == m.home_team
        &&& self.away == m.away_team
        &&& self.kickoff_local@ == amsterdam_text(m.kickoff_at.secs as int)
        &&& match self.push {
            Some(push) => {
                &&& contact.notify_push
                &&& push.user_id == contact.user_id
                &&& push.title@ == m.home_team@ + " - "@ + m.away_team@
                &&& push.body@ == nudge(user_locale(contact.lang@))
                &&& push.url@ == tenant_url + "/matches"@
            },
            None => !contact.notify_push,
        }
    }
}

/// The members who have not bet on a match, in order.
pub open spec fn unbet(
    contacts: Seq<Contact>,
    tenant_id: u128,
    match_id: i64,
    book: Seq<Prediction>,
) -> Seq<Contact>
    decreases contacts.len(),
{
    if contacts.len() == 0 {
        Seq::empty()
    } else {
        let before = unbet(contacts.drop_last(), tenant_id, match_id, book);
        let who = Member { tenant_id, user_id: contacts.last().user_id };
        if own_bet(book, who, match_id) is None {
            before.push(contacts.last())
        } else {
            before
        }
    }
}

/// Whether some reminders are those of a match to some members, one each.
pub open spec fn tell_all(
    reminders: Seq<Reminder>,
    contacts: Seq<Contact>,
    m: Match,
    tenant_url: Seq<char>,
) -> bool {
    &&& reminders.len() == contacts.len()
    &&& forall|i: int|
        0 <= i < reminders.len() ==> (#[trigger] reminders[i]).tells(contacts[i], m, tenant_url)
}

fn remind(contact: &Contact, m: &Match, tenant_url: &str) -> (r: Reminder)
    requires
        m.kickoff_at.valid(),
    ensures
        r.tells(*contact, *m, tenant_url@),
{
    let loc: Locale = Locale::of_user(contact.lang.as_str());
    let push: Option<Push> = if contact.notify_push {
        let mut title: String = m.home_team.clone();
        title.append(" - ");
        title.append(m.away_team.as_str());
        let mut url: String = tenant_url.to_owned();
        url.append("/matches");
        Some(
            Push {
                user_id: contact.user_id,
                title,
                body: loc.f(
                    "Coup d'envoi bientôt et tu n'as pas encore parié !",
                    "Kick-off soon and you haven't bet yet!",
                ).to_owned(),
                url,
            },
        )
    } else {
        None
    };
    Reminder {
        user_id: contact.user_id,
        email: contact.email.clone(),
        loc,
        home: m.home_team.clone(),
        away: m.away_team.clone(),
        kickoff_local: amsterdam_clock(m.kickoff_at),
        push,
    }
}

/// The reminders of a match: one for each member of the space who has not bet
/// on it.
pub fn send_for_tenant(
    tenant: &Tenant,
    m: &Match,
    contacts: &Vec<Contact>,
    book: &Vec<Prediction>,
    tenant_url: &str,
) -> (r: Vec<Reminder>)
    requires
        m.kickoff_at.valid(),
    ensures
        tell_all(r@, unbet(contacts@, tenant.id, m.id, book@), *m, tenant_url@),
{
    let mut out: Vec<Reminder> = Vec::new();
    let mut i: usize = 0;
    while i < contacts.len()
        invariant
            i <= contacts.len(),
            m.kickoff_at.valid(),
            tell_all(
                out@,
                unbet(contacts@.take(i as int), tenant.id, m.id, book@),
                *m,
                tenant_url@,
            ),
        decreases contacts.len() - i,
    {
        assert(contacts@.take(i + 1).drop_last() =~= contacts@.take(i as int));
        let who: Member = Member { tenant_id: tenant.id, user_id: contacts[i].user_id };
        if find_own_bet(book, who, m.id).is_none() {
            out.push(remind(&contacts[i], m, tenant_url));
        }
        i = i + 1;
    }
    assert(contacts@.take(contacts@.len() as int) =~= contacts@);
    out
}

/// The stage and the group of a match, in brackets, as far as they are known.
pub open spec fn context_text(stage: Option<Seq<char>>, group: Option<Seq<char>>) -> Seq<char> {
    let bits = match (stage, group) {
        (Some(s), Some(g)) => s + " - "@ + g,
        (Some(s), None) => s,
        (None, Some(g)) => g,
        (None, None) => Seq::empty(),
    };
    if bits.len() == 0 {
        Seq::empty()
    } else {
        " ("@ + bits + ")"@
    }
}

/// The stage and the group of a match, in brackets.
pub fn context_line(stage: Option<&str>, group: Option<&str>) -> (r: String)
    ensures
        r@ == context_text(opt_str(stage), opt_str(group)),
{
    let mut bits: String = String::new();
    match (stage, group) {
        (Some(s), Some(g)) => {
            bits.append(s);
            bits.append(" - ");
            bits.append(g);
            assert(bits@ =~= s@ + " - "@ + g@);
        },
        (Some(s), None) => {
            bits.append(s);
            assert(bits@ =~= s@);
        },
        (None, Some(g)) => {
            bits.append(g);
            assert(bits@ =~= g@);
        },
        (None, None) => {},
    }
    if bits.as_str().is_empty() {
        return String::new();
    }
    let mut line: String = " (".to_owned();
    line.append(bits.as_str());
    line.append(")");
    line
}

/// The message that reminds a space's channel of a match.
pub open spec fn channel_text(m: Match, lead_minutes: int, tenant_url: Seq<char>) -> Seq<char> {
    ":soccer: *"@ + m.home_team@ + "* vs *"@ + m.away_team@ + "*"@ + context_text(
        opt_text(m.stage),
        opt_text(m.group_name),
    ) + " commence à "@ + amsterdam_text(m.kickoff_at.secs as int) + " (dans <"@ + decimal(
        lead_minutes,
    ) + " min).\nPariez maintenant : "@ + tenant_url + "/matches"@
}

/// The message that reminds a space's channel of a match.
pub fn channel_message(tenant: &Tenant, m: &Match, tenant_url: &str) -> (r: String)
    requires
        m.kickoff_at.valid(),
    ensures
        r@ == channel_text(*m, tenant.reminder_lead_minutes as int, tenant_url@),
{
    let mut text: String = ":soccer: *".to_owned();
    text.append(m.home_team.as_str());
    text.append("* vs *");
    text.append(m.away_team.as_str());
    text.append("*");
    text.append(context_line(as_opt_str(&m.stage), as_opt_str(&m.group_name)).as_str());
    text.append(" commence à ");
    text.append(amsterdam_clock(m.kickoff_at).as_str());
    text.append(" (dans <");
    text.append(to_decimal(tenant.reminder_lead_minutes).as_str());
    text.append(" min).\nPariez maintenant : ");
    text.append(tenant_url);
    text.append("/matches");
    text
}

/// What is posted to a space's channel for a match, in JSON.
pub fn channel_payload(tenant: &Tenant, m: &Match, tenant_url: &str) -> (r: String)
    requires
        m.kickoff_at.valid(),
    ensures
        r@ == record_text(
            seq![("text"@, channel_text(*m, tenant.reminder_lead_minutes as int, tenant_url@))],
        ),
{
    let text: String = channel_message(tenant, m, tenant_url);
    let ghost said = text@;
    let mut fields: Vec<(String, String)> = Vec::new();
    fields.push(("text".to_owned(), text));
    assert(text_fields(fields@) =~= seq![("text"@, said)]);
    render_texts(fields)
}

/// Members are only reminded of matches they can still bet on.
pub proof fn reminded_matches_are_open(
    m: Match,
    tenant_id: u128,
    log: Seq<Reminded>,
    lead_minutes: int,
    at: Timestamp,
)
    requires
        due(m, tenant_id, log, lead_minutes, at),
    ensures
        open_for_bets(m.kickoff_at, m.status@, at),
{
    reveal_strlit("SCHEDULED");
    reveal_strlit("TIMED");
    reveal_strlit("IN_PLAY");
    reveal_strlit("PAUSED");
    reveal_strlit("EXTRA_TIME");
    reveal_strlit("PENALTY_SHOOTOUT");
    reveal_strlit("FINISHED");
    reveal_strlit("AWARDED");
    reveal_strlit("SUSPENDED");
    if m.status@ == "SCHEDULED"@ {
        assert(m.status@[1] == 'C');
        assert(!started(m.status@));
    } else {
        assert(m.status@[0] == 'T');
        assert(!started(m.status@));
    }
}

/// Exactly the due matches are listed.
pub proof fn all_due_matches_are_listed(
    order: Seq<int>,
    matches: Seq<Match>,
    tenant_id: u128,
    log: Seq<Reminded>,
    lead_minutes: int,
    at: Timestamp,
    i: int,
)
    ensures
        due_among(order, matches, tenant_id, log, lead_minutes, at).contains(i) <==> order.contains(i)
            && due(matches[i], tenant_id, log, lead_minutes, at),
    decreases order.len(),
{
    let listed = due_among(order, matches, tenant_id, log, lead_minutes, at);
    if order.len() > 0 {
        let front = order.drop_last();
        let before = due_among(front, matches, tenant_id, log, lead_minutes, at);
        all_due_matches_are_listed(front, matches, tenant_id, log, lead_minutes, at, i);
        if listed.contains(i) {
            let k = choose|k: int| 0 <= k < listed.len() && listed[k] == i;
            if k < before.len() {
                assert(before[k] == i);
                let j = choose|j: int| 0 <= j < front.len() && front[j] == i;
                assert(order[j] == i);
            } else {
                assert(order[order.len() - 1] == i);
            }
        }
        if order.contains(i) && due(matches[i], tenant_id, log, lead_minutes, at) {
            let j = choose|j: int| 0 <= j < order.len() && order[j] == i;
            if j < front.len() {
                assert(front[j] == i);
                let k = choose|k: int| 0 <= k < before.len() && before[k] == i;
                assert(listed[k] == i);
            } else {
                assert(listed.last() == i);
            }
        }
    }
}

/// The log after a run, in which a space was reminded of the matches at some
/// positions.
pub open spec fn after_run(
    log: Seq<Reminded>,
    tenant_id: u128,
    matches: Seq<Match>,
    told: Seq<int>,
) -> Seq<Reminded>
    decreases told.len(),
{
    if told.len() == 0 {
        log
    } else {
        marked(
            after_run(log, tenant_id, matches, told.drop_last()),
            Reminded { tenant_id, match_id: matches[told.last()].id },
        )
    }
}

proof fn run_is_logged(
    log: Seq<Reminded>,
    tenant_id: u128,
    matches: Seq<Match>,
    told: Seq<int>,
    entry: Reminded,
)
    ensures
        after_run(log, tenant_id, matches, told).contains(entry) <==> log.contains(entry) || (
        entry.tenant_id == tenant_id && exists|k: int|
            0 <= k < told.len() && matches[#[trigger] told[k]].id == entry.match_id),
    decreases told.len(),
{
    if told.len() > 0 {
        let front = told.drop_last();
        run_is_logged(log, tenant_id, matches, front, entry);
        let before = after_run(log, tenant_id, matches, front);
        let all = after_run(log, tenant_id, matches, told);
        let last = Reminded { tenant_id, match_id: matches[told.last()].id };
        if before.contains(entry) {
            let k = choose|k: int| 0 <= k < before.len() && before[k] == entry;
            assert(all[k] == entry);
        }
        if all.contains(entry) && !before.contains(entry) {
            let k = choose|k: int| 0 <= k < all.len() && all[k] == entry;
            assert(entry == last);
            assert(matches[told[told.len() - 1]].id == entry.match_id);
        }
        if entry.tenant_id == tenant_id && exists|k: int|
            0 <= k < told.len() && matches[#[trigger] told[k]].id == entry.match_id {
            let k = choose|k: int|
                0 <= k < told.len() && matches[#[trigger] told[k]].id == entry.match_id;
            if k < front.len() {
                assert(front[k] == told[k]);
            } else {
                assert(entry == last);
                if !before.contains(last) {
                    assert(all.last() == last);
                }
            }
        }
        if exists|k: int| 0 <= k < front.len() && matches[#[trigger] front[k]].id == entry.match_id {
            let k = choose|k: int|
                0 <= k < front.len() && matches[#[trigger] front[k]].id == entry.match_id;
            assert(told[k] == front[k]);
        }
    }
}

/// After a run a space is not reminded again of any match of that run, at any
/// time; the reminders of other spaces are not touched by it.
pub proof fn spaces_are_reminded_once(
    log: Seq<Reminded>,
    tenant_id: u128,
    other: u128,
    matches: Seq<Match>,
    told: Seq<int>,
    m: Match,
    lead_minutes: int,
    later: Timestamp,
    i: int,
)
    requires
        0 <= i < told.len(),
        other != tenant_id,
    ensures
        ({
            let after = after_run(log, tenant_id, matches, told);
            &&& after.contains(Reminded { tenant_id, match_id: matches[told[i]].id })
            &&& !due(matches[told[i]], tenant_id, after, lead_minutes, later)
            &&& due(m, other, after, lead_minutes, later) == due(
                m,
                other,
                log,
                lead_minutes,
                later,
            )
        }),
{
    let mine = Reminded { tenant_id, match_id: matches[told[i]].id };
    run_is_logged(log, tenant_id, matches, told, mine);
    assert(matches[told[i]].id == mine.match_id);
    run_is_logged(log, tenant_id, matches, told, Reminded { tenant_id: other, match_id: m.id });
}

/// The first reminders after a run at an instant, in which some matches were told
/// of.
pub open spec fn firsts_after_run(
    firsts: Seq<FirstReminder>,
    matches: Seq<Match>,
    told: Seq<int>,
    at: Timestamp,
) -> Seq<FirstReminder>
    decreases told.len(),
{
    if told.len() == 0 {
        firsts
    } else {
        first_marked(
            firsts_after_run(firsts, matches, told.drop_last(), at),
            matches[told.last()].id,
            at,
        )
    }
}

/// A run keeps the time of every first reminder that went out before it.
pub proof fn first_reminders_stay(
    firsts: Seq<FirstReminder>,
    matches: Seq<Match>,
    told: Seq<int>,
    at: Timestamp,
    i: int,
)
    requires
        0 <= i < firsts.len(),
        firsts[i].reminded_at is Some,
    ensures
        firsts_after_run(firsts, matches, told, at).len() == firsts.len(),
        firsts_after_run(firsts, matches, told, at)[i] == firsts[i],
    decreases told.len(),
{
    if told.len() > 0 {
        first_reminders_stay(firsts, matches, told.drop_last(), at, i);
    }
}

/// A run only adds to the log, and only entries of its own space.
pub proof fn runs_leave_the_log_of_others_alone(
    log: Seq<Reminded>,
    tenant_id: u128,
    matches: Seq<Match>,
    told: Seq<int>,
)
    ensures
        ({
            let after = after_run(log, tenant_id, matches, told);
            &&& after.len() >= log.len()
            &&& forall|i: int| 0 <= i < log.len() ==> #[trigger] after[i] == log[i]
            &&& forall|i: int|
                log.len() <= i < after.len() ==> (#[trigger] after[i]).tenant_id == tenant_id
        }),
    decreases told.len(),
{
    if told.len() > 0 {
        runs_leave_the_log_of_others_alone(log, tenant_id, matches, told.drop_last());
    }
}

/// Two logs that agree on what a space was reminded of make the same matches due.
proof fn same_log_same_due(
    order: Seq<int>,
    matches: Seq<Match>,
    tenant_id: u128,
    a: Seq<Reminded>,
    b: Seq<Reminded>,
    lead_minutes: int,
    at: Timestamp,
)
    requires
        forall|id: i64|
            a.contains(Reminded { tenant_id, match_id: id }) == #[trigger] b.contains(
                Reminded { tenant_id, match_id: id },
            ),
    ensures
        due_among(order, matches, tenant_id, a, lead_minutes, at) == due_among(
            order,
            matches,
            tenant_id,
            b,
            lead_minutes,
            at,
        ),
    decreases order.len(),
{
    if order.len() > 0 {
        same_log_same_due(order.drop_last(), matches, tenant_id, a, b, lead_minutes, at);
        let entry = Reminded { tenant_id, match_id: matches[order.last()].id };
        assert(a.contains(entry) == b.contains(entry));
    }
}

/// A later run, on whatever the matches have become, tells a space of no match
/// that it was told of in an earlier one; any other space is told of the same
/// matches as without that run.
pub proof fn a_later_run_repeats_nothing(
    log: Seq<Reminded>,
    tenant_id: u128,
    other: u128,
    matches: Seq<Match>,
    lead_minutes: int,
    at: Timestamp,
    later_matches: Seq<Match>,
    later_lead: int,
    later: Timestamp,
)
    requires
        other != tenant_id,
    ensures
        ({
            let told = due_among(
                by_kickoff(matches),
                matches,
                tenant_id,
                log,
                lead_minutes,
                at,
            );
            let after = after_run(log, tenant_id, matches, told);
            let order = by_kickoff(later_matches);
            let again = due_among(order, later_matches, tenant_id, after, later_lead, later);
            &&& forall|i: int, k: int|
                0 <= i < told.len() && 0 <= k < again.len() ==> matches[#[trigger] told[i]].id
                    != later_matches[#[trigger] again[k]].id
            &&& due_among(order, later_matches, other, after, later_lead, later) == due_among(
                order,
                later_matches,
                other,
                log,
                later_lead,
                later,
            )
        }),
{
    let told = due_among(by_kickoff(matches), matches, tenant_id, log, lead_minutes, at);
    let after = after_run(log, tenant_id, matches, told);
    let order = by_kickoff(later_matches);
    let again = due_among(order, later_matches, tenant_id, after, later_lead, later);
    assert forall|i: int, k: int| 0 <= i < told.len() && 0 <= k < again.len() implies matches[
        #[trigger] told[i]
    ].id != later_matches[#[trigger] again[k]].id by {
        assert(again.contains(again[k]));
        all_due_matches_are_listed(
            order,
            later_matches,
            tenant_id,
            after,
            later_lead,
            later,
            again[k],
        );
        spaces_are_reminded_once(
            log,
            tenant_id,
            other,
            matches,
            told,
            matches[told[i]],
            later_lead,
            later,
            i,
        );
    }
    assert forall|id: i64|
        after.contains(Reminded { tenant_id: other, match_id: id }) == #[trigger] log.contains(
            Reminded { tenant_id: other, match_id: id },
        ) by {
        run_is_logged(log, tenant_id, matches, told, Reminded { tenant_id: other, match_id: id });
    }
    same_log_same_due(order, later_matches, other, after, log, later_lead, later);
}

/// Whoever has bet on a match is not reminded of it.
pub proof fn bettors_are_left_alone(
    contacts: Seq<Contact>,
    tenant_id: u128,
    match_id: i64,
    book: Seq<Prediction>,
    i: int,
)
    requires
        0 <= i < unbet(contacts, tenant_id, match_id, book).len(),
    ensures
        own_bet(
            book,
            Member {
                tenant_id,
                user_id: unbet(contacts, tenant_id, match_id, book)[i].user_id,
            },
            match_id,
        ) is None,
    decreases contacts.len(),
{
    let before = unbet(contacts.drop_last(), tenant_id, match_id, book);
    if i < before.len() {
        bettors_are_left_alone(contacts.drop_last(), tenant_id, match_id, book, i);
    }
}

/// A match is due exactly when it is scheduled, has not kicked off, does so within
/// the lead time, and its space was not reminded of it.
pub proof fn due_matches_kick_off_soon(
    m: Match,
    tenant_id: u128,
    log: Seq<Reminded>,
    lead_minutes: int,
    at: Timestamp,
)
    requires
        i64::MIN <= at.secs + lead_minutes * 60 <= i64::MAX,
    ensures
        due(m, tenant_id, log, lead_minutes, at) <==> {
            &&& m.status@ == "SCHEDULED"@ || m.status@ == "TIMED"@
            &&& at.secs < m.kickoff_at.secs || (at.secs == m.kickoff_at.secs && at.nanos
                < m.kickoff_at.nanos)
            &&& m.kickoff_at.secs < at.secs + lead_minutes * 60 || (m.kickoff_at.secs == at.secs
                + lead_minutes * 60 && m.kickoff_at.nanos <= at.nanos)
            &&& forall|i: int|
                0 <= i < log.len() ==> !((#[trigger] log[i]).tenant_id == tenant_id
                    && log[i].match_id == m.id)
        },
{
    let entry = Reminded { tenant_id, match_id: m.id };
    if log.contains(entry) {
        let i = choose|i: int| 0 <= i < log.len() && log[i] == entry;
        assert(log[i].tenant_id == tenant_id && log[i].match_id == m.id);
    }
    if exists|i: int|
        0 <= i < log.len() && (#[trigger] log[i]).tenant_id == tenant_id && log[i].match_id
            == m.id {
        let i = choose|i: int|
            0 <= i < log.len() && (#[trigger] log[i]).tenant_id == tenant_id && log[i].match_id
                == m.id;
        assert(log[i] == entry);
    }
}

/// Each match in turn is listed if it is due, and left out if not.
pub proof fn each_match_is_due_or_not(
    order: Seq<int>,
    next: int,
    matches: Seq<Match>,
    tenant_id: u128,
    log: Seq<Reminded>,
    lead_minutes: int,
    at: Timestamp,
)
    ensures
        ({
            let before = due_among(order, matches, tenant_id, log, lead_minutes, at);
            let after = due_among(order.push(next), matches, tenant_id, log, lead_minutes, at);
            &&& due_among(Seq::empty(), matches, tenant_id, log, lead_minutes, at).len() == 0
            &&& due(matches[next], tenant_id, log, lead_minutes, at) ==> after == before.push(next)
            &&& !due(matches[next], tenant_id, log, lead_minutes, at) ==> after == before
        }),
{
    assert(order.push(next).drop_last() =~= order);
}

/// Each member in turn is reminded if they have no bet of their own on the match in
/// this space, and left alone if they have.
pub proof fn each_member_is_reminded_or_not(
    contacts: Seq<Contact>,
    next: Contact,
    tenant_id: u128,
    match_id: i64,
    book: Seq<Prediction>,
)
    requires
        one_bet_per_match(book),
    ensures
        ({
            let before = unbet(contacts, tenant_id, match_id, book);
            let after = unbet(contacts.push(next), tenant_id, match_id, book);
            let has_bet = exists|i: int|
                0 <= i < book.len() && (#[trigger] book[i]).user_id == next.user_id
                    && book[i].tenant_id == tenant_id && book[i].match_id == match_id;
            &&& unbet(Seq::empty(), tenant_id, match_id, book).len() == 0
            &&& !has_bet ==> after == before.push(next)
            &&& has_bet ==> after == before
        }),
{
    assert(contacts.push(next).drop_last() =~= contacts);
    let who = Member { tenant_id, user_id: next.user_id };
    own_bets_are_found(book, who, match_id, 0);
    if exists|i: int|
        0 <= i < book.len() && (#[trigger] book[i]).user_id == next.user_id && book[i].tenant_id
            == tenant_id && book[i].match_id == match_id {
        let i = choose|i: int|
            0 <= i < book.len() && (#[trigger] book[i]).user_id == next.user_id
                && book[i].tenant_id == tenant_id && book[i].match_id == match_id;
        own_bets_are_found(book, who, match_id, i);
    } else if own_bet(book, who, match_id) is Some {
        position_bounds(book, next.user_id, match_id);
        let i = bet_position(book, next.user_id, match_id);
        assert(book[i].user_id == next.user_id);
    }
}

/// A reminder goes to the member's own address and tells of the match; the push
/// beside it, for those who want it, names both teams and leads to the matches.
pub proof fn reminders_tell_of_the_match(
    r: Reminder,
    contact: Contact,
    m: Match,
    tenant_url: Seq<char>,
)
    requires
        r.tells(contact, m, tenant_url),
    ensures
        r.user_id == contact.user_id,
        r.email@ == contact.email@,
        r.home@ == m.home_team@,
        r.away@ == m.away_team@,
        r.kickoff_local@ == amsterdam_text(m.kickoff_at.secs as int),
        r.push is Some <==> contact.notify_push,
        r.push is Some ==> r.push->0.user_id == contact.user_id && r.push->0.title@
            == m.home_team@ + " - "@ + m.away_team@ && r.push->0.url@ == tenant_url + "/matches"@,
        contact.lang@ == "fr"@ ==> r.loc == Locale::Fr && (r.push is Some ==> r.push->0.body@
            == "Coup d'envoi bientôt et tu n'as pas encore parié !"@),
        contact.lang@ != "fr"@ ==> r.loc == Locale::En && (r.push is Some ==> r.push->0.body@
            == "Kick-off soon and you haven't bet yet!"@),
{
    others_read_english(contact.lang@);
}

/// The message to the channel gives both teams, what is known of the stage and the
/// group, the kickoff by the clock of Amsterdam, the lead time, and the link.
pub proof fn channels_are_told_all(
    m: Match,
    lead_minutes: int,
    tenant_url: Seq<char>,
    stage: Seq<char>,
    group: Seq<char>,
)
    requires
        stage.len() > 0,
        group.len() > 0,
    ensures
        context_text(None, None) == Seq::<char>::empty(),
        context_text(Some(stage), None) == " ("@ + stage + ")"@,
        context_text(None, Some(group)) == " ("@ + group + ")"@,
        context_text(Some(stage), Some(group)) == " ("@ + (stage + " - "@ + group) + ")"@,
        channel_text(m, lead_minutes, tenant_url) == ":soccer: *"@ + m.home_team@ + "* vs *"@
            + m.away_team@ + "*"@ + context_text(opt_text(m.stage), opt_text(m.group_name))
            + " commence à "@ + amsterdam_text(m.kickoff_at.secs as int) + " (dans <"@ + decimal(
            lead_minutes,
        ) + " min).\nPariez maintenant : "@ + tenant_url + "/matches"@,
{
}

/// A run picks exactly the matches that are scheduled, kick off within the lead time of
/// the space, and of which the space was not reminded.
pub proof fn runs_pick_what_is_due(
    tenant: &Tenant,
    matches: &Vec<Match>,
    log: &Vec<Reminded>,
    at: Timestamp,
    r: Vec<usize>,
    i: int,
)
    requires
        call_ensures(send_match_reminders, (tenant, matches, log, at), r),
        at.valid(),
        on_calendar(at.secs + tenant.reminder_lead_minutes * 60),
        0 <= i < matches@.len(),
    ensures
        (exists|k: int| 0 <= k < r@.len() && #[trigger] r@[k] == i) <==> {
            let m = matches@[i];
            let lead = tenant.reminder_lead_minutes * 60;
            &&& m.status@ == "SCHEDULED"@ || m.status@ == "TIMED"@
            &&& at.secs < m.kickoff_at.secs || (at.secs == m.kickoff_at.secs && at.nanos
                < m.kickoff_at.nanos)
            &&& m.kickoff_at.secs < at.secs + lead || (m.kickoff_at.secs == at.secs + lead
                && m.kickoff_at.nanos <= at.nanos)
            &&& forall|j: int|
                0 <= j < log@.len() ==> !((#[trigger] log@[j]).tenant_id == tenant.id
                    && log@[j].match_id == m.id)
        },
{
    let lead = tenant.reminder_lead_minutes as int;
    let order = by_kickoff(matches@);
    let listed = due_among(order, matches@, tenant.id, log@, lead, at);
    due_matches_kick_off_soon(matches@[i], tenant.id, log@, lead, at);
    all_due_matches_are_listed(order, matches@, tenant.id, log@, lead, at, i);
    by_time_is_a_sorted_permutation(kickoffs(matches@));
    assert(order.contains(i));
    if listed.contains(i) {
        let k = choose|k: int| 0 <= k < listed.len() && listed[k] == i;
        assert(positions(r@)[k] == r@[k]);
        assert(r@[k] == i);
    }
    if exists|k: int| 0 <= k < r@.len() && #[trigger] r@[k] == i {
        let k = choose|k: int| 0 <= k < r@.len() && #[trigger] r@[k] == i;
        assert(positions(r@)[k] == i);
        assert(listed[k] == i);
    }
}

/// Marking records the reminder, once, and the moment of the first one; nothing else
/// changes.
pub proof fn marking_records_the_reminder(
    log: &mut Vec<Reminded>,
    firsts: &mut Vec<FirstReminder>,
    entry: Reminded,
    at: Timestamp,
    r: (),
    i: int,
)
    requires
        call_ensures(mark_reminded, (log, firsts, entry, at), r),
        0 <= i < old(firsts)@.len(),
    ensures
        old(log)@.contains(entry) ==> final(log)@ == old(log)@,
        !old(log)@.contains(entry) ==> final(log)@ == old(log)@.push(entry),
        final(firsts)@.len() == old(firsts)@.len(),
        final(firsts)@[i].match_id == old(firsts)@[i].match_id,
        old(firsts)@[i].match_id == entry.match_id && old(firsts)@[i].reminded_at is None
            ==> final(firsts)@[i].reminded_at == Some(at),
        old(firsts)@[i].match_id != entry.match_id || old(firsts)@[i].reminded_at is Some
            ==> final(firsts)@[i] == old(firsts)@[i],
{
}

proof fn unbet_contacts_are_contacts(
    contacts: Seq<Contact>,
    tenant_id: u128,
    match_id: i64,
    book: Seq<Prediction>,
    c: Contact,
)
    ensures
        unbet(contacts, tenant_id, match_id, book).contains(c) <==> contacts.contains(c) && own_bet(
            book,
            Member { tenant_id, user_id: c.user_id },
            match_id,
        ) is None,
    decreases contacts.len(),
{
    if contacts.len() > 0 {
        let front = contacts.drop_last();
        let last = contacts.last();
        unbet_contacts_are_contacts(front, tenant_id, match_id, book, c);
        assert(contacts[contacts.len() - 1] == last);
        let before = unbet(front, tenant_id, match_id, book);
        let all = unbet(contacts, tenant_id, match_id, book);
        if contacts.contains(c) {
            let k = choose|k: int| 0 <= k < contacts.len() && contacts[k] == c;
            if k < front.len() {
                assert(front[k] == c);
            }
        }
        if front.contains(c) {
            let k = choose|k: int| 0 <= k < front.len() && front[k] == c;
            assert(contacts[k] == c);
        }
        if before.contains(c) {
            let k = choose|k: int| 0 <= k < before.len() && before[k] == c;
            assert(all[k] == c);
        }
        if all.contains(c) {
            let k = choose|k: int| 0 <= k < all.len() && all[k] == c;
            if k < before.len() {
                assert(before[k] == c);
            }
        }
        if all.len() > before.len() {
            assert(all[before.len() as int] == last);
        }
    }
}

/// Every member without a bet on the match in this space is reminded of it, at their
/// own address.
pub proof fn members_without_a_bet_are_reminded(
    tenant: &Tenant,
    m: &Match,
    contacts: &Vec<Contact>,
    book: &Vec<Prediction>,
    tenant_url: &str,
    r: Vec<Reminder>,
    c: int,
)
    requires
        call_ensures(send_for_tenant, (tenant, m, contacts, book, tenant_url), r),
        0 <= c < contacts@.len(),
        forall|j: int|
            0 <= j < book@.len() ==> !((#[trigger] book@[j]).user_id == contacts@[c].user_id
                && book@[j].tenant_id == tenant.id && book@[j].match_id == m.id),
    ensures
        exists|k: int|
            {
                &&& 0 <= k < r@.len()
                &&& (#[trigger] r@[k]).user_id == contacts@[c].user_id
                &&& r@[k].email@ == contacts@[c].email@
                &&& r@[k].home@ == m.home_team@
                &&& r@[k].away@ == m.away_team@
                &&& r@[k].kickoff_local@ == amsterdam_text(m.kickoff_at.secs as int)
                &&& contacts@[c].lang@ == "fr"@ ==> r@[k].loc == Locale::Fr
                &&& contacts@[c].lang@ != "fr"@ ==> r@[k].loc == Locale::En
                &&& r@[k].push is Some <==> contacts@[c].notify_push
                &&& r@[k].push is Some ==> r@[k].push->0.user_id == contacts@[c].user_id
                    && r@[k].push->0.title@ == m.home_team@ + " - "@ + m.away_team@
                    && r@[k].push->0.url@ == tenant_url@ + "/matches"@
            },
{
    let contact = contacts@[c];
    others_read_english(contact.lang@);
    let who = Member { tenant_id: tenant.id, user_id: contact.user_id };
    let listed = unbet(contacts@, tenant.id, m.id, book@);
    position_bounds(book@, contact.user_id, m.id);
    assert(own_bet(book@, who, m.id) is None);
    unbet_contacts_are_contacts(contacts@, tenant.id, m.id, book@, contact);
    assert(contacts@.contains(contact));
    let k = choose|k: int| 0 <= k < listed.len() && listed[k] == contact;
    assert(r@[k].tells(listed[k], *m, tenant_url@));
    assert(r@[k].user_id == contact.user_id);
}

/// Whoever is reminded is a member without a bet on the match in this space.
pub proof fn bettors_get_no_reminder(
    tenant: &Tenant,
    m: &Match,
    contacts: &Vec<Contact>,
    book: &Vec<Prediction>,
    tenant_url: &str,
    r: Vec<Reminder>,
    k: int,
    j: int,
)
    requires
        call_ensures(send_for_tenant, (tenant, m, contacts, book, tenant_url), r),
        one_bet_per_match(book@),
        0 <= k < r@.len(),
        0 <= j < book@.len(),
    ensures
        !(book@[j].user_id == r@[k].user_id && book@[j].tenant_id == tenant.id && book@[j].match_id
            == m.id),
        exists|c: int|
            0 <= c < contacts@.len() && (#[trigger] contacts@[c]).user_id == r@[k].user_id
                && contacts@[c].email@ == r@[k].email@,
{
    let listed = unbet(contacts@, tenant.id, m.id, book@);
    assert(r@[k].tells(listed[k], *m, tenant_url@));
    assert(listed.contains(listed[k]));
    unbet_contacts_are_contacts(contacts@, tenant.id, m.id, book@, listed[k]);
    let who = Member { tenant_id: tenant.id, user_id: listed[k].user_id };
    own_bets_are_found(book@, who, m.id, j);
    let c = choose|c: int| 0 <= c < contacts@.len() && contacts@[c] == listed[k];
    assert(contacts@[c].user_id == r@[k].user_id);
}

/// The channel gets one text: both teams, the kickoff, the lead time and the link.
pub proof fn the_channel_gets_one_text(
    tenant: &Tenant,
    m: &Match,
    tenant_url: &str,
    r: String,
)
    requires
        call_ensures(channel_payload, (tenant, m, tenant_url), r),
    ensures
        r@ == json_text(
            seq![
                (
                    "text"@,
                    ":soccer: *"@ + m.home_team@ + "* vs *"@ + m.away_team@ + "*"@ + context_text(
                        opt_text(m.stage),
                        opt_text(m.group_name),
                    ) + " commence à "@ + amsterdam_text(m.kickoff_at.secs as int) + " (dans <"@
                        + decimal(tenant.reminder_lead_minutes as int)
                        + " min).\nPariez maintenant : "@ + tenant_url@ + "/matches"@,
                ),
            ],
            Seq::empty(),
            None,
        ),
{
}

proof fn due_matches_are_listed_in_turn(
    order: Seq<int>,
    matches: Seq<Match>,
    tenant_id: u128,
    log: Seq<Reminded>,
    lead_minutes: int,
    at: Timestamp,
    a: int,
    b: int,
) -> (found: (int, int))
    requires
        0 <= a < b < due_among(order, matches, tenant_id, log, lead_minutes, at).len(),
    ensures
        ({
            let (i, j) = found;
            let all = due_among(order, matches, tenant_id, log, lead_minutes, at);
            &&& 0 <= i < j < order.len()
            &&& order[i] == all[a]
            &&& order[j] == all[b]
        }),
    decreases order.len(),
{
    let front = order.drop_last();
    let before = due_among(front, matches, tenant_id, log, lead_minutes, at);
    if b < before.len() {
        due_matches_are_listed_in_turn(front, matches, tenant_id, log, lead_minutes, at, a, b)
    } else {
        assert(before.contains(before[a]));
        all_due_matches_are_listed(front, matches, tenant_id, log, lead_minutes, at, before[a]);
        let i = choose|i: int| 0 <= i < front.len() && front[i] == before[a];
        assert(order[i] == before[a]);
        (i, order.len() - 1)
    }
}

/// A run takes the matches in order of kickoff, each once.
pub proof fn runs_take_matches_in_order(
    tenant: &Tenant,
    matches: &Vec<Match>,
    log: &Vec<Reminded>,
    at: Timestamp,
    r: Vec<usize>,
    a: int,
    b: int,
)
    requires
        call_ensures(send_match_reminders, (tenant, matches, log, at), r),
        0 <= a < b < r@.len(),
    ensures
        ({
            let first = matches@[r@[a] as int].kickoff_at;
            let second = matches@[r@[b] as int].kickoff_at;
            first.secs < second.secs || (first.secs == second.secs && first.nanos < second.nanos)
                || (first == second && r@[a] < r@[b])
        }),
{
    assert(positions(r@)[a] == r@[a] && positions(r@)[b] == r@[b]);
    let (i, j) = due_matches_are_listed_in_turn(
        by_kickoff(matches@),
        matches@,
        tenant.id,
        log@,
        tenant.reminder_lead_minutes as int,
        at,
        a,
        b,
    );
    by_time_is_a_sorted_permutation(kickoffs(matches@));
    earlier_matches_come_first(matches@, i, j);
}

} // verus!
