//! Invitations: a member invites people to their space by email, and an invitee
//! joins by the link they receive, which also signs them in.
use vstd::prelude::*;
use vstd::utf8::{encode_utf8, is_ascii_chars, is_ascii_chars_encode_utf8};

use crate::clock::{long_label, on_calendar, Timestamp, DAY};
use crate::i18n::Locale;
use crate::leaderboard::{points_for, points_of, LeaderboardRow};
use crate::models::{opt_text, User};
use crate::ordering::{
    by_time, by_time_is_a_sorted_permutation, order_by_time, positions, times_are_in_order,
};
use crate::tenant::Tenant;
use crate::text::{
    any_text, capital, capitals, char_rows, chars_of, cuts, decimal, distinct,
    distinct_ignores_repeats, distinct_keeps_each_once, distinct_of_distinct, holds, is_plain,
    lowered, nothing_to_trim, one_piece, pieces, pieces_are_some, pieces_hold_no_separator,
    pieces_part_at_a_separator, replace, replaced, smalls, split, str_eq, string_of, texts,
    to_decimal, trim, trimmed, trimmed_end, trimmed_start, white_space, Cut,
};
use crate::tokens::{
    base64_text, hex_sha256, new_session_id, random_token, token_hash, url_safe,
};

verus! {

/// How long a session lasts.
pub const SESSION_TTL_DAYS: i64 = 30;

/// How long an invitation can be accepted.
pub const INVITE_TTL_DAYS: i64 = 7;

/// The longest address that is taken, in bytes.
pub const MAX_ADDRESS_BYTES: usize = 120;

/// A member, as listed.
#[derive(Debug)]
pub struct MemberRow {
    pub name: String,
    pub email: String,
    pub is_admin: bool,
}

/// A pending invitation, as listed.
#[derive(Debug)]
pub struct InviteRow {
    pub id: u128,
    pub email: String,
    pub expires_label: String,
}

/// The addresses to invite, as submitted.
#[derive(Debug)]
pub struct InviteForm {
    pub emails: String,
}

/// The token of an accept link.
#[derive(Debug)]
pub struct AcceptQuery {
    pub token: String,
}

/// Whether a user may invite: admins always, others if the space lets them.
pub fn can_invite(tenant: &Tenant, user: &User) -> (r: bool)
    ensures
        r == (user.is_admin || tenant.members_can_invite),
{
    user.is_admin || tenant.members_can_invite
}

/// An entry of the address field, normalised.
pub open spec fn entry(part: Seq<char>) -> Seq<char> {
    lowered(trimmed(part))
}

/// Whether an entry is taken for an address.
pub open spec fn is_address(e: Seq<char>) -> bool {
    e.contains('@') && encode_utf8(e).len() <= MAX_ADDRESS_BYTES
}

/// The addresses among some entries, in order.
pub open spec fn only_addresses(parts: Seq<Seq<char>>) -> Seq<Seq<char>>
    decreases parts.len(),
{
    if parts.len() == 0 {
        Seq::empty()
    } else {
        let before = only_addresses(parts.drop_last());
        let e = entry(parts.last());
        if is_address(e) {
            before.push(e)
        } else {
            before
        }
    }
}

/// The addresses in a free-text field, each once, in order of appearance.
pub open spec fn addresses(raw: Seq<char>) -> Seq<Seq<char>> {
    distinct(only_addresses(pieces(raw, Cut::Entry)))
}

/// Splits a free-text field into addresses: at commas, semicolons and white
/// space, lowercased, without duplicates, only entries with an at sign.
pub fn parse_emails(raw: &str) -> (r: Vec<String>)
    ensures
        texts(r@) == addresses(raw@),
{
    let parts: Vec<Vec<char>> = split(raw, Cut::Entry);
    let ghost all = pieces(raw@, Cut::Entry);
    let mut out: Vec<String> = Vec::new();
    let mut i: usize = 0;
    assert(texts(out@) =~= distinct(only_addresses(all.take(0))));
    while i < parts.len()
        invariant
            i <= parts.len(),
            all == char_rows(parts@),
            texts(out@) == distinct(only_addresses(all.take(i as int))),
        decreases parts.len() - i,
    {
        assert(all.take(i + 1).drop_last() =~= all.take(i as int));
        assert(all.take(i + 1).last() == parts@[i as int]@);
        let part: String = string_of(&parts[i]);
        let e: String = trim(part.as_str()).as_str().to_lowercase();
        let chars: Vec<char> = chars_of(e.as_str());
        let ghost known = only_addresses(all.take(i as int));
        if holds(&chars, '@') && e.as_str().as_bytes().len() <= MAX_ADDRESS_BYTES {
            assert(only_addresses(all.take(i + 1)) == known.push(e@));
            assert(known.push(e@).drop_last() =~= known);
            if !any_text(&out, e.as_str()) {
                let ghost before = out@;
                let ghost added = e@;
                out.push(e);
                assert(texts(out@) =~= texts(before).push(added));
            }
        }
        i = i + 1;
    }
    assert(all.take(all.len() as int) =~= all);
    out
}

/// Every address taken from a field has an at sign, is not too long, and stands
/// once.
pub proof fn addresses_are_distinct_and_valid(raw: Seq<char>)
    ensures
        addresses(raw).no_duplicates(),
        forall|i: int| 0 <= i < addresses(raw).len() ==> is_address(#[trigger] addresses(raw)[i]),
{
    let found = only_addresses(pieces(raw, Cut::Entry));
    distinct_keeps_each_once(found);
    only_addresses_are_valid(pieces(raw, Cut::Entry));
    assert forall|i: int| 0 <= i < addresses(raw).len() implies is_address(
        #[trigger] addresses(raw)[i],
    ) by {
        assert(distinct(found).contains(addresses(raw)[i]));
        assert(found.contains(addresses(raw)[i]));
    }
}

proof fn only_addresses_are_valid(parts: Seq<Seq<char>>)
    ensures
        forall|i: int|
            0 <= i < only_addresses(parts).len() ==> is_address(#[trigger] only_addresses(parts)[i]),
    decreases parts.len(),
{
    if parts.len() > 0 {
        let before = only_addresses(parts.drop_last());
        only_addresses_are_valid(parts.drop_last());
        assert forall|i: int| 0 <= i < only_addresses(parts).len() implies is_address(
            #[trigger] only_addresses(parts)[i],
        ) by {
            if i < before.len() {
                assert(is_address(before[i]));
            }
        }
    }
}

/// The addresses of two fields put together.
proof fn addresses_add_up(a: Seq<Seq<char>>, b: Seq<Seq<char>>)
    ensures
        only_addresses(a + b) == only_addresses(a) + only_addresses(b),
    decreases b.len(),
{
    if b.len() == 0 {
        assert(a + b =~= a);
        assert(only_addresses(a) + only_addresses(b) =~= only_addresses(a));
    } else {
        addresses_add_up(a, b.drop_last());
        assert((a + b).drop_last() =~= a + b.drop_last());
        assert(only_addresses(a + b) =~= only_addresses(a) + only_addresses(b));
    }
}

/// Giving a field twice gives the same addresses.
pub proof fn repeating_the_field_changes_nothing(raw: Seq<char>)
    ensures
        addresses(raw + seq![' '] + raw) == addresses(raw),
{
    let parts = pieces(raw, Cut::Entry);
    pieces_part_at_a_separator(raw, ' ', raw, Cut::Entry);
    addresses_add_up(parts, parts);
    let found = only_addresses(parts);
    assert forall|k: int| 0 <= k < found.len() implies found.contains(#[trigger] found[k]) by {}
    distinct_ignores_repeats(found, found);
}

/// Some texts, each in uppercase.
pub open spec fn all_capitals(parts: Seq<Seq<char>>) -> Seq<Seq<char>> {
    Seq::new(parts.len(), |i: int| capitals(parts[i]))
}

/// Whether some texts hold ASCII characters only.
pub open spec fn all_plain(parts: Seq<Seq<char>>) -> bool {
    forall|i: int| 0 <= i < parts.len() ==> is_plain(#[trigger] parts[i])
}

proof fn pieces_are_plain(raw: Seq<char>)
    requires
        is_plain(raw),
    ensures
        all_plain(pieces(raw, Cut::Entry)),
    decreases raw.len(),
{
    if raw.len() > 0 {
        let front = raw.drop_last();
        assert forall|i: int| 0 <= i < front.len() implies #[trigger] front[i] <= '\u{7f}' by {
            assert(front[i] == raw[i]);
        }
        pieces_are_plain(front);
        pieces_are_some(front, Cut::Entry);
        let before = pieces(front, Cut::Entry);
        let all = pieces(raw, Cut::Entry);
        assert(raw[raw.len() - 1] <= '\u{7f}');
        assert forall|i: int| 0 <= i < all.len() implies is_plain(#[trigger] all[i]) by {
            if i < before.len() {
                assert(is_plain(before[i]));
            }
        }
    }
}

proof fn capital_pieces(raw: Seq<char>)
    ensures
        pieces(capitals(raw), Cut::Entry) == all_capitals(pieces(raw, Cut::Entry)),
    decreases raw.len(),
{
    let up = capitals(raw);
    if raw.len() == 0 {
        assert(capitals(Seq::<char>::empty()) =~= Seq::<char>::empty());
        assert(pieces(up, Cut::Entry) =~= all_capitals(pieces(raw, Cut::Entry)));
    } else {
        let front = raw.drop_last();
        capital_pieces(front);
        pieces_are_some(front, Cut::Entry);
        assert(up.drop_last() =~= capitals(front));
        assert(up.last() == capital(raw.last()));
        let before = pieces(front, Cut::Entry);
        assert(capitals(Seq::<char>::empty()) =~= Seq::<char>::empty());
        assert(capitals(before.last().push(raw.last())) =~= capitals(before.last()).push(
            capital(raw.last()),
        ));
        assert(pieces(up, Cut::Entry) =~= all_capitals(pieces(raw, Cut::Entry)));
    }
}

proof fn capital_trimmed_start(s: Seq<char>)
    ensures
        trimmed_start(capitals(s)) == capitals(trimmed_start(s)),
        is_plain(s) ==> is_plain(trimmed_start(s)),
    decreases s.len(),
{
    if s.len() > 0 && white_space(s[0]) {
        assert(capitals(s).drop_first() =~= capitals(s.drop_first()));
        capital_trimmed_start(s.drop_first());
    }
}

proof fn capital_trimmed_end(s: Seq<char>)
    ensures
        trimmed_end(capitals(s)) == capitals(trimmed_end(s)),
        is_plain(s) ==> is_plain(trimmed_end(s)),
    decreases s.len(),
{
    if s.len() > 0 && white_space(s.last()) {
        assert(capitals(s).drop_last() =~= capitals(s.drop_last()));
        capital_trimmed_end(s.drop_last());
    }
}

proof fn capital_entry(part: Seq<char>)
    requires
        is_plain(part),
    ensures
        entry(capitals(part)) == entry(part),
{
    capital_trimmed_start(part);
    capital_trimmed_end(trimmed_start(part));
    let t = trimmed(part);
    assert(trimmed(capitals(part)) == capitals(t));
    assert forall|i: int| 0 <= i < t.len() implies #[trigger] capitals(t)[i] <= '\u{7f}' by {
        assert(t[i] <= '\u{7f}');
    }
    assert(smalls(capitals(t)) =~= smalls(t));
}

proof fn capital_addresses(parts: Seq<Seq<char>>)
    requires
        all_plain(parts),
    ensures
        only_addresses(all_capitals(parts)) == only_addresses(parts),
    decreases parts.len(),
{
    if parts.len() > 0 {
        let front = parts.drop_last();
        assert forall|i: int| 0 <= i < front.len() implies is_plain(#[trigger] front[i]) by {
            assert(is_plain(parts[i]));
        }
        capital_addresses(front);
        assert(all_capitals(parts).drop_last() =~= all_capitals(front));
        assert(is_plain(parts[parts.len() - 1]));
        capital_entry(parts.last());
    }
}

/// Writing an ASCII field in uppercase gives the same addresses.
pub proof fn uppercase_changes_nothing(raw: Seq<char>)
    requires
        is_plain(raw),
    ensures
        addresses(capitals(raw)) == addresses(raw),
{
    pieces_are_plain(raw);
    capital_pieces(raw);
    capital_addresses(pieces(raw, Cut::Entry));
}

/// Some texts with commas between them.
pub open spec fn joined(parts: Seq<Seq<char>>) -> Seq<char>
    decreases parts.len(),
{
    if parts.len() == 0 {
        Seq::empty()
    } else if parts.len() == 1 {
        parts[0]
    } else {
        joined(parts.drop_last()) + seq![','] + parts.last()
    }
}

/// Whether an entry is an address in the form in which it is kept.
spec fn kept(e: Seq<char>) -> bool {
    &&& is_address(e)
    &&& is_plain(e)
    &&& smalls(e) == e
    &&& forall|k: int| 0 <= k < e.len() ==> !cuts(Cut::Entry, #[trigger] e[k])
}

proof fn found_addresses_are_kept(parts: Seq<Seq<char>>)
    requires
        all_plain(parts),
        forall|i: int, k: int|
            0 <= i < parts.len() && 0 <= k < parts[i].len() ==> !cuts(
                Cut::Entry,
                #[trigger] parts[i][k],
            ),
    ensures
        forall|i: int|
            0 <= i < only_addresses(parts).len() ==> kept(#[trigger] only_addresses(parts)[i]),
    decreases parts.len(),
{
    if parts.len() > 0 {
        let front = parts.drop_last();
        let p = parts[parts.len() - 1];
        assert forall|i: int| 0 <= i < front.len() implies is_plain(#[trigger] front[i]) by {
            assert(is_plain(parts[i]));
        }
        assert forall|i: int, k: int|
            0 <= i < front.len() && 0 <= k < front[i].len() implies !cuts(
            Cut::Entry,
            #[trigger] front[i][k],
        ) by {
            assert(front[i][k] == parts[i][k]);
        }
        found_addresses_are_kept(front);
        assert(is_plain(p));
        assert forall|k: int| 0 <= k < p.len() implies !white_space(#[trigger] p[k]) by {
            assert(!cuts(Cut::Entry, parts[parts.len() - 1][k]));
        }
        nothing_to_trim(p);
        let e = entry(p);
        assert(e == smalls(p));
        assert(smalls(e) =~= e);
        assert forall|k: int| 0 <= k < e.len() implies !cuts(Cut::Entry, #[trigger] e[k]) && e[k]
            <= '\u{7f}' by {
            assert(!cuts(Cut::Entry, parts[parts.len() - 1][k]));
            assert(p[k] <= '\u{7f}');
        }
        let before = only_addresses(front);
        assert forall|i: int| 0 <= i < only_addresses(parts).len() implies kept(
            #[trigger] only_addresses(parts)[i],
        ) by {
            if i < before.len() {
                assert(kept(before[i]));
            }
        }
    }
}

proof fn joined_pieces(parts: Seq<Seq<char>>)
    requires
        parts.len() > 0,
        forall|i: int| 0 <= i < parts.len() ==> kept(#[trigger] parts[i]),
    ensures
        pieces(joined(parts), Cut::Entry) == parts,
    decreases parts.len(),
{
    assert(kept(parts[parts.len() - 1]));
    one_piece(parts.last(), Cut::Entry);
    if parts.len() == 1 {
        assert(seq![parts[0]] =~= parts);
    } else {
        let front = parts.drop_last();
        assert forall|i: int| 0 <= i < front.len() implies kept(#[trigger] front[i]) by {
            assert(kept(parts[i]));
        }
        joined_pieces(front);
        pieces_part_at_a_separator(joined(front), ',', parts.last(), Cut::Entry);
        assert(front + seq![parts.last()] =~= parts);
    }
}

proof fn kept_addresses_are_found(parts: Seq<Seq<char>>)
    requires
        forall|i: int| 0 <= i < parts.len() ==> kept(#[trigger] parts[i]),
    ensures
        only_addresses(parts) == parts,
    decreases parts.len(),
{
    if parts.len() > 0 {
        let front = parts.drop_last();
        assert forall|i: int| 0 <= i < front.len() implies kept(#[trigger] front[i]) by {
            assert(kept(parts[i]));
        }
        kept_addresses_are_found(front);
        let e = parts[parts.len() - 1];
        assert(kept(e));
        assert forall|k: int| 0 <= k < e.len() implies !white_space(#[trigger] e[k]) by {
            assert(!cuts(Cut::Entry, e[k]));
        }
        nothing_to_trim(e);
        assert(front.push(e) =~= parts);
    }
}

/// Reading the addresses of an ASCII field again, with commas between them, gives
/// them back.
pub proof fn read_addresses_are_read_again(raw: Seq<char>)
    requires
        is_plain(raw),
    ensures
        addresses(joined(addresses(raw))) == addresses(raw),
{
    let parts = pieces(raw, Cut::Entry);
    let all = addresses(raw);
    pieces_are_plain(raw);
    pieces_hold_no_separator(raw, Cut::Entry);
    found_addresses_are_kept(parts);
    let found = only_addresses(parts);
    distinct_keeps_each_once(found);
    assert forall|i: int| 0 <= i < all.len() implies kept(#[trigger] all[i]) by {
        assert(distinct(found).contains(all[i]));
        assert(found.contains(all[i]));
    }
    if all.len() == 0 {
        let none = Seq::<char>::empty();
        assert(joined(all) == none);
        let one = pieces(none, Cut::Entry);
        assert(one == seq![none]);
        assert(trimmed(none) == none);
        assert(entry(none) =~= none);
        assert(one.drop_last() =~= Seq::<Seq<char>>::empty());
        reveal_with_fuel(only_addresses, 2);
        assert(only_addresses(one) =~= Seq::<Seq<char>>::empty());
        assert(all =~= Seq::<Seq<char>>::empty());
    } else {
        joined_pieces(all);
        kept_addresses_are_found(all);
        distinct_of_distinct(all);
    }
}

/// What becomes of an invitation.
#[derive(Clone, Copy, PartialEq, Eq, Debug, Structural)]
pub enum InviteStatus {
    Pending,
    Accepted,
    Revoked,
    Expired,
}

/// An invitation. Only the hash of its token is kept.
#[derive(Debug)]
pub struct Invitation {
    pub id: u128,
    pub tenant_id: u128,
    pub email: String,
    /// Who sent it; none when it came with the space.
    pub inviter: Option<u128>,
    pub token_hash: String,
    pub status: InviteStatus,
    pub created_at: Timestamp,
    pub expires_at: Timestamp,
    /// Who joined by it, and when.
    pub accepted_by: Option<u128>,
    pub accepted_at: Option<Timestamp>,
}

/// Why no invitation is sent.
#[derive(Clone, Copy, PartialEq, Eq, Debug, Structural)]
pub enum InviteRefusal {
    /// The user may not invite.
    NotAllowed,
    /// Too many invitations in a short time.
    TooMany,
    /// The field holds no address.
    NoAddress,
}

impl InviteRefusal {
    /// The text of a refusal.
    pub open spec fn text(self, loc: Locale) -> Seq<char> {
        match self {
            InviteRefusal::NotAllowed => "Not allowed."@,
            InviteRefusal::TooMany => loc.pick(
                "Trop d'invitations envoyées. Réessaie dans un moment."@,
                "Too many invitations sent. Try again in a moment."@,
            ),
            InviteRefusal::NoAddress => loc.pick(
                "Aucune adresse email valide."@,
                "No valid email address."@,
            ),
        }
    }

    /// The HTTP status of a refusal: the two that can be mended are shown on the
    /// members screen.
    pub fn status(self) -> (r: u16)
        ensures
            r == if self == InviteRefusal::NotAllowed {
                403u16
            } else {
                200u16
            },
    {
        match self {
            InviteRefusal::NotAllowed => 403,
            InviteRefusal::TooMany => 200,
            InviteRefusal::NoAddress => 200,
        }
    }

    /// The text of a refusal.
    pub fn message(self, loc: Locale) -> (r: &'static str)
        ensures
            r@ == self.text(loc),
    {
        match self {
            InviteRefusal::NotAllowed => "Not allowed.",
            InviteRefusal::TooMany => loc.f(
                "Trop d'invitations envoyées. Réessaie dans un moment.",
                "Too many invitations sent. Try again in a moment.",
            ),
            InviteRefusal::NoAddress => loc.f(
                "Aucune adresse email valide.",
                "No valid email address.",
            ),
        }
    }
}

/// The addresses to invite, or why nobody is invited.
pub fn create(
    tenant: &Tenant,
    user: &User,
    within_limit: bool,
    form: &InviteForm,
) -> (r: Result<Vec<String>, InviteRefusal>)
    ensures
        match r {
            Err(InviteRefusal::NotAllowed) => !user.is_admin && !tenant.members_can_invite,
            Err(InviteRefusal::TooMany) => (user.is_admin || tenant.members_can_invite)
                && !within_limit,
            Err(InviteRefusal::NoAddress) => (user.is_admin || tenant.members_can_invite)
                && within_limit && addresses(form.emails@).len() == 0,
            Ok(emails) => (user.is_admin || tenant.members_can_invite) && within_limit && texts(
                emails@,
            ) == addresses(form.emails@) && emails@.len() > 0,
        },
{
    if !can_invite(tenant, user) {
        return Err(InviteRefusal::NotAllowed);
    }
    if !within_limit {
        return Err(InviteRefusal::TooMany);
    }
    let emails: Vec<String> = parse_emails(form.emails.as_str());
    assert(texts(emails@).len() == emails@.len());
    if emails.len() == 0 {
        return Err(InviteRefusal::NoAddress);
    }
    Ok(emails)
}

/// Whether an invitation is the pending one for an address of a space.
pub open spec fn pending_for(inv: Invitation, tenant_id: u128, email: Seq<char>) -> bool {
    inv.tenant_id == tenant_id && inv.email@ == email && inv.status == InviteStatus::Pending
}

/// The position of the pending invitation of an address, or the number of
/// invitations.
pub open spec fn pending_position(
    book: Seq<Invitation>,
    tenant_id: u128,
    email: Seq<char>,
) -> int
    decreases book.len(),
{
    if book.len() == 0 {
        0
    } else if pending_for(book[0], tenant_id, email) {
        0
    } else {
        1 + pending_position(book.drop_first(), tenant_id, email)
    }
}

proof fn pending_bounds(book: Seq<Invitation>, tenant_id: u128, email: Seq<char>)
    ensures
        ({
            let i = pending_position(book, tenant_id, email);
            &&& 0 <= i <= book.len()
            &&& i < book.len() ==> pending_for(book[i], tenant_id, email)
            &&& forall|k: int| 0 <= k < i ==> !pending_for(#[trigger] book[k], tenant_id, email)
        }),
    decreases book.len(),
{
    if book.len() > 0 && !pending_for(book[0], tenant_id, email) {
        let rest = book.drop_first();
        pending_bounds(rest, tenant_id, email);
        let i = pending_position(book, tenant_id, email);
        assert(i < book.len() ==> book[i] == rest[i - 1]);
        assert forall|k: int| 0 <= k < i implies !pending_for(
            #[trigger] book[k],
            tenant_id,
            email,
        ) by {
            if k > 0 {
                assert(book[k] == rest[k - 1]);
            }
        }
    }
}

fn find_pending(book: &Vec<Invitation>, tenant_id: u128, email: &str) -> (r: usize)
    ensures
        r == pending_position(book@, tenant_id, email@),
        r <= book@.len(),
{
    let mut i: usize = 0;
    assert(book@.skip(0) =~= book@);
    while i < book.len()
        invariant
            i <= book.len(),
            pending_position(book@, tenant_id, email@) == i + pending_position(
                book@.skip(i as int),
                tenant_id,
                email@,
            ),
        decreases book.len() - i,
    {
        if book[i].tenant_id == tenant_id && book[i].status == InviteStatus::Pending && str_eq(
            book[i].email.as_str(),
            email,
        ) {
            return i;
        }
        assert(book@.skip(i as int).drop_first() =~= book@.skip(i + 1));
        i = i + 1;
    }
    i
}

/// The invitations after an address is invited: its pending invitation gets the
/// new token and deadline, or a new invitation is added when it has none.
pub open spec fn invited(
    book: Seq<Invitation>,
    fresh: Invitation,
) -> Seq<Invitation> {
    let i = pending_position(book, fresh.tenant_id, fresh.email@);
    if 0 <= i < book.len() {
        book.update(
            i,
            Invitation {
                token_hash: fresh.token_hash,
                expires_at: fresh.expires_at,
                created_at: fresh.created_at,
                inviter: fresh.inviter,
                ..book[i]
            },
        )
    } else {
        book.push(fresh)
    }
}

/// A new invitation: pending, for a week.
pub fn new_invitation(
    id: u128,
    tenant: &Tenant,
    inviter: &User,
    email: String,
    token: &str,
    at: Timestamp,
) -> (r: Invitation)
    requires
        on_calendar(at.secs + INVITE_TTL_DAYS * DAY),
    ensures
        r.id == id,
        r.tenant_id == tenant.id,
        r.email == email,
        r.inviter == Some(inviter.id),
        r.token_hash@ == token_hash(token@),
        r.status == InviteStatus::Pending,
        r.created_at == at,
        r.expires_at == at.shifted(INVITE_TTL_DAYS * DAY),
        r.accepted_by is None,
        r.accepted_at is None,
{
    Invitation {
        id,
        tenant_id: tenant.id,
        email,
        inviter: Some(inviter.id),
        token_hash: hex_sha256(token),
        status: InviteStatus::Pending,
        created_at: at,
        expires_at: at.shift(INVITE_TTL_DAYS * DAY),
        accepted_by: None,
        accepted_at: None,
    }
}

/// Records an invitation: reuses the pending one of the address, if any.
pub fn invite(book: &mut Vec<Invitation>, fresh: Invitation)
    ensures
        final(book)@ == invited(old(book)@, fresh),
{
    let i: usize = find_pending(book, fresh.tenant_id, fresh.email.as_str());
    if i < book.len() {
        let renewed: Invitation = Invitation {
            id: book[i].id,
            tenant_id: book[i].tenant_id,
            email: book[i].email.clone(),
            inviter: fresh.inviter,
            token_hash: fresh.token_hash,
            status: book[i].status,
            created_at: fresh.created_at,
            expires_at: fresh.expires_at,
            accepted_by: book[i].accepted_by,
            accepted_at: book[i].accepted_at,
        };
        book.set(i, renewed);
    } else {
        book.push(fresh);
    }
}

/// The link that accepts an invitation.
pub open spec fn accept_url(tenant_url: Seq<char>, token: Seq<char>) -> Seq<char> {
    tenant_url + "/invite/accept?token="@ + token
}

/// The link that accepts an invitation.
pub fn accept_link(tenant_url: &str, token: &str) -> (r: String)
    ensures
        r@ == accept_url(tenant_url@, token@),
{
    let mut link: String = tenant_url.to_owned();
    link.append("/invite/accept?token=");
    link.append(token);
    link
}

/// A new invitation: pending, for a week.
pub open spec fn is_fresh(
    inv: Invitation,
    id: u128,
    tenant_id: u128,
    inviter: u128,
    email: Seq<char>,
    token: Seq<char>,
    at: Timestamp,
) -> bool {
    &&& inv.id == id
    &&& inv.tenant_id == tenant_id
    &&& inv.email@ == email
    &&& inv.inviter == Some(inviter)
    &&& inv.token_hash@ == token_hash(token)
    &&& inv.status == InviteStatus::Pending
    &&& inv.created_at == at
    &&& inv.expires_at == at.shifted(INVITE_TTL_DAYS * DAY)
    &&& inv.accepted_by is None
    &&& inv.accepted_at is None
}

/// Invites one address with a given token, unless it belongs to a member: the
/// invitation is recorded, and the link to mail comes back.
pub fn invite_with(
    book: &mut Vec<Invitation>,
    tenant: &Tenant,
    inviter: &User,
    members: &Vec<String>,
    id: u128,
    email: &str,
    token: &str,
    tenant_url: &str,
    at: Timestamp,
) -> (r: Option<String>)
    requires
        on_calendar(at.secs + INVITE_TTL_DAYS * DAY),
    ensures
        texts(members@).contains(email@) ==> r is None && final(book)@ == old(book)@,
        !texts(members@).contains(email@) ==> {
            &&& opt_text(r) == Some(accept_url(tenant_url@, token@))
            &&& exists|fresh: Invitation|
                is_fresh(fresh, id, tenant.id, inviter.id, email@, token@, at) && final(book)@
                    == #[trigger] invited(old(book)@, fresh)
        },
{
    if any_text(members, email) {
        return None;
    }
    let fresh: Invitation = new_invitation(id, tenant, inviter, email.to_owned(), token, at);
    invite(book, fresh);
    Some(accept_link(tenant_url, token))
}

/// Invites one address with a random token, unless it belongs to a member.
pub fn invite_address(
    book: &mut Vec<Invitation>,
    tenant: &Tenant,
    inviter: &User,
    members: &Vec<String>,
    id: u128,
    email: &str,
    tenant_url: &str,
    at: Timestamp,
) -> (r: Option<String>)
    requires
        on_calendar(at.secs + INVITE_TTL_DAYS * DAY),
    ensures
        texts(members@).contains(email@) ==> r is None && final(book)@ == old(book)@,
        !texts(members@).contains(email@) ==> exists|token: Seq<char>, fresh: Invitation|
            {
                &&& exists|bytes: Seq<u8>|
                    bytes.len() == 32 && token == #[trigger] base64_text(bytes)
                &&& token.len() == 43
                &&& forall|k: int| 0 <= k < token.len() ==> url_safe(#[trigger] token[k])
                &&& opt_text(r) == Some(#[trigger] accept_url(tenant_url@, token))
                &&& is_fresh(fresh, id, tenant.id, inviter.id, email@, token, at)
                &&& final(book)@ == #[trigger] invited(old(book)@, fresh)
            },
{
    let token: String = random_token();
    invite_with(book, tenant, inviter, members, id, email, token.as_str(), tenant_url, at)
}

/// What happened to the addresses of one request.
#[derive(Clone, Copy, PartialEq, Eq, Debug, Structural)]
pub struct Tally {
    pub invited: u64,
    pub already: u64,
    pub failed: u64,
}

/// How one address fared.
#[derive(Clone, Copy, PartialEq, Eq, Debug, Structural)]
pub enum Fate {
    /// The invitation was mailed.
    Sent,
    /// The address belongs to a member.
    AlreadyMember,
    /// The mail could not be sent.
    Failed,
}

impl Tally {
    /// The tally with one more address.
    pub open spec fn plus(self, fate: Fate) -> Tally {
        match fate {
            Fate::Sent => Tally { invited: (self.invited + 1) as u64, ..self },
            Fate::AlreadyMember => Tally { already: (self.already + 1) as u64, ..self },
            Fate::Failed => Tally { failed: (self.failed + 1) as u64, ..self },
        }
    }

    /// Counts one address.
    pub fn count(self, fate: Fate) -> (r: Tally)
        requires
            self.invited < u64::MAX,
            self.already < u64::MAX,
            self.failed < u64::MAX,
        ensures
            r == self.plus(fate),
    {
        match fate {
            Fate::Sent => Tally { invited: self.invited + 1, ..self },
            Fate::AlreadyMember => Tally { already: self.already + 1, ..self },
            Fate::Failed => Tally { failed: self.failed + 1, ..self },
        }
    }
}

/// How many addresses fared in a given way.
pub open spec fn fates(all: Seq<Fate>, fate: Fate) -> nat {
    all.filter(|f: Fate| f == fate).len()
}

proof fn fates_grow(all: Seq<Fate>, n: int, fate: Fate)
    requires
        0 <= n < all.len(),
    ensures
        fates(all.take(n + 1), fate) == fates(all.take(n), fate) + if all[n] == fate {
            1nat
        } else {
            0nat
        },
{
    reveal(Seq::filter);
    assert(all.take(n + 1).drop_last() =~= all.take(n));
}

/// Counts how all the addresses of a request fared.
pub fn tally(all: &Vec<Fate>) -> (r: Tally)
    ensures
        r.invited == fates(all@, Fate::Sent),
        r.already == fates(all@, Fate::AlreadyMember),
        r.failed == fates(all@, Fate::Failed),
        r.invited + r.already + r.failed == all@.len(),
{
    let mut out: Tally = Tally { invited: 0, already: 0, failed: 0 };
    let mut i: usize = 0;
    proof {
        reveal(Seq::filter);
        assert(all@.take(0) =~= Seq::empty());
    }
    while i < all.len()
        invariant
            i <= all.len(),
            out.invited == fates(all@.take(i as int), Fate::Sent),
            out.already == fates(all@.take(i as int), Fate::AlreadyMember),
            out.failed == fates(all@.take(i as int), Fate::Failed),
            out.invited + out.already + out.failed == i,
        decreases all.len() - i,
    {
        proof {
            fates_grow(all@, i as int, Fate::Sent);
            fates_grow(all@, i as int, Fate::AlreadyMember);
            fates_grow(all@, i as int, Fate::Failed);
        }
        out = out.count(all[i]);
        i = i + 1;
    }
    assert(all@.take(all@.len() as int) =~= all@);
    out
}

/// The summary shown after a request.
pub open spec fn notice_text(t: Tally, loc: Locale) -> Seq<char> {
    match loc {
        Locale::Fr => decimal(t.invited as int) + " invitation(s) envoyée(s), "@ + decimal(
            t.already as int,
        ) + " déjà membre(s), "@ + decimal(t.failed as int) + " échec(s)."@,
        Locale::En => decimal(t.invited as int) + " invitation(s) sent, "@ + decimal(
            t.already as int,
        ) + " already member(s), "@ + decimal(t.failed as int) + " failed."@,
    }
}

/// The summary shown after a request.
pub fn notice(t: Tally, loc: Locale) -> (r: String)
    requires
        t.invited <= i64::MAX,
        t.already <= i64::MAX,
        t.failed <= i64::MAX,
    ensures
        r@ == notice_text(t, loc),
{
    let mut out: String = to_decimal(t.invited as i64);
    out.append(loc.f(" invitation(s) envoyée(s), ", " invitation(s) sent, "));
    out.append(to_decimal(t.already as i64).as_str());
    out.append(loc.f(" déjà membre(s), ", " already member(s), "));
    out.append(to_decimal(t.failed as i64).as_str());
    out.append(loc.f(" échec(s).", " failed."));
    out
}

/// Whether a user may revoke an invitation: it is pending in their space, and
/// they sent it or are an admin.
pub open spec fn revocable(inv: Invitation, id: u128, tenant_id: u128, user: User) -> bool {
    &&& inv.id == id
    &&& inv.tenant_id == tenant_id
    &&& inv.status == InviteStatus::Pending
    &&& user.is_admin || inv.inviter == Some(user.id)
}

/// The invitations after a request to revoke one.
pub open spec fn after_revoke(
    book: Seq<Invitation>,
    id: u128,
    tenant_id: u128,
    user: User,
) -> Seq<Invitation> {
    Seq::new(
        book.len(),
        |i: int|
            if revocable(book[i], id, tenant_id, user) {
                Invitation { status: InviteStatus::Revoked, ..book[i] }
            } else {
                book[i]
            },
    )
}

fn with_status(inv: &Invitation, status: InviteStatus) -> (r: Invitation)
    ensures
        r == (Invitation { status, ..*inv }),
{
    Invitation {
        id: inv.id,
        tenant_id: inv.tenant_id,
        email: inv.email.clone(),
        inviter: inv.inviter,
        token_hash: inv.token_hash.clone(),
        status,
        created_at: inv.created_at,
        expires_at: inv.expires_at,
        accepted_by: inv.accepted_by,
        accepted_at: inv.accepted_at,
    }
}

/// Revokes an invitation, if the user may.
pub fn revoke(book: &mut Vec<Invitation>, id: u128, tenant_id: u128, user: &User)
    ensures
        final(book)@ == after_revoke(old(book)@, id, tenant_id, *user),
{
    let ghost start = book@;
    let n: usize = book.len();
    let mut i: usize = 0;
    while i < n
        invariant
            i <= n,
            n == book@.len(),
            n == start.len(),
            forall|k: int|
                0 <= k < i ==> #[trigger] book@[k] == after_revoke(start, id, tenant_id, *user)[k],
            forall|k: int| i <= k < n ==> #[trigger] book@[k] == start[k],
        decreases n - i,
    {
        let mine: bool = user.is_admin || book[i].inviter == Some(user.id);
        if book[i].id == id && book[i].tenant_id == tenant_id && book[i].status
            == InviteStatus::Pending && mine {
            let revoked: Invitation = with_status(&book[i], InviteStatus::Revoked);
            book.set(i, revoked);
        }
        i = i + 1;
    }
    assert(book@ =~= after_revoke(start, id, tenant_id, *user));
}

/// The invitations after those past their deadline are expired.
pub open spec fn after_cleanup(book: Seq<Invitation>, at: Timestamp) -> Seq<Invitation> {
    Seq::new(
        book.len(),
        |i: int|
            if book[i].status == InviteStatus::Pending && book[i].expires_at.lt(at) {
                Invitation { status: InviteStatus::Expired, ..book[i] }
            } else {
                book[i]
            },
    )
}

/// Expires the pending invitations past their deadline.
pub fn expire_overdue(book: &mut Vec<Invitation>, at: Timestamp)
    ensures
        final(book)@ == after_cleanup(old(book)@, at),
{
    let ghost start = book@;
    let n: usize = book.len();
    let mut i: usize = 0;
    while i < n
        invariant
            i <= n,
            n == book@.len(),
            n == start.len(),
            forall|k: int| 0 <= k < i ==> #[trigger] book@[k] == after_cleanup(start, at)[k],
            forall|k: int| i <= k < n ==> #[trigger] book@[k] == start[k],
        decreases n - i,
    {
        if book[i].status == InviteStatus::Pending && book[i].expires_at.before(at) {
            let expired: Invitation = with_status(&book[i], InviteStatus::Expired);
            book.set(i, expired);
        }
        i = i + 1;
    }
    assert(book@ =~= after_cleanup(start, at));
}

/// Why a link does not let anyone in.
#[derive(Clone, Copy, PartialEq, Eq, Debug, Structural)]
pub enum AcceptRefusal {
    /// No invitation of this space has that token.
    InvalidLink,
    /// The invitation was accepted, revoked or expired before.
    NoLongerValid,
    /// The deadline has passed.
    Expired,
}

impl AcceptRefusal {
    /// The text of a refusal.
    pub open spec fn text(self, loc: Locale) -> Seq<char> {
        match self {
            AcceptRefusal::InvalidLink => loc.pick("Lien invalide."@, "Invalid link."@),
            AcceptRefusal::NoLongerValid => loc.pick(
                "Cette invitation n'est plus valable."@,
                "This invitation is no longer valid."@,
            ),
            AcceptRefusal::Expired => loc.pick(
                "Cette invitation a expiré."@,
                "This invitation has expired."@,
            ),
        }
    }

    /// The HTTP status of a refusal.
    pub fn status(self) -> (r: u16)
        ensures
            r == 400,
    {
        400
    }

    /// The text of a refusal.
    pub fn message(self, loc: Locale) -> (r: &'static str)
        ensures
            r@ == self.text(loc),
    {
        match self {
            AcceptRefusal::InvalidLink => loc.f("Lien invalide.", "Invalid link."),
            AcceptRefusal::NoLongerValid => loc.f(
                "Cette invitation n'est plus valable.",
                "This invitation is no longer valid.",
            ),
            AcceptRefusal::Expired => loc.f(
                "Cette invitation a expiré.",
                "This invitation has expired.",
            ),
        }
    }
}

/// The position of the invitation of a space with a given token hash, or the
/// number of invitations.
pub open spec fn hash_position(book: Seq<Invitation>, tenant_id: u128, hash: Seq<char>) -> int
    decreases book.len(),
{
    if book.len() == 0 {
        0
    } else if book[0].tenant_id == tenant_id && book[0].token_hash@ == hash {
        0
    } else {
        1 + hash_position(book.drop_first(), tenant_id, hash)
    }
}

proof fn hash_bounds(book: Seq<Invitation>, tenant_id: u128, hash: Seq<char>)
    ensures
        ({
            let i = hash_position(book, tenant_id, hash);
            &&& 0 <= i <= book.len()
            &&& i < book.len() ==> book[i].tenant_id == tenant_id && book[i].token_hash@ == hash
            &&& forall|k: int|
                0 <= k < i ==> !((#[trigger] book[k]).tenant_id == tenant_id && book[k].token_hash@
                    == hash)
        }),
    decreases book.len(),
{
    if book.len() > 0 && !(book[0].tenant_id == tenant_id && book[0].token_hash@ == hash) {
        let rest = book.drop_first();
        hash_bounds(rest, tenant_id, hash);
        let i = hash_position(book, tenant_id, hash);
        assert(i < book.len() ==> book[i] == rest[i - 1]);
        assert forall|k: int| 0 <= k < i implies !((#[trigger] book[k]).tenant_id == tenant_id
            && book[k].token_hash@ == hash) by {
            if k > 0 {
                assert(book[k] == rest[k - 1]);
            }
        }
    }
}

fn find_hash(book: &Vec<Invitation>, tenant_id: u128, hash: &str) -> (r: usize)
    ensures
        r == hash_position(book@, tenant_id, hash@),
        r <= book@.len(),
{
    let mut i: usize = 0;
    assert(book@.skip(0) =~= book@);
    while i < book.len()
        invariant
            i <= book.len(),
            hash_position(book@, tenant_id, hash@) == i + hash_position(
                book@.skip(i as int),
                tenant_id,
                hash@,
            ),
        decreases book.len() - i,
    {
        if book[i].tenant_id == tenant_id && str_eq(book[i].token_hash.as_str(), hash) {
            return i;
        }
        assert(book@.skip(i as int).drop_first() =~= book@.skip(i + 1));
        i = i + 1;
    }
    i
}

/// Why a token with a given hash does not let anyone in, if it does not.
pub open spec fn accept_refusal(
    book: Seq<Invitation>,
    tenant_id: u128,
    hash: Seq<char>,
    at: Timestamp,
) -> Option<AcceptRefusal> {
    let i = hash_position(book, tenant_id, hash);
    if !(0 <= i < book.len()) {
        Some(AcceptRefusal::InvalidLink)
    } else if book[i].status != InviteStatus::Pending {
        Some(AcceptRefusal::NoLongerValid)
    } else if book[i].expires_at.lt(at) {
        Some(AcceptRefusal::Expired)
    } else {
        None
    }
}

/// An invitation by which a member joined.
pub open spec fn used_by(inv: Invitation, by: u128, at: Timestamp) -> Invitation {
    Invitation {
        status: InviteStatus::Accepted,
        accepted_by: Some(by),
        accepted_at: Some(at),
        ..inv
    }
}

/// The invitations after a link with a given token hash was followed: a good
/// one is used up by the member who joins, one past its deadline is marked so.
pub open spec fn after_accept(
    book: Seq<Invitation>,
    tenant_id: u128,
    hash: Seq<char>,
    by: u128,
    at: Timestamp,
) -> Seq<Invitation> {
    let i = hash_position(book, tenant_id, hash);
    match accept_refusal(book, tenant_id, hash, at) {
        None => book.update(i, used_by(book[i], by, at)),
        Some(AcceptRefusal::Expired) => book.update(
            i,
            Invitation { status: InviteStatus::Expired, ..book[i] },
        ),
        Some(_) => book,
    }
}

/// The name a new member starts with: what stands before the at sign of their
/// address, with dots and underscores as spaces.
pub open spec fn starting_name(email: Seq<char>) -> Seq<char> {
    replaced(replaced(pieces(email, Cut::At)[0], '.', " "@), '_', " "@)
}

/// The name a new member starts with.
pub fn display_name(email: &str) -> (r: String)
    ensures
        r@ == starting_name(email@),
{
    let parts: Vec<Vec<char>> = split(email, Cut::At);
    assert(char_rows(parts@)[0] == parts@[0]@);
    let local: String = string_of(&parts[0]);
    replace(replace(local.as_str(), '.', " ").as_str(), '_', " ")
}

/// A member's account in a space.
#[derive(Debug)]
pub struct Account {
    pub tenant_id: u128,
    pub user: User,
    /// Code of the language they chose.
    pub lang: String,
}

/// The position of the account with an address in a space, or the number of
/// accounts.
pub open spec fn account_position(
    accounts: Seq<Account>,
    tenant_id: u128,
    email: Seq<char>,
) -> int
    decreases accounts.len(),
{
    if accounts.len() == 0 {
        0
    } else if accounts[0].tenant_id == tenant_id && accounts[0].user.email@ == email {
        0
    } else {
        1 + account_position(accounts.drop_first(), tenant_id, email)
    }
}

proof fn account_bounds(accounts: Seq<Account>, tenant_id: u128, email: Seq<char>)
    ensures
        ({
            let i = account_position(accounts, tenant_id, email);
            &&& 0 <= i <= accounts.len()
            &&& i < accounts.len() ==> accounts[i].tenant_id == tenant_id && accounts[i].user.email@
                == email
            &&& forall|k: int|
                0 <= k < i ==> !((#[trigger] accounts[k]).tenant_id == tenant_id
                    && accounts[k].user.email@ == email)
        }),
    decreases accounts.len(),
{
    if accounts.len() > 0 && !(accounts[0].tenant_id == tenant_id && accounts[0].user.email@
        == email) {
        let rest = accounts.drop_first();
        account_bounds(rest, tenant_id, email);
        let i = account_position(accounts, tenant_id, email);
        assert(i < accounts.len() ==> accounts[i] == rest[i - 1]);
        assert forall|k: int| 0 <= k < i implies !((#[trigger] accounts[k]).tenant_id == tenant_id
            && accounts[k].user.email@ == email) by {
            if k > 0 {
                assert(accounts[k] == rest[k - 1]);
            }
        }
    }
}

fn find_account(accounts: &Vec<Account>, tenant_id: u128, email: &str) -> (r: usize)
    ensures
        r == account_position(accounts@, tenant_id, email@),
        r <= accounts@.len(),
{
    let mut i: usize = 0;
    assert(accounts@.skip(0) =~= accounts@);
    while i < accounts.len()
        invariant
            i <= accounts.len(),
            account_position(accounts@, tenant_id, email@) == i + account_position(
                accounts@.skip(i as int),
                tenant_id,
                email@,
            ),
        decreases accounts.len() - i,
    {
        if accounts[i].tenant_id == tenant_id && str_eq(accounts[i].user.email.as_str(), email) {
            return i;
        }
        assert(accounts@.skip(i as int).drop_first() =~= accounts@.skip(i + 1));
        i = i + 1;
    }
    i
}

/// Whether this is the account that an invitee starts with: no admin, with a name
/// made from their address.
pub open spec fn is_new_account(
    account: Account,
    tenant_id: u128,
    id: u128,
    email: Seq<char>,
    loc: Locale,
    at: Timestamp,
) -> bool {
    &&& account.tenant_id == tenant_id
    &&& account.user.id == id
    &&& account.user.email@ == email
    &&& account.user.display_name@ == starting_name(email)
    &&& !account.user.is_admin
    &&& account.user.created_at == at
    &&& account.user.stake_eur is None
    &&& account.user.stake_chosen_at is None
    &&& account.user.paid_at is None
    &&& account.lang@ == loc.pick("fr"@, "en"@)
}

/// Whether someone with an address joined a space as `by`: an account they had
/// is theirs and stays as it was, otherwise they get a new one.
pub open spec fn has_joined(
    before: Seq<Account>,
    after: Seq<Account>,
    tenant_id: u128,
    email: Seq<char>,
    id: u128,
    loc: Locale,
    at: Timestamp,
    by: u128,
) -> bool {
    let i = account_position(before, tenant_id, email);
    if 0 <= i < before.len() {
        after == before && by == before[i].user.id
    } else {
        &&& by == id
        &&& after.len() == before.len() + 1
        &&& after == before.push(after.last())
        &&& is_new_account(after.last(), tenant_id, id, email, loc, at)
    }
}

/// Lets someone with an address join a space, and says as whom. `id` is for a new
/// account.
pub fn join(
    accounts: &mut Vec<Account>,
    tenant_id: u128,
    email: &str,
    id: u128,
    loc: Locale,
    at: Timestamp,
) -> (r: u128)
    ensures
        has_joined(old(accounts)@, final(accounts)@, tenant_id, email@, id, loc, at, r),
{
    let i: usize = find_account(accounts, tenant_id, email);
    if i < accounts.len() {
        return accounts[i].user.id;
    }
    let user: User = User {
        id,
        email: email.to_owned(),
        display_name: display_name(email),
        is_admin: false,
        created_at: at,
        stake_eur: None,
        stake_chosen_at: None,
        paid_at: None,
    };
    accounts.push(Account { tenant_id, user, lang: loc.code().to_owned() });
    id
}

/// A signed-in browser.
#[derive(Clone, Copy, PartialEq, Eq, Debug, Structural)]
pub struct Session {
    pub id: u128,
    pub tenant_id: u128,
    pub user_id: u128,
    pub expires_at: Timestamp,
}

/// Whether this is a session that was opened for a user, with an id of the random
/// kind, for thirty days.
pub open spec fn is_opened(session: Session, tenant_id: u128, user_id: u128, at: Timestamp) -> bool {
    &&& session.tenant_id == tenant_id
    &&& session.user_id == user_id
    &&& session.expires_at == at.shifted(SESSION_TTL_DAYS * DAY)
    &&& (session.id >> 76) & 0xf == 4
    &&& (session.id >> 62) & 0x3 == 2
}

/// Opens a session for a user, with a fresh id, for thirty days.
pub fn open_session(tenant_id: u128, user_id: u128, at: Timestamp) -> (r: Session)
    requires
        on_calendar(at.secs + SESSION_TTL_DAYS * DAY),
    ensures
        is_opened(r, tenant_id, user_id, at),
{
    Session {
        id: new_session_id(),
        tenant_id,
        user_id,
        expires_at: at.shift(SESSION_TTL_DAYS * DAY),
    }
}

/// Where a browser goes once someone joined.
pub const HOME: &'static str = "/today";

/// Follows an accept link. The invitation is looked up by the hash of the token
/// within the space, and can be used once, before its deadline. Whoever follows a
/// good link is a member afterwards, the one the invitation was used by, and is
/// signed in. A refused link changes no account and opens no session.
pub fn accept(
    book: &mut Vec<Invitation>,
    accounts: &mut Vec<Account>,
    sessions: &mut Vec<Session>,
    tenant_id: u128,
    query: &AcceptQuery,
    id: u128,
    loc: Locale,
    at: Timestamp,
) -> (r: Result<Session, AcceptRefusal>)
    requires
        on_calendar(at.secs + SESSION_TTL_DAYS * DAY),
    ensures
        match accept_refusal(old(book)@, tenant_id, token_hash(query.token@), at) {
            Some(why) => {
                &&& r is Err
                &&& r->Err_0 == why
                &&& final(accounts)@ == old(accounts)@
                &&& final(sessions)@ == old(sessions)@
                &&& forall|by: u128|
                    final(book)@ == #[trigger] after_accept(
                        old(book)@,
                        tenant_id,
                        token_hash(query.token@),
                        by,
                        at,
                    )
            },
            None => {
                let inv = old(book)@[hash_position(
                    old(book)@,
                    tenant_id,
                    token_hash(query.token@),
                )];
                &&& r is Ok
                &&& is_opened(r->Ok_0, tenant_id, r->Ok_0.user_id, at)
                &&& final(sessions)@ == old(sessions)@.push(r->Ok_0)
                &&& has_joined(
                    old(accounts)@,
                    final(accounts)@,
                    tenant_id,
                    inv.email@,
                    id,
                    loc,
                    at,
                    r->Ok_0.user_id,
                )
                &&& final(book)@ == after_accept(
                    old(book)@,
                    tenant_id,
                    token_hash(query.token@),
                    r->Ok_0.user_id,
                    at,
                )
            },
        },
{
    let hash: String = hex_sha256(query.token.as_str());
    match accept_hash(book, accounts, tenant_id, hash.as_str(), id, loc, at) {
        Ok(user_id) => {
            let session: Session = open_session(tenant_id, user_id, at);
            sessions.push(session);
            Ok(session)
        },
        Err(why) => Err(why),
    }
}

/// Follows an accept link whose token has the given hash, and says who joined.
pub fn accept_hash(
    book: &mut Vec<Invitation>,
    accounts: &mut Vec<Account>,
    tenant_id: u128,
    hash: &str,
    id: u128,
    loc: Locale,
    at: Timestamp,
) -> (r: Result<u128, AcceptRefusal>)
    ensures
        match accept_refusal(old(book)@, tenant_id, hash@, at) {
            Some(why) => {
                &&& r is Err
                &&& r->Err_0 == why
                &&& final(accounts)@ == old(accounts)@
                &&& forall|by: u128|
                    final(book)@ == #[trigger] after_accept(old(book)@, tenant_id, hash@, by, at)
            },
            None => {
                let inv = old(book)@[hash_position(old(book)@, tenant_id, hash@)];
                &&& r is Ok
                &&& has_joined(
                    old(accounts)@,
                    final(accounts)@,
                    tenant_id,
                    inv.email@,
                    id,
                    loc,
                    at,
                    r->Ok_0,
                )
                &&& final(book)@ == after_accept(old(book)@, tenant_id, hash@, r->Ok_0, at)
            },
        },
{
    let i: usize = find_hash(book, tenant_id, hash);
    if i >= book.len() {
        return Err(AcceptRefusal::InvalidLink);
    }
    if book[i].status != InviteStatus::Pending {
        return Err(AcceptRefusal::NoLongerValid);
    }
    if book[i].expires_at.before(at) {
        let expired: Invitation = with_status(&book[i], InviteStatus::Expired);
        book.set(i, expired);
        return Err(AcceptRefusal::Expired);
    }
    let user_id: u128 = join(accounts, tenant_id, book[i].email.as_str(), id, loc, at);
    let used: Invitation = Invitation {
        accepted_by: Some(user_id),
        accepted_at: Some(at),
        ..with_status(&book[i], InviteStatus::Accepted)
    };
    book.set(i, used);
    Ok(user_id)
}

/// The line of a pending invitation on the members screen.
pub fn invite_row(inv: &Invitation) -> (r: InviteRow)
    requires
        inv.expires_at.valid(),
    ensures
        r.id == inv.id,
        r.email == inv.email,
        r.expires_label@ == long_label(inv.expires_at.day()),
{
    InviteRow {
        id: inv.id,
        email: inv.email.clone(),
        expires_label: inv.expires_at.date().label(),
    }
}

/// What the members screen shows.
#[derive(Debug)]
pub struct MembersView {
    pub user_name: String,
    pub total_points: i32,
    pub is_admin: bool,
    pub can_invite: bool,
    pub members: Vec<MemberRow>,
    pub invites: Vec<InviteRow>,
    pub notice: Option<String>,
    pub error: Option<String>,
}

/// When some invitations were sent.
pub open spec fn sent_times(book: Seq<Invitation>) -> Seq<Timestamp> {
    Seq::new(book.len(), |i: int| book[i].created_at)
}

/// Some invitations, newest first.
pub open spec fn newest_first(book: Seq<Invitation>) -> Seq<Invitation> {
    let order = by_time(sent_times(book));
    Seq::new(order.len(), |i: int| book[order[order.len() - 1 - i]])
}

/// The pending ones of a space among some invitations, in order.
pub open spec fn pending_of(book: Seq<Invitation>, tenant_id: u128) -> Seq<Invitation> {
    book.filter(|inv: Invitation| is_pending_in(inv, tenant_id))
}

/// Whether an invitation is a pending one of a space.
pub open spec fn is_pending_in(inv: Invitation, tenant_id: u128) -> bool {
    inv.tenant_id == tenant_id && inv.status == InviteStatus::Pending
}

/// Whether some lines list some invitations.
pub open spec fn lists(rows: Seq<InviteRow>, invites: Seq<Invitation>) -> bool {
    &&& rows.len() == invites.len()
    &&& forall|i: int|
        0 <= i < rows.len() ==> (#[trigger] rows[i]).id == invites[i].id && rows[i].email
            == invites[i].email && rows[i].expires_label@ == long_label(
            invites[i].expires_at.day(),
        )
}

/// The lines of the pending invitations of a space, newest first.
pub fn pending_rows(book: &Vec<Invitation>, tenant_id: u128) -> (r: Vec<InviteRow>)
    requires
        forall|i: int| 0 <= i < book@.len() ==> (#[trigger] book@[i]).expires_at.valid(),
    ensures
        lists(r@, pending_of(newest_first(book@), tenant_id)),
{
    let mut times: Vec<Timestamp> = Vec::new();
    let mut t: usize = 0;
    while t < book.len()
        invariant
            t <= book.len(),
            times@ =~= sent_times(book@).take(t as int),
        decreases book.len() - t,
    {
        times.push(book[t].created_at);
        t = t + 1;
    }
    assert(times@ =~= sent_times(book@));
    let order: Vec<usize> = order_by_time(&times);
    let ghost all = newest_first(book@);
    let n: usize = order.len();
    let mut out: Vec<InviteRow> = Vec::new();
    let mut i: usize = 0;
    proof {
        reveal(Seq::filter);
        assert(all.take(0) =~= Seq::empty());
    }
    while i < n
        invariant
            i <= n,
            n == order@.len(),
            all == newest_first(book@),
            all.len() == n,
            positions(order@) == by_time(sent_times(book@)),
            forall|k: int| 0 <= k < order@.len() ==> (#[trigger] order@[k]) < book@.len(),
            forall|k: int| 0 <= k < book@.len() ==> (#[trigger] book@[k]).expires_at.valid(),
            lists(out@, pending_of(all.take(i as int), tenant_id)),
        decreases n - i,
    {
        let inv: &Invitation = &book[order[n - 1 - i]];
        proof {
            reveal(Seq::filter);
            assert(positions(order@)[n - 1 - i] == order@[n - 1 - i]);
            assert(all[i as int] == *inv);
            assert(all.take(i + 1).drop_last() =~= all.take(i as int));
        }
        if inv.tenant_id == tenant_id && inv.status == InviteStatus::Pending {
            out.push(invite_row(inv));
        }
        i = i + 1;
    }
    assert(all.take(all.len() as int) =~= all);
    out
}

/// What the members screen shows to a user.
pub fn render_members(
    tenant: &Tenant,
    user: &User,
    members: Vec<MemberRow>,
    book: &Vec<Invitation>,
    board: &Vec<LeaderboardRow>,
    notice: Option<String>,
    error: Option<String>,
) -> (r: MembersView)
    requires
        forall|i: int| 0 <= i < book@.len() ==> (#[trigger] book@[i]).expires_at.valid(),
    ensures
        r.user_name == user.display_name,
        r.total_points == points_of(board@, user.id),
        r.is_admin == user.is_admin,
        r.can_invite == (user.is_admin || tenant.members_can_invite),
        r.members == members,
        lists(r.invites@, pending_of(newest_first(book@), tenant.id)),
        r.notice == notice,
        r.error == error,
{
    MembersView {
        user_name: user.display_name.clone(),
        total_points: points_for(board, user.id),
        is_admin: user.is_admin,
        can_invite: can_invite(tenant, user),
        members,
        invites: pending_rows(book, tenant.id),
        notice,
        error,
    }
}

/// Whether every address of a space has at most one pending invitation.
pub open spec fn one_pending_per_address(book: Seq<Invitation>) -> bool {
    forall|i: int, j: int|
        0 <= i < j < book.len() && (#[trigger] book[i]).status == InviteStatus::Pending && (
        #[trigger] book[j]).status == InviteStatus::Pending ==> !(book[i].tenant_id
            == book[j].tenant_id && book[i].email@ == book[j].email@)
}

/// Inviting an address never leaves it with two pending invitations.
pub proof fn inviting_keeps_one_pending(book: Seq<Invitation>, fresh: Invitation)
    requires
        one_pending_per_address(book),
    ensures
        one_pending_per_address(invited(book, fresh)),
{
    let after = invited(book, fresh);
    let p = pending_position(book, fresh.tenant_id, fresh.email@);
    pending_bounds(book, fresh.tenant_id, fresh.email@);
    assert forall|i: int, j: int|
        0 <= i < j < after.len() && (#[trigger] after[i]).status == InviteStatus::Pending && (
        #[trigger] after[j]).status == InviteStatus::Pending implies !(after[i].tenant_id
        == after[j].tenant_id && after[i].email@ == after[j].email@) by {
        assert(book[i].status == after[i].status && book[i].email == after[i].email
            && book[i].tenant_id == after[i].tenant_id);
        if j < book.len() {
            assert(book[j].status == after[j].status && book[j].email == after[j].email
                && book[j].tenant_id == after[j].tenant_id);
        } else {
            assert(!pending_for(book[i], fresh.tenant_id, fresh.email@));
        }
    }
}

/// Revoking, expiring and accepting never make an invitation pending again.
pub proof fn settled_invitations_stay_settled(
    book: Seq<Invitation>,
    id: u128,
    tenant_id: u128,
    user: User,
    hash: Seq<char>,
    by: u128,
    at: Timestamp,
    i: int,
)
    requires
        0 <= i < book.len(),
        book[i].status != InviteStatus::Pending,
    ensures
        after_revoke(book, id, tenant_id, user)[i] == book[i],
        after_cleanup(book, at)[i] == book[i],
        after_accept(book, tenant_id, hash, by, at)[i] == book[i],
{
    hash_bounds(book, tenant_id, hash);
}

/// The link of a fresh invitation lets its invitee in until the deadline, and
/// only once.
pub proof fn fresh_links_work_once(
    book: Seq<Invitation>,
    fresh: Invitation,
    by: u128,
    at: Timestamp,
    later: Timestamp,
)
    requires
        fresh.status == InviteStatus::Pending,
        at.le(fresh.expires_at),
        forall|i: int|
            0 <= i < book.len() ==> (#[trigger] book[i]).token_hash@ != fresh.token_hash@,
    ensures
        ({
            let sent = invited(book, fresh);
            let used = after_accept(sent, fresh.tenant_id, fresh.token_hash@, by, at);
            let i = hash_position(sent, fresh.tenant_id, fresh.token_hash@);
            &&& accept_refusal(sent, fresh.tenant_id, fresh.token_hash@, at) is None
            &&& 0 <= i < sent.len() && sent[i].email@ == fresh.email@
            &&& accept_refusal(used, fresh.tenant_id, fresh.token_hash@, later) == Some(
                AcceptRefusal::NoLongerValid,
            )
        }),
{
    let sent = invited(book, fresh);
    let hash = fresh.token_hash@;
    let p = pending_position(book, fresh.tenant_id, fresh.email@);
    pending_bounds(book, fresh.tenant_id, fresh.email@);
    hash_bounds(sent, fresh.tenant_id, hash);
    let i = hash_position(sent, fresh.tenant_id, hash);
    assert(sent[p].tenant_id == fresh.tenant_id && sent[p].token_hash@ == hash);
    assert(i == p) by {
        if i < p {
            assert(sent[i] == book[i]);
        }
    }
    let used = after_accept(sent, fresh.tenant_id, hash, by, at);
    hash_bounds(used, fresh.tenant_id, hash);
    let k = hash_position(used, fresh.tenant_id, hash);
    assert(used[i].tenant_id == fresh.tenant_id && used[i].token_hash@ == hash);
    assert(k == i) by {
        if k < i {
            assert(used[k] == sent[k]);
        }
    }
}

/// A token of one space lets nobody into another.
pub proof fn links_are_bound_to_their_space(
    book: Seq<Invitation>,
    tenant_id: u128,
    hash: Seq<char>,
    by: u128,
    at: Timestamp,
)
    requires
        forall|i: int|
            0 <= i < book.len() && (#[trigger] book[i]).token_hash@ == hash ==> book[i].tenant_id
                != tenant_id,
    ensures
        accept_refusal(book, tenant_id, hash, at) == Some(AcceptRefusal::InvalidLink),
        after_accept(book, tenant_id, hash, by, at) == book,
{
    hash_bounds(book, tenant_id, hash);
}

/// Past its deadline a link lets nobody in, and a revoked one never does.
pub proof fn overdue_and_revoked_links_are_refused(
    book: Seq<Invitation>,
    tenant_id: u128,
    hash: Seq<char>,
    at: Timestamp,
)
    requires
        forall|i: int|
            0 <= i < book.len() && (#[trigger] book[i]).token_hash@ == hash
                ==> book[i].expires_at.lt(at) || book[i].status == InviteStatus::Revoked,
    ensures
        accept_refusal(book, tenant_id, hash, at) is Some,
{
    hash_bounds(book, tenant_id, hash);
}

/// Whether no space has two accounts with one address.
pub open spec fn one_account_per_address(accounts: Seq<Account>) -> bool {
    forall|i: int, j: int|
        0 <= i < j < accounts.len() ==> !((#[trigger] accounts[i]).tenant_id == (
        #[trigger] accounts[j]).tenant_id && accounts[i].user.email@ == accounts[j].user.email@)
}

/// Whoever joins a space has an account in it afterwards, the only one with their
/// address; joining again changes nothing.
pub proof fn joining_makes_a_member_once(
    before: Seq<Account>,
    after: Seq<Account>,
    again: Seq<Account>,
    tenant_id: u128,
    email: Seq<char>,
    id: u128,
    other_id: u128,
    loc: Locale,
    at: Timestamp,
    later: Timestamp,
    by: u128,
    by_again: u128,
)
    requires
        one_account_per_address(before),
        has_joined(before, after, tenant_id, email, id, loc, at, by),
        has_joined(after, again, tenant_id, email, other_id, loc, later, by_again),
    ensures
        one_account_per_address(after),
        exists|i: int|
            0 <= i < after.len() && (#[trigger] after[i]).tenant_id == tenant_id
                && after[i].user.email@ == email && after[i].user.id == by,
        again == after,
        by_again == by,
{
    account_bounds(before, tenant_id, email);
    account_bounds(after, tenant_id, email);
    let i = account_position(before, tenant_id, email);
    if i < before.len() {
        assert(after[i].user.id == by);
    } else {
        let k = before.len() as int;
        assert(after[k].user.id == by);
        assert forall|a: int, b: int| 0 <= a < b < after.len() implies !((
        #[trigger] after[a]).tenant_id == (#[trigger] after[b]).tenant_id
            && after[a].user.email@ == after[b].user.email@) by {
            assert(after[a] == before[a]);
            if b < before.len() {
                assert(after[b] == before[b]);
            }
        }
        let j = account_position(after, tenant_id, email);
        if j < k {
            assert(after[j] == before[j]);
        }
    }
}

/// Joining leaves every account that was there as it was.
pub proof fn joining_leaves_others_alone(
    before: Seq<Account>,
    after: Seq<Account>,
    tenant_id: u128,
    email: Seq<char>,
    id: u128,
    loc: Locale,
    at: Timestamp,
    by: u128,
    i: int,
)
    requires
        has_joined(before, after, tenant_id, email, id, loc, at, by),
        0 <= i < before.len(),
    ensures
        after.len() >= before.len(),
        after[i] == before[i],
{
    account_bounds(before, tenant_id, email);
}

/// Members invite where the space lets them, and administrators always.
pub proof fn who_can_invite(tenant: &Tenant, user: &User, r: bool)
    requires
        call_ensures(can_invite, (tenant, user), r),
    ensures
        user.is_admin ==> r,
        tenant.members_can_invite ==> r,
        r ==> user.is_admin || tenant.members_can_invite,
{
}

/// One entry of ASCII characters is an address exactly if it holds an at sign and is
/// at most 120 characters long; it is then read in small letters.
pub proof fn single_entries_are_read(e: Seq<char>)
    requires
        is_plain(e),
        forall|k: int| 0 <= k < e.len() ==> !cuts(Cut::Entry, #[trigger] e[k]),
    ensures
        e.contains('@') && e.len() <= 120 ==> addresses(e) == seq![smalls(e)],
        !e.contains('@') || e.len() > 120 ==> addresses(e) == Seq::<Seq<char>>::empty(),
{
    one_piece(e, Cut::Entry);
    assert forall|k: int| 0 <= k < e.len() implies !white_space(#[trigger] e[k]) by {
        assert(!cuts(Cut::Entry, e[k]));
    }
    nothing_to_trim(e);
    let s = smalls(e);
    assert(entry(e) == s);
    assert(is_ascii_chars(s)) by {
        assert forall|k: int| 0 <= k < s.len() implies #[trigger] s[k] <= '\u{7f}' by {
            assert(e[k] <= '\u{7f}');
        }
    }
    is_ascii_chars_encode_utf8(s);
    if e.contains('@') {
        let k = choose|k: int| 0 <= k < e.len() && e[k] == '@';
        assert(s[k] == '@');
    }
    if s.contains('@') {
        let k = choose|k: int| 0 <= k < s.len() && s[k] == '@';
        assert(e[k] == '@');
    }
    let parts = seq![e];
    assert(parts.drop_last() =~= Seq::<Seq<char>>::empty());
    assert(only_addresses(parts.drop_last()) =~= Seq::<Seq<char>>::empty());
    let found = only_addresses(parts);
    if is_address(s) {
        assert(found =~= seq![s]);
        distinct_of_distinct(found);
    } else {
        assert(found =~= Seq::<Seq<char>>::empty());
    }
}

/// A list is read entry by entry: an address stands in it exactly if it stands before
/// or after a separator.
pub proof fn lists_are_read_entry_by_entry(a: Seq<char>, c: char, b: Seq<char>, e: Seq<char>)
    requires
        c == ',' || c == ';' || white_space(c),
    ensures
        addresses(a + seq![c] + b).contains(e) <==> addresses(a).contains(e) || addresses(
            b,
        ).contains(e),
{
    let before = pieces(a, Cut::Entry);
    let after = pieces(b, Cut::Entry);
    pieces_part_at_a_separator(a, c, b, Cut::Entry);
    addresses_add_up(before, after);
    distinct_keeps_each_once(only_addresses(before));
    distinct_keeps_each_once(only_addresses(after));
    distinct_keeps_each_once(only_addresses(before + after));
    let (x, y) = (only_addresses(before), only_addresses(after));
    if x.contains(e) {
        let k = choose|k: int| 0 <= k < x.len() && x[k] == e;
        assert((x + y)[k] == e);
    }
    if y.contains(e) {
        let k = choose|k: int| 0 <= k < y.len() && y[k] == e;
        assert((x + y)[x.len() + k] == e);
    }
    if (x + y).contains(e) {
        let k = choose|k: int| 0 <= k < (x + y).len() && (x + y)[k] == e;
        if k < x.len() {
            assert(x[k] == e);
        } else {
            assert(y[k - x.len()] == e);
        }
    }
}

/// A new invitation is good for seven days, and a session for thirty.
pub proof fn invitations_and_sessions_run_out(
    inv: Invitation,
    session: Session,
    id: u128,
    tenant_id: u128,
    inviter: u128,
    email: Seq<char>,
    token: Seq<char>,
    user_id: u128,
    at: Timestamp,
)
    requires
        on_calendar(at.secs + 30 * 86_400),
        on_calendar(at.secs + 7 * 86_400),
        is_fresh(inv, id, tenant_id, inviter, email, token, at),
        is_opened(session, tenant_id, user_id, at),
    ensures
        inv.expires_at.secs == at.secs + 604_800,
        inv.expires_at.nanos == at.nanos,
        inv.created_at == at,
        inv.status == InviteStatus::Pending,
        inv.tenant_id == tenant_id,
        inv.email@ == email,
        inv.inviter == Some(inviter),
        inv.token_hash@ == token_hash(token),
        session.expires_at.secs == at.secs + 2_592_000,
        session.expires_at.nanos == at.nanos,
        session.tenant_id == tenant_id,
        session.user_id == user_id,
{
}

/// Someone with a pending invitation to the space gets it renewed, keeping its
/// identity; anyone else gets the new one, after all others. No other changes.
pub proof fn inviting_renews_or_adds(book: Seq<Invitation>, fresh: Invitation, i: int)
    ensures
        ({
            let after = invited(book, fresh);
            let waiting = |k: int|
                book[k].tenant_id == fresh.tenant_id && book[k].email@ == fresh.email@
                    && book[k].status == InviteStatus::Pending;
            &&& (forall|k: int| 0 <= k < book.len() ==> !#[trigger] waiting(k)) ==> after
                == book.push(fresh)
            &&& 0 <= i < book.len() && waiting(i) && (forall|k: int|
                0 <= k < i ==> !#[trigger] waiting(k)) ==> {
                &&& after.len() == book.len()
                &&& after[i].token_hash == fresh.token_hash
                &&& after[i].expires_at == fresh.expires_at
                &&& after[i].created_at == fresh.created_at
                &&& after[i].inviter == fresh.inviter
                &&& after[i].id == book[i].id
                &&& after[i].email == book[i].email
                &&& after[i].tenant_id == book[i].tenant_id
                &&& after[i].status == InviteStatus::Pending
                &&& forall|k: int|
                    0 <= k < book.len() && k != i ==> #[trigger] after[k] == book[k]
            }
        }),
{
    let waiting = |k: int|
        book[k].tenant_id == fresh.tenant_id && book[k].email@ == fresh.email@ && book[k].status
            == InviteStatus::Pending;
    pending_bounds(book, fresh.tenant_id, fresh.email@);
    let p = pending_position(book, fresh.tenant_id, fresh.email@);
    assert(p < book.len() ==> waiting(p));
    if 0 <= i < book.len() && waiting(i) {
        assert(pending_for(book[i], fresh.tenant_id, fresh.email@));
    }
}

/// Revoking takes back the pending invitation of that identity in that space, for an
/// administrator or whoever sent it; and changes nothing else.
pub proof fn revoking_takes_back_one_invitation(
    book: Seq<Invitation>,
    id: u128,
    tenant_id: u128,
    user: User,
    i: int,
)
    requires
        0 <= i < book.len(),
    ensures
        ({
            let after = after_revoke(book, id, tenant_id, user)[i];
            let taken_back = book[i].id == id && book[i].tenant_id == tenant_id && book[i].status
                == InviteStatus::Pending && (user.is_admin || book[i].inviter == Some(user.id));
            &&& after_revoke(book, id, tenant_id, user).len() == book.len()
            &&& taken_back ==> after.status == InviteStatus::Revoked
            &&& !taken_back ==> after == book[i]
            &&& after == (Invitation { status: after.status, ..book[i] })
        }),
{
}

/// Exactly the pending invitations whose time is up expire.
pub proof fn overdue_invitations_expire(book: Seq<Invitation>, at: Timestamp, i: int)
    requires
        0 <= i < book.len(),
    ensures
        ({
            let after = after_cleanup(book, at)[i];
            let up = book[i].expires_at.secs < at.secs || (book[i].expires_at.secs == at.secs
                && book[i].expires_at.nanos < at.nanos);
            &&& after_cleanup(book, at).len() == book.len()
            &&& book[i].status == InviteStatus::Pending && up ==> after.status
                == InviteStatus::Expired
            &&& book[i].status != InviteStatus::Pending || !up ==> after == book[i]
            &&& after == (Invitation { status: after.status, ..book[i] })
        }),
{
}

/// A link is good exactly if an invitation of the space has its hash, is pending, and
/// its time is not up. It is then used by whoever came with it, at that moment; one
/// whose time is up expires; any other stays as it is, and so do all others.
pub proof fn links_are_good_while_pending(
    book: Seq<Invitation>,
    tenant_id: u128,
    hash: Seq<char>,
    by: u128,
    at: Timestamp,
    i: int,
)
    requires
        0 <= i < book.len(),
        book[i].tenant_id == tenant_id,
        book[i].token_hash@ == hash,
        forall|k: int|
            0 <= k < i ==> !((#[trigger] book[k]).tenant_id == tenant_id && book[k].token_hash@
                == hash),
    ensures
        ({
            let why = accept_refusal(book, tenant_id, hash, at);
            let after = after_accept(book, tenant_id, hash, by, at);
            let pending = book[i].status == InviteStatus::Pending;
            let up = book[i].expires_at.secs < at.secs || (book[i].expires_at.secs == at.secs
                && book[i].expires_at.nanos < at.nanos);
            &&& why is None <==> pending && !up
            &&& why == Some(AcceptRefusal::NoLongerValid) <==> !pending
            &&& why == Some(AcceptRefusal::Expired) <==> pending && up
            &&& after.len() == book.len()
            &&& forall|k: int| 0 <= k < book.len() && k != i ==> #[trigger] after[k] == book[k]
            &&& pending && !up ==> after[i].status == InviteStatus::Accepted && after[i].accepted_by
                == Some(by) && after[i].accepted_at == Some(at) && after[i].email == book[i].email
                && after[i].id == book[i].id && after[i].tenant_id == tenant_id
            &&& pending && up ==> after[i].status == InviteStatus::Expired && after[i].accepted_by
                == book[i].accepted_by
            &&& !pending ==> after[i] == book[i]
        }),
{
    hash_bounds(book, tenant_id, hash);
    let p = hash_position(book, tenant_id, hash);
    if p > i {
        assert(!(book[i].tenant_id == tenant_id && book[i].token_hash@ == hash));
    }
    if p < i {
        assert(!(book[p].tenant_id == tenant_id && book[p].token_hash@ == hash));
    }
}

/// A link whose hash no invitation of the space has is no link of the space.
pub proof fn unknown_links_are_invalid(
    book: Seq<Invitation>,
    tenant_id: u128,
    hash: Seq<char>,
    at: Timestamp,
)
    ensures
        accept_refusal(book, tenant_id, hash, at) == Some(AcceptRefusal::InvalidLink)
            <==> forall|k: int|
            0 <= k < book.len() ==> !((#[trigger] book[k]).tenant_id == tenant_id
                && book[k].token_hash@ == hash),
{
    hash_bounds(book, tenant_id, hash);
}

proof fn replaced_one_for_one(s: Seq<char>, c: char, by: char)
    ensures
        replaced(s, c, seq![by]).len() == s.len(),
        forall|k: int|
            0 <= k < s.len() ==> #[trigger] replaced(s, c, seq![by])[k] == if s[k] == c {
                by
            } else {
                s[k]
            },
    decreases s.len(),
{
    if s.len() > 0 {
        replaced_one_for_one(s.drop_last(), c, by);
    }
}

/// A new member is named after what stands before the at sign of their address, with
/// a space for each full stop and underscore.
pub proof fn members_are_named_after_their_address(local: Seq<char>, rest: Seq<char>, k: int)
    requires
        forall|j: int| 0 <= j < local.len() ==> #[trigger] local[j] != '@',
        0 <= k < local.len(),
    ensures
        ({
            let name = starting_name(local + seq!['@'] + rest);
            &&& name.len() == local.len()
            &&& local[k] == '.' || local[k] == '_' ==> name[k] == ' '
            &&& local[k] != '.' && local[k] != '_' ==> name[k] == local[k]
        }),
{
    reveal_strlit(" ");
    assert(" "@ =~= seq![' ']);
    pieces_part_at_a_separator(local, '@', rest, Cut::At);
    assert forall|j: int| 0 <= j < local.len() implies !cuts(Cut::At, #[trigger] local[j]) by {}
    one_piece(local, Cut::At);
    pieces_are_some(rest, Cut::At);
    assert(pieces(local + seq!['@'] + rest, Cut::At)[0] == local);
    replaced_one_for_one(local, '.', ' ');
    replaced_one_for_one(replaced(local, '.', " "@), '_', ' ');
}

/// A new member has the address of the invitation, is no administrator, owes nothing
/// yet, and reads the language they joined in.
pub proof fn new_members_start_plain(
    before: Seq<Account>,
    after: Seq<Account>,
    tenant_id: u128,
    email: Seq<char>,
    id: u128,
    loc: Locale,
    at: Timestamp,
    by: u128,
)
    requires
        has_joined(before, after, tenant_id, email, id, loc, at, by),
        forall|k: int|
            0 <= k < before.len() ==> !((#[trigger] before[k]).tenant_id == tenant_id
                && before[k].user.email@ == email),
    ensures
        after.len() == before.len() + 1,
        by == id,
        after.last().tenant_id == tenant_id,
        after.last().user.id == id,
        after.last().user.email@ == email,
        after.last().user.display_name@ == starting_name(email),
        !after.last().user.is_admin,
        after.last().user.created_at == at,
        after.last().user.stake_eur is None,
        after.last().user.stake_chosen_at is None,
        after.last().user.paid_at is None,
        loc == Locale::Fr ==> after.last().lang@ == "fr"@,
        loc == Locale::En ==> after.last().lang@ == "en"@,
{
    account_bounds(before, tenant_id, email);
}

/// Each fate in turn counts once, under its own head.
pub proof fn each_fate_counts_once(all: Seq<Fate>, next: Fate, fate: Fate)
    ensures
        fates(Seq::empty(), fate) == 0,
        next == fate ==> fates(all.push(next), fate) == fates(all, fate) + 1,
        next != fate ==> fates(all.push(next), fate) == fates(all, fate),
{
    let more = all.push(next);
    fates_grow(more, all.len() as int, fate);
    assert(more.take(all.len() as int) =~= all);
    assert(more.take(more.len() as int) =~= more);
    reveal(Seq::filter);
}

/// The notice tells how many invitations were sent, how many people are members
/// already and how many failed, in that order.
pub proof fn notices_tell_the_numbers(t: Tally)
    ensures
        notice_text(t, Locale::Fr) == decimal(t.invited as int) + " invitation(s) envoyée(s), "@
            + decimal(t.already as int) + " déjà membre(s), "@ + decimal(t.failed as int)
            + " échec(s)."@,
        notice_text(t, Locale::En) == decimal(t.invited as int) + " invitation(s) sent, "@ + decimal(
            t.already as int,
        ) + " already member(s), "@ + decimal(t.failed as int) + " failed."@,
{
}

/// An accept link is the address of the space with the token at its end.
pub proof fn links_carry_the_token(tenant_url: Seq<char>, token: Seq<char>)
    ensures
        accept_url(tenant_url, token) == tenant_url + "/invite/accept?token="@ + token,
{
}

/// The list shows the pending invitations of the space and no others.
pub proof fn pending_invitations_are_listed(book: Seq<Invitation>, tenant_id: u128, i: int)
    requires
        0 <= i < book.len(),
    ensures
        newest_first(book).len() == book.len(),
        pending_of(newest_first(book), tenant_id).contains(book[i]) <==> book[i].tenant_id
            == tenant_id && book[i].status == InviteStatus::Pending,
{
    let times = sent_times(book);
    by_time_is_a_sorted_permutation(times);
    let order = by_time(times);
    assert(order.contains(i));
    let k = choose|k: int| 0 <= k < order.len() && order[k] == i;
    let all = newest_first(book);
    assert(all[order.len() - 1 - k] == book[i]);
    broadcast use vstd::seq_lib::group_filter_ensures;

    let shown = pending_of(all, tenant_id);
    if is_pending_in(book[i], tenant_id) {
        assert(all.contains(book[i]));
        assert(shown.contains(book[i]));
    }
    if shown.contains(book[i]) {
        let j = choose|j: int| 0 <= j < shown.len() && shown[j] == book[i];
        assert(is_pending_in(shown[j], tenant_id));
    }
}

/// Of two invitations the one sent later is listed first.
pub proof fn newest_invitations_come_first(book: Seq<Invitation>, a: int, b: int)
    requires
        0 <= a < b < book.len(),
    ensures
        ({
            let (first, second) = (newest_first(book)[a], newest_first(book)[b]);
            first.created_at.secs > second.created_at.secs || (first.created_at.secs
                == second.created_at.secs && first.created_at.nanos >= second.created_at.nanos)
        }),
{
    let times = sent_times(book);
    let order = by_time(times);
    by_time_is_a_sorted_permutation(times);
    times_are_in_order(times, book.len() - 1 - b, book.len() - 1 - a);
}

/// An invitation is taken up exactly from those who may invite, within the limit, with
/// at least one address; and for those addresses.
pub proof fn invitations_are_checked(
    tenant: &Tenant,
    user: &User,
    within_limit: bool,
    form: &InviteForm,
    r: Result<Vec<String>, InviteRefusal>,
)
    requires
        call_ensures(create, (tenant, user, within_limit, form), r),
    ensures
        ({
            let allowed = user.is_admin || tenant.members_can_invite;
            let found = addresses(form.emails@);
            &&& r is Ok <==> allowed && within_limit && found.len() > 0
            &&& r is Ok ==> texts(r->Ok_0@) == found
            &&& !allowed ==> r is Err && r->Err_0 == InviteRefusal::NotAllowed
            &&& allowed && !within_limit ==> r is Err && r->Err_0 == InviteRefusal::TooMany
            &&& allowed && within_limit && found.len() == 0 ==> r is Err && r->Err_0
                == InviteRefusal::NoAddress
        }),
{
}

/// What each refusal is answered.
pub proof fn invite_refusals_are_answered(
    why: InviteRefusal,
    code: u16,
    text: &'static str,
    no: AcceptRefusal,
    no_code: u16,
    no_text: &'static str,
    loc: Locale,
)
    requires
        call_ensures(InviteRefusal::status, (why,), code),
        call_ensures(InviteRefusal::message, (why, loc), text),
        call_ensures(AcceptRefusal::status, (no,), no_code),
        call_ensures(AcceptRefusal::message, (no, loc), no_text),
    ensures
        match why {
            InviteRefusal::NotAllowed => code == 403 && text@ == "Not allowed."@,
            InviteRefusal::TooMany => code == 200 && text@ == loc.pick(
                "Trop d'invitations envoyées. Réessaie dans un moment."@,
                "Too many invitations sent. Try again in a moment."@,
            ),
            InviteRefusal::NoAddress => code == 200 && text@ == loc.pick(
                "Aucune adresse email valide."@,
                "No valid email address."@,
            ),
        },
        no_code == 400,
        match no {
            AcceptRefusal::InvalidLink => no_text@ == loc.pick("Lien invalide."@, "Invalid link."@),
            AcceptRefusal::NoLongerValid => no_text@ == loc.pick(
                "Cette invitation n'est plus valable."@,
                "This invitation is no longer valid."@,
            ),
            AcceptRefusal::Expired => no_text@ == loc.pick(
                "Cette invitation a expiré."@,
                "This invitation has expired."@,
            ),
        },
{
}

/// Inviting someone who is no member yet gives the link with the token, and leaves a
/// pending invitation for them that is good for seven days; a member gets none.
pub proof fn inviting_leaves_a_pending_invitation(
    book: &mut Vec<Invitation>,
    tenant: &Tenant,
    inviter: &User,
    members: &Vec<String>,
    id: u128,
    email: &str,
    token: &str,
    tenant_url: &str,
    at: Timestamp,
    r: Option<String>,
)
    requires
        call_ensures(
            invite_with,
            (book, tenant, inviter, members, id, email, token, tenant_url, at),
            r,
        ),
        on_calendar(at.secs + 7 * 86_400),
    ensures
        texts(members@).contains(email@) ==> r is None && final(book)@ == old(book)@,
        !texts(members@).contains(email@) ==> {
            &&& r is Some
            &&& r->0@ == tenant_url@ + "/invite/accept?token="@ + token@
            &&& exists|i: int|
                {
                    let inv = final(book)@[i];
                    &&& 0 <= i < final(book)@.len()
                    &&& (#[trigger] final(book)@[i]).email@ == email@
                    &&& inv.tenant_id == tenant.id
                    &&& inv.status == InviteStatus::Pending
                    &&& inv.token_hash@ == token_hash(token@)
                    &&& inv.inviter == Some(inviter.id)
                    &&& inv.created_at == at
                    &&& inv.expires_at.secs == at.secs + 604_800
                }
        },
{
    if !texts(members@).contains(email@) {
        let fresh = choose|fresh: Invitation|
            is_fresh(fresh, id, tenant.id, inviter.id, email@, token@, at) && final(book)@
                == #[trigger] invited(old(book)@, fresh);
        pending_bounds(old(book)@, fresh.tenant_id, fresh.email@);
        let p = pending_position(old(book)@, fresh.tenant_id, fresh.email@);
        assert(final(book)@[p].email@ == email@);
    }
}

/// The notice counts each fate once.
pub proof fn notices_count_the_fates(all: &Vec<Fate>, t: Tally, loc: Locale, r: String)
    requires
        call_ensures(tally, (all,), t),
        call_ensures(notice, (t, loc), r),
    ensures
        t.invited == fates(all@, Fate::Sent),
        t.already == fates(all@, Fate::AlreadyMember),
        t.failed == fates(all@, Fate::Failed),
        loc == Locale::Fr ==> r@ == decimal(t.invited as int) + " invitation(s) envoyée(s), "@
            + decimal(t.already as int) + " déjà membre(s), "@ + decimal(t.failed as int)
            + " échec(s)."@,
        loc == Locale::En ==> r@ == decimal(t.invited as int) + " invitation(s) sent, "@ + decimal(
            t.already as int,
        ) + " already member(s), "@ + decimal(t.failed as int) + " failed."@,
{
}

/// Revoking and expiring change the status of pending invitations only.
pub proof fn revoking_and_expiring_change_the_status(
    book: &mut Vec<Invitation>,
    id: u128,
    tenant_id: u128,
    user: &User,
    r: (),
    other: &mut Vec<Invitation>,
    at: Timestamp,
    s: (),
    i: int,
    j: int,
)
    requires
        call_ensures(revoke, (book, id, tenant_id, user), r),
        call_ensures(expire_overdue, (other, at), s),
        0 <= i < old(book)@.len(),
        0 <= j < old(other)@.len(),
    ensures
        ({
            let inv = old(book)@[i];
            let taken_back = inv.id == id && inv.tenant_id == tenant_id && inv.status
                == InviteStatus::Pending && (user.is_admin || inv.inviter == Some(user.id));
            &&& final(book)@.len() == old(book)@.len()
            &&& taken_back ==> final(book)@[i] == (Invitation {
                status: InviteStatus::Revoked,
                ..inv
            })
            &&& !taken_back ==> final(book)@[i] == inv
        }),
        ({
            let inv = old(other)@[j];
            let up = inv.expires_at.secs < at.secs || (inv.expires_at.secs == at.secs
                && inv.expires_at.nanos < at.nanos);
            &&& final(other)@.len() == old(other)@.len()
            &&& inv.status == InviteStatus::Pending && up ==> final(other)@[j] == (Invitation {
                status: InviteStatus::Expired,
                ..inv
            })
            &&& inv.status != InviteStatus::Pending || !up ==> final(other)@[j] == inv
        }),
{
    revoking_takes_back_one_invitation(old(book)@, id, tenant_id, *user, i);
    overdue_invitations_expire(old(other)@, at, j);
}

/// Accepting succeeds exactly with the link of a pending invitation of the space whose
/// time is not up. It opens a session of thirty days for the member with the address of
/// the invitation, and uses the invitation up.
pub proof fn accepting_signs_the_invitee_in(
    book: &mut Vec<Invitation>,
    accounts: &mut Vec<Account>,
    sessions: &mut Vec<Session>,
    tenant_id: u128,
    query: &AcceptQuery,
    id: u128,
    loc: Locale,
    at: Timestamp,
    r: Result<Session, AcceptRefusal>,
    i: int,
)
    requires
        call_ensures(accept, (book, accounts, sessions, tenant_id, query, id, loc, at), r),
        on_calendar(at.secs + 30 * 86_400),
        0 <= i < old(book)@.len(),
        old(book)@[i].tenant_id == tenant_id,
        old(book)@[i].token_hash@ == token_hash(query.token@),
        forall|k: int|
            0 <= k < i ==> !((#[trigger] old(book)@[k]).tenant_id == tenant_id
                && old(book)@[k].token_hash@ == token_hash(query.token@)),
    ensures
        ({
            let inv = old(book)@[i];
            let pending = inv.status == InviteStatus::Pending;
            let up = inv.expires_at.secs < at.secs || (inv.expires_at.secs == at.secs
                && inv.expires_at.nanos < at.nanos);
            &&& r is Ok <==> pending && !up
            &&& !pending ==> r == Err::<Session, AcceptRefusal>(AcceptRefusal::NoLongerValid)
            &&& pending && up ==> r == Err::<Session, AcceptRefusal>(AcceptRefusal::Expired)
            &&& r is Err ==> final(accounts)@ == old(accounts)@ && final(sessions)@ == old(sessions)@
            &&& r is Ok ==> {
                &&& r->Ok_0.tenant_id == tenant_id
                &&& r->Ok_0.expires_at.secs == at.secs + 2_592_000
                &&& final(sessions)@ == old(sessions)@.push(r->Ok_0)
                &&& final(book)@[i].status == InviteStatus::Accepted
                &&& final(book)@[i].accepted_by == Some(r->Ok_0.user_id)
                &&& final(book)@[i].accepted_at == Some(at)
                &&& exists|a: int|
                    0 <= a < final(accounts)@.len() && (#[trigger] final(accounts)@[a]).user.id
                        == r->Ok_0.user_id && final(accounts)@[a].tenant_id == tenant_id
                        && final(accounts)@[a].user.email@ == inv.email@
            }
        }),
{
    let hash = token_hash(query.token@);
    links_are_good_while_pending(old(book)@, tenant_id, hash, 0, at, i);
    hash_bounds(old(book)@, tenant_id, hash);
    let p = hash_position(old(book)@, tenant_id, hash);
    assert(p == i) by {
        if p < i {
            assert(!(old(book)@[p].tenant_id == tenant_id && old(book)@[p].token_hash@ == hash));
        }
    }
    if r is Ok {
        links_are_good_while_pending(old(book)@, tenant_id, hash, r->Ok_0.user_id, at, i);
        account_bounds(old(accounts)@, tenant_id, old(book)@[i].email@);
        let a = account_position(old(accounts)@, tenant_id, old(book)@[i].email@);
        assert(final(accounts)@[a].user.id == r->Ok_0.user_id);
    }
}

/// The page of members shows the member's own name, whether they may invite, and the
/// pending invitations of the space.
pub proof fn the_page_lists_pending_invitations(
    tenant: &Tenant,
    user: &User,
    members: Vec<MemberRow>,
    book: &Vec<Invitation>,
    board: &Vec<LeaderboardRow>,
    told: Option<String>,
    error: Option<String>,
    r: MembersView,
    i: int,
)
    requires
        call_ensures(render_members, (tenant, user, members, book, board, told, error), r),
        0 <= i < book@.len(),
        book@[i].tenant_id == tenant.id,
        book@[i].status == InviteStatus::Pending,
    ensures
        r.user_name == user.display_name,
        r.is_admin == user.is_admin,
        r.can_invite <==> user.is_admin || tenant.members_can_invite,
        r.members == members,
        r.notice == told,
        r.error == error,
        exists|k: int|
            0 <= k < r.invites@.len() && (#[trigger] r.invites@[k]).id == book@[i].id
                && r.invites@[k].email == book@[i].email && r.invites@[k].expires_label@
                == long_label(book@[i].expires_at.day()),
        r.total_points == points_of(board@, user.id),
{
    pending_invitations_are_listed(book@, tenant.id, i);
    let shown = pending_of(newest_first(book@), tenant.id);
    let k = choose|k: int| 0 <= k < shown.len() && shown[k] == book@[i];
    assert(r.invites@[k].id == shown[k].id);
}

/// Inviting an address draws a token for its link; the invitation keeps the hash of the
/// same token. A member's address draws none.
pub proof fn links_fit_their_invitation(
    book: &mut Vec<Invitation>,
    tenant: &Tenant,
    inviter: &User,
    members: &Vec<String>,
    id: u128,
    email: &str,
    tenant_url: &str,
    at: Timestamp,
    r: Option<String>,
)
    requires
        call_ensures(
            invite_address,
            (book, tenant, inviter, members, id, email, tenant_url, at),
            r,
        ),
        on_calendar(at.secs + 7 * 86_400),
    ensures
        texts(members@).contains(email@) ==> r is None && final(book)@ == old(book)@,
        !texts(members@).contains(email@) ==> r is Some && exists|token: Seq<char>, i: int|
            {
                let inv = final(book)@[i];
                &&& 0 <= i < final(book)@.len()
                &&& r->0@ == tenant_url@ + "/invite/accept?token="@ + token
                &&& (#[trigger] final(book)@[i]).email@ == email@
                &&& inv.token_hash@ == #[trigger] token_hash(token)
                &&& inv.tenant_id == tenant.id
                &&& inv.status == InviteStatus::Pending
                &&& inv.inviter == Some(inviter.id)
                &&& inv.created_at == at
                &&& inv.expires_at.secs == at.secs + 604_800
            },
{
    if !texts(members@).contains(email@) {
        let (token, fresh) = choose|token: Seq<char>, fresh: Invitation|
            {
                &&& exists|bytes: Seq<u8>|
                    bytes.len() == 32 && token == #[trigger] base64_text(bytes)
                &&& token.len() == 43
                &&& forall|k: int| 0 <= k < token.len() ==> url_safe(#[trigger] token[k])
                &&& opt_text(r) == Some(#[trigger] accept_url(tenant_url@, token))
                &&& is_fresh(fresh, id, tenant.id, inviter.id, email@, token, at)
                &&& final(book)@ == #[trigger] invited(old(book)@, fresh)
            };
        pending_bounds(old(book)@, fresh.tenant_id, fresh.email@);
        let p = pending_position(old(book)@, fresh.tenant_id, fresh.email@);
        assert(final(book)@[p].email@ == email@);
        assert(final(book)@[p].token_hash@ == token_hash(token));
    }
}

/// A link that is none of the space's is refused as invalid and changes nothing.
pub proof fn accepting_needs_a_link_of_the_space(
    book: &mut Vec<Invitation>,
    accounts: &mut Vec<Account>,
    sessions: &mut Vec<Session>,
    tenant_id: u128,
    query: &AcceptQuery,
    id: u128,
    loc: Locale,
    at: Timestamp,
    r: Result<Session, AcceptRefusal>,
)
    requires
        call_ensures(accept, (book, accounts, sessions, tenant_id, query, id, loc, at), r),
        forall|k: int|
            0 <= k < old(book)@.len() ==> !((#[trigger] old(book)@[k]).tenant_id == tenant_id
                && old(book)@[k].token_hash@ == token_hash(query.token@)),
    ensures
        r == Err::<Session, AcceptRefusal>(AcceptRefusal::InvalidLink),
        final(accounts)@ == old(accounts)@,
        final(sessions)@ == old(sessions)@,
        final(book)@ == old(book)@,
{
    let hash = token_hash(query.token@);
    unknown_links_are_invalid(old(book)@, tenant_id, hash, at);
    assert(final(book)@ == after_accept(old(book)@, tenant_id, hash, 0, at));
}

/// An entry of any characters without a separator is read in lowercase, exactly if it
/// then holds an at sign and takes at most 120 bytes.
pub proof fn any_entry_is_read(e: Seq<char>)
    requires
        forall|k: int| 0 <= k < e.len() ==> !cuts(Cut::Entry, #[trigger] e[k]),
    ensures
        lowered(e).contains('@') && encode_utf8(lowered(e)).len() <= 120 ==> addresses(e)
            == seq![lowered(e)],
        !lowered(e).contains('@') || encode_utf8(lowered(e)).len() > 120 ==> addresses(e) == Seq::<
            Seq<char>,
        >::empty(),
{
    one_piece(e, Cut::Entry);
    assert forall|k: int| 0 <= k < e.len() implies !white_space(#[trigger] e[k]) by {
        assert(!cuts(Cut::Entry, e[k]));
    }
    nothing_to_trim(e);
    let parts = seq![e];
    assert(parts.drop_last() =~= Seq::<Seq<char>>::empty());
    assert(only_addresses(parts.drop_last()) =~= Seq::<Seq<char>>::empty());
    let found = only_addresses(parts);
    if is_address(lowered(e)) {
        assert(found =~= seq![lowered(e)]);
        distinct_of_distinct(found);
    } else {
        assert(found =~= Seq::<Seq<char>>::empty());
    }
}

proof fn one_pending_in_turn(all: Seq<Invitation>, tenant_id: u128, a: int) -> (i: int)
    requires
        0 <= a < pending_of(all, tenant_id).len(),
    ensures
        0 <= i < all.len(),
        all[i] == pending_of(all, tenant_id)[a],
    decreases all.len(),
{
    reveal(Seq::filter);
    let front = all.drop_last();
    if a < pending_of(front, tenant_id).len() {
        one_pending_in_turn(front, tenant_id, a)
    } else {
        all.len() - 1
    }
}

proof fn pending_come_in_turn(all: Seq<Invitation>, tenant_id: u128, a: int, b: int) -> (at: (
    int,
    int,
))
    requires
        0 <= a < b < pending_of(all, tenant_id).len(),
    ensures
        ({
            let (i, j) = at;
            &&& 0 <= i < j < all.len()
            &&& all[i] == pending_of(all, tenant_id)[a]
            &&& all[j] == pending_of(all, tenant_id)[b]
        }),
    decreases all.len(),
{
    reveal(Seq::filter);
    let front = all.drop_last();
    if b < pending_of(front, tenant_id).len() {
        pending_come_in_turn(front, tenant_id, a, b)
    } else {
        let i = one_pending_in_turn(front, tenant_id, a);
        (i, all.len() - 1)
    }
}

/// The pending invitations are listed from the newest on.
pub proof fn pending_invitations_come_newest_first(
    book: Seq<Invitation>,
    tenant_id: u128,
    a: int,
    b: int,
)
    requires
        0 <= a < b < pending_of(newest_first(book), tenant_id).len(),
    ensures
        ({
            let listed = pending_of(newest_first(book), tenant_id);
            let (first, second) = (listed[a].created_at, listed[b].created_at);
            first.secs > second.secs || (first.secs == second.secs && first.nanos >= second.nanos)
        }),
{
    let all = newest_first(book);
    by_time_is_a_sorted_permutation(sent_times(book));
    let (i, j) = pending_come_in_turn(all, tenant_id, a, b);
    newest_invitations_come_first(book, i, j);
}

proof fn listed_invitations_are_known(book: Seq<Invitation>, tenant_id: u128, a: int) -> (i: int)
    requires
        0 <= a < pending_of(newest_first(book), tenant_id).len(),
    ensures
        0 <= i < book.len(),
        book[i] == pending_of(newest_first(book), tenant_id)[a],
        book[i].tenant_id == tenant_id,
        book[i].status == InviteStatus::Pending,
{
    broadcast use vstd::seq_lib::group_filter_ensures;

    let all = newest_first(book);
    let times = sent_times(book);
    let order = by_time(times);
    by_time_is_a_sorted_permutation(times);
    let k = one_pending_in_turn(all, tenant_id, a);
    let i = order[order.len() - 1 - k];
    assert(order.contains(i));
    assert(is_pending_in(pending_of(all, tenant_id)[a], tenant_id));
    i
}

/// The page of members lists pending invitations of the space only, from the newest on.
pub proof fn the_page_lists_the_newest_first(
    tenant: &Tenant,
    user: &User,
    members: Vec<MemberRow>,
    book: &Vec<Invitation>,
    board: &Vec<LeaderboardRow>,
    told: Option<String>,
    error: Option<String>,
    r: MembersView,
    a: int,
    b: int,
)
    requires
        call_ensures(render_members, (tenant, user, members, book, board, told, error), r),
        0 <= a < b < r.invites@.len(),
    ensures
        exists|i: int, j: int|
            {
                let (newer, older) = (book@[i], book@[j]);
                &&& 0 <= i < book@.len()
                &&& 0 <= j < book@.len()
                &&& (#[trigger] book@[i]).id == r.invites@[a].id
                &&& (#[trigger] book@[j]).id == r.invites@[b].id
                &&& newer.tenant_id == tenant.id && newer.status == InviteStatus::Pending
                &&& older.tenant_id == tenant.id && older.status == InviteStatus::Pending
                &&& newer.created_at.secs > older.created_at.secs || (newer.created_at.secs
                    == older.created_at.secs && newer.created_at.nanos >= older.created_at.nanos)
            },
{
    let listed = pending_of(newest_first(book@), tenant.id);
    let i = listed_invitations_are_known(book@, tenant.id, a);
    let j = listed_invitations_are_known(book@, tenant.id, b);
    pending_invitations_come_newest_first(book@, tenant.id, a, b);
    assert(r.invites@[a].id == listed[a].id && r.invites@[b].id == listed[b].id);
    assert(book@[i].id == r.invites@[a].id && book@[j].id == r.invites@[b].id);
}

} // verus!
