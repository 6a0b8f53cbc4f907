//! Signing in without a mail, while developing.
use vstd::prelude::*;

use crate::clock::{on_calendar, Timestamp, DAY};
use crate::invitations::{is_opened, open_session, Session, SESSION_TTL_DAYS};
use crate::models::{Prediction, User};
use crate::text::{lowered, str_eq, trim, trimmed};

verus! {

/// Someone to sign in as.
#[derive(Debug)]
pub struct DevUser {
    pub email: String,
    pub display_name: String,
    pub points: i64,
}

/// Whom to sign in as.
#[derive(Debug)]
pub struct LoginQuery {
    pub email: String,
}

/// Why a sign-in is refused.
#[derive(Clone, Copy, PartialEq, Eq, Debug, Structural)]
pub enum DevRefusal {
    /// This is no development setup.
    Disabled,
    /// The space has no such member.
    UnknownUser,
}

impl DevRefusal {
    /// The HTTP status of a refusal.
    pub fn status(self) -> (r: u16)
        ensures
            r == 404,
    {
        404
    }

    /// The text of a refusal.
    pub fn message(self) -> (r: &'static str)
        ensures
            r@ == match self {
                DevRefusal::Disabled => "Dev mode disabled."@,
                DevRefusal::UnknownUser
                    => "Utilisateur introuvable. Lance d'abord `cargo run -- seed`."@,
            },
    {
        match self {
            DevRefusal::Disabled => "Dev mode disabled.",
            DevRefusal::UnknownUser
                => "Utilisateur introuvable. Lance d'abord `cargo run -- seed`.",
        }
    }
}

/// The points a member has in a space.
pub open spec fn member_points(book: Seq<Prediction>, tenant_id: u128, user: u128) -> int
    decreases book.len(),
{
    if book.len() == 0 {
        0
    } else {
        let p = book.last();
        member_points(book.drop_last(), tenant_id, user) + if p.tenant_id == tenant_id && p.user_id
            == user && p.points is Some {
            p.points->0 as int
        } else {
            0
        }
    }
}

/// Whether the points of all members can be shown.
pub open spec fn points_fit(members: Seq<User>, book: Seq<Prediction>, tenant_id: u128) -> bool {
    forall|i: int|
        0 <= i < members.len() ==> i64::MIN <= member_points(
            book,
            tenant_id,
            (#[trigger] members[i]).id,
        ) <= i64::MAX
}

/// Whether the points of all members can be shown.
pub fn are_points_showable(members: &Vec<User>, book: &Vec<Prediction>, tenant_id: u128) -> (r: bool)
    ensures
        r == points_fit(members@, book@, tenant_id),
{
    let mut i: usize = 0;
    while i < members.len()
        invariant
            i <= members.len(),
            forall|k: int|
                0 <= k < i ==> i64::MIN <= member_points(
                    book@,
                    tenant_id,
                    (#[trigger] members@[k]).id,
                ) <= i64::MAX,
        decreases members.len() - i,
    {
        let total: i128 = sum_member_points(book, tenant_id, members[i].id);
        if total < i64::MIN as i128 || total > i64::MAX as i128 {
            assert(!(i64::MIN <= member_points(book@, tenant_id, members@[i as int].id)
                <= i64::MAX));
            return false;
        }
        i = i + 1;
    }
    true
}

fn sum_member_points(book: &Vec<Prediction>, tenant_id: u128, user: u128) -> (r: i128)
    ensures
        r == member_points(book@, tenant_id, user),
{
    let mut total: i128 = 0;
    let mut i: usize = 0;
    while i < book.len()
        invariant
            i <= book.len(),
            total == member_points(book@.take(i as int), tenant_id, user),
            -0x8000_0000 * i <= total <= 0x7fff_ffff * i,
        decreases book.len() - i,
    {
        assert(book@.take(i + 1).drop_last() =~= book@.take(i as int));
        let p: Prediction = book[i];
        if p.tenant_id == tenant_id && p.user_id == user {
            if let Some(points) = p.points {
                total = total + points as i128;
            }
        }
        i = i + 1;
    }
    assert(book@.take(book@.len() as int) =~= book@);
    total
}

/// Whether some entries are the members of a space, in order.
pub open spec fn list_members(
    users: Seq<DevUser>,
    members: Seq<User>,
    book: Seq<Prediction>,
    tenant_id: u128,
) -> bool {
    &&& users.len() == members.len()
    &&& forall|i: int|
        0 <= i < users.len() ==> (#[trigger] users[i]).email == members[i].email
            && users[i].display_name == members[i].display_name && users[i].points
            == member_points(book, tenant_id, members[i].id)
}

/// The members of a space one can sign in as, with their points, in the order of
/// `members`.
pub fn index(
    dev_mode: bool,
    members: &Vec<User>,
    book: &Vec<Prediction>,
    tenant_id: u128,
) -> (r: Result<Vec<DevUser>, DevRefusal>)
    requires
        dev_mode ==> points_fit(members@, book@, tenant_id),
    ensures
        match r {
            Err(why) => !dev_mode && why == DevRefusal::Disabled,
            Ok(users) => {
                &&& dev_mode
                &&& users@.len() == members@.len()
                &&& forall|i: int|
                    0 <= i < users@.len() ==> (#[trigger] users@[i]).email == members@[i].email
                        && users@[i].display_name == members@[i].display_name && users@[i].points
                        == member_points(book@, tenant_id, members@[i].id)
                &&& list_members(users@, members@, book@, tenant_id)
            },
        },
{
    if !dev_mode {
        return Err(DevRefusal::Disabled);
    }
    let mut users: Vec<DevUser> = Vec::new();
    let mut i: usize = 0;
    while i < members.len()
        invariant
            i <= members.len(),
            points_fit(members@, book@, tenant_id),
            users@.len() == i,
            forall|k: int|
                0 <= k < i ==> (#[trigger] users@[k]).email == members@[k].email
                    && users@[k].display_name == members@[k].display_name && users@[k].points
                    == member_points(book@, tenant_id, members@[k].id),
        decreases members.len() - i,
    {
        users.push(
            DevUser {
                email: members[i].email.clone(),
                display_name: members[i].display_name.clone(),
                points: sum_member_points(book, tenant_id, members[i].id) as i64,
            },
        );
        i = i + 1;
    }
    Ok(users)
}

/// The position of the member with an address, or the number of members.
pub open spec fn member_position(members: Seq<User>, email: Seq<char>) -> int
    decreases members.len(),
{
    if members.len() == 0 {
        0
    } else if members[0].email@ == email {
        0
    } else {
        1 + member_position(members.drop_first(), email)
    }
}

/// The address someone signs in with, as members' addresses are stored.
pub fn login_email(q: &LoginQuery) -> (r: String)
    ensures
        r@ == lowered(trimmed(q.email@)),
{
    trim(q.email.as_str()).as_str().to_lowercase()
}

/// Signs in as the member of a space with a given address, if this is a
/// development setup and the space has them. Whether they are an admin is set
/// anew on the way.
pub fn login_as(
    dev_mode: bool,
    tenant_id: u128,
    members: &mut Vec<User>,
    q: &LoginQuery,
    is_admin: bool,
    at: Timestamp,
) -> (r: Result<Session, DevRefusal>)
    requires
        on_calendar(at.secs + SESSION_TTL_DAYS * DAY),
    ensures
        ({
            let i = member_position(old(members)@, lowered(trimmed(q.email@)));
            match r {
                Err(DevRefusal::Disabled) => !dev_mode && final(members)@ == old(members)@,
                Err(DevRefusal::UnknownUser) => dev_mode && i >= old(members)@.len()
                    && final(members)@ == old(members)@,
                Ok(session) => {
                    &&& dev_mode
                    &&& 0 <= i < old(members)@.len()
                    &&& is_opened(session, tenant_id, old(members)@[i].id, at)
                    &&& final(members)@ == old(members)@.update(
                        i,
                        User { is_admin, ..old(members)@[i] },
                    )
                },
            }
        }),
{
    if !dev_mode {
        return Err(DevRefusal::Disabled);
    }
    let email: String = login_email(q);
    match find_member(members, email.as_str()) {
        Some(i) => {
            let user_id: u128 = members[i].id;
            members[i].is_admin = is_admin;
            Ok(open_session(tenant_id, user_id, at))
        },
        None => Err(DevRefusal::UnknownUser),
    }
}

/// Looks up the position of the member with an address.
pub fn find_member(members: &Vec<User>, email: &str) -> (r: Option<usize>)
    ensures
        match r {
            Some(i) => i == member_position(members@, email@) && i < members@.len(),
            None => member_position(members@, email@) >= members@.len(),
        },
{
    let mut i: usize = 0;
    assert(members@.skip(0) =~= members@);
    while i < members.len()
        invariant
            i <= members.len(),
            member_position(members@, email@) == i + member_position(
                members@.skip(i as int),
                email@,
            ),
        decreases members.len() - i,
    {
        if str_eq(members[i].email.as_str(), email) {
            return Some(i);
        }
        assert(members@.skip(i as int).drop_first() =~= members@.skip(i + 1));
        i = i + 1;
    }
    None
}

/// Each prediction in turn adds its points to its player in its space.
pub proof fn each_prediction_adds_to_its_player(
    book: Seq<Prediction>,
    p: Prediction,
    tenant_id: u128,
    user: u128,
)
    ensures
        ({
            let before = member_points(book, tenant_id, user);
            let after = member_points(book.push(p), tenant_id, user);
            let adds = p.tenant_id == tenant_id && p.user_id == user && p.points is Some;
            &&& member_points(Seq::empty(), tenant_id, user) == 0
            &&& adds ==> after == before + p.points->0
            &&& !adds ==> after == before
        }),
{
    assert(book.push(p).drop_last() =~= book);
}

/// A member is found by their address: the first who has it.
pub proof fn members_are_found_by_address(members: Seq<User>, email: Seq<char>, i: int)
    ensures
        0 <= i < members.len() && members[i].email@ == email && (forall|k: int|
            0 <= k < i ==> (#[trigger] members[k]).email@ != email) ==> member_position(
            members,
            email,
        ) == i,
        (forall|k: int| 0 <= k < members.len() ==> (#[trigger] members[k]).email@ != email)
            ==> member_position(members, email) == members.len(),
    decreases members.len(),
{
    if members.len() > 0 && members[0].email@ != email {
        let rest = members.drop_first();
        members_are_found_by_address(rest, email, i - 1);
        if 0 < i < members.len() {
            assert(rest[i - 1] == members[i]);
        }
        if forall|k: int| 0 <= k < i ==> (#[trigger] members[k]).email@ != email {
            assert forall|k: int| 0 <= k < i - 1 && k < rest.len() implies (
            #[trigger] rest[k]).email@ != email by {
                assert(rest[k] == members[k + 1]);
            }
        }
        if forall|k: int| 0 <= k < members.len() ==> (#[trigger] members[k]).email@ != email {
            assert forall|k: int| 0 <= k < rest.len() implies (#[trigger] rest[k]).email@
                != email by {
                assert(rest[k] == members[k + 1]);
            }
        }
    } else if members.len() > 0 && 0 < i < members.len() {
        assert(members[0].email@ == email);
    }
}

/// While developing, every member is listed with their own points; else nobody is.
pub proof fn members_are_listed_while_developing(
    dev_mode: bool,
    members: &Vec<User>,
    book: &Vec<Prediction>,
    tenant_id: u128,
    r: Result<Vec<DevUser>, DevRefusal>,
    i: int,
)
    requires
        call_ensures(index, (dev_mode, members, book, tenant_id), r),
        0 <= i < members@.len(),
    ensures
        r is Ok <==> dev_mode,
        r is Err ==> r->Err_0 == DevRefusal::Disabled,
        r is Ok ==> r->Ok_0@.len() == members@.len() && r->Ok_0@[i].email == members@[i].email
            && r->Ok_0@[i].display_name == members@[i].display_name && r->Ok_0@[i].points
            == member_points(book@, tenant_id, members@[i].id),
{
}

/// While developing, a known address signs its member in, for thirty days, whatever its
/// case and the white space around it; an unknown one does not, nor does any otherwise.
pub proof fn known_addresses_sign_in(
    dev_mode: bool,
    tenant_id: u128,
    members: &mut Vec<User>,
    q: &LoginQuery,
    is_admin: bool,
    at: Timestamp,
    r: Result<Session, DevRefusal>,
    i: int,
)
    requires
        call_ensures(login_as, (dev_mode, tenant_id, members, q, is_admin, at), r),
        on_calendar(at.secs + 30 * 86_400),
        0 <= i < old(members)@.len(),
        old(members)@[i].email@ == lowered(trimmed(q.email@)),
        forall|k: int|
            0 <= k < i ==> (#[trigger] old(members)@[k]).email@ != lowered(trimmed(q.email@)),
    ensures
        r is Ok <==> dev_mode,
        r is Err ==> r->Err_0 == DevRefusal::Disabled && final(members)@ == old(members)@,
        r is Ok ==> r->Ok_0.tenant_id == tenant_id && r->Ok_0.user_id == old(members)@[i].id
            && r->Ok_0.expires_at.secs == at.secs + 2_592_000,
        r is Ok ==> final(members)@ == old(members)@.update(
            i,
            User { is_admin, ..old(members)@[i] },
        ),
{
    members_are_found_by_address(old(members)@, lowered(trimmed(q.email@)), i);
}

/// An address that no member has signs nobody in.
pub proof fn unknown_addresses_do_not_sign_in(
    dev_mode: bool,
    tenant_id: u128,
    members: &mut Vec<User>,
    q: &LoginQuery,
    is_admin: bool,
    at: Timestamp,
    r: Result<Session, DevRefusal>,
    why: DevRefusal,
    code: u16,
    text: &'static str,
)
    requires
        call_ensures(login_as, (dev_mode, tenant_id, members, q, is_admin, at), r),
        call_ensures(DevRefusal::status, (why,), code),
        call_ensures(DevRefusal::message, (why,), text),
        forall|k: int|
            0 <= k < old(members)@.len() ==> (#[trigger] old(members)@[k]).email@ != lowered(
                trimmed(q.email@),
            ),
    ensures
        r is Err,
        dev_mode ==> r->Err_0 == DevRefusal::UnknownUser,
        !dev_mode ==> r->Err_0 == DevRefusal::Disabled,
        final(members)@ == old(members)@,
        code == 404,
        why == DevRefusal::Disabled ==> text@ == "Dev mode disabled."@,
        why == DevRefusal::UnknownUser ==> text@
            == "Utilisateur introuvable. Lance d'abord `cargo run -- seed`."@,
{
    members_are_found_by_address(old(members)@, lowered(trimmed(q.email@)), 0);
}

/// Members can be listed where everyone's points fit the range of numbers.
pub proof fn ordinary_points_can_be_shown(
    members: &Vec<User>,
    book: &Vec<Prediction>,
    tenant_id: u128,
    r: bool,
)
    requires
        call_ensures(are_points_showable, (members, book, tenant_id), r),
    ensures
        r <==> forall|i: int|
            0 <= i < members@.len() ==> -0x8000_0000_0000_0000 <= member_points(
                book@,
                tenant_id,
                (#[trigger] members@[i]).id,
            ) <= 0x7fff_ffff_ffff_ffff,
{
}

} // verus!
