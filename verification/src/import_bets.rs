//! Copying predictions from another space: a person who plays in several spaces
//! for the same tournament need not type them twice. Only predictions for
//! matches that are still open are copied, and none that was placed here is
//! overwritten.
use vstd::prelude::*;

use crate::bets::{
    bet_on, bet_position, find_bet, find_own_bet, one_bet_per_match, own_bet, own_bets_are_found,
    position_bounds, Member,
};
use crate::clock::Timestamp;
use crate::models::{
    find_match, match_with_id, matches_are_found_by_id, Match, Prediction, User,
};
use crate::tenant::Tenant;
use crate::text::{decimal, str_eq, to_decimal};

verus! {

/// Someone's account in a space, with what is needed of the space.
#[derive(Debug)]
pub struct Membership {
    pub tenant_id: u128,
    pub user_id: u128,
    pub email: String,
    pub slug: String,
    pub name: String,
    pub football_competition: String,
}

/// Another space of a member, with the number of predictions that can still be
/// copied from it.
#[derive(Debug)]
pub struct ImportSource {
    pub slug: String,
    pub name: String,
    pub count: i64,
}

/// Whether an account is one of the user's in another space for the same
/// tournament.
pub open spec fn is_source(s: Membership, tenant: Tenant, user: User) -> bool {
    &&& s.email@ == user.email@
    &&& s.tenant_id != tenant.id
    &&& s.football_competition@ == tenant.football_competition@
}

/// Whether bets are taken on a match.
pub open spec fn still_open(matches: Seq<Match>, match_id: i64, at: Timestamp) -> bool {
    match match_with_id(matches, match_id) {
        Some(m) => m.open_at(at),
        None => false,
    }
}

fn is_still_open(matches: &Vec<Match>, match_id: i64, at: Timestamp) -> (r: bool)
    ensures
        r == still_open(matches@, match_id, at),
{
    match find_match(matches, match_id) {
        Some(m) => m.is_open_for_bets_at(at),
        None => false,
    }
}

/// Whether a prediction could be copied from an account: it was placed there on
/// an open match, and none was placed here.
pub open spec fn copyable(
    p: Prediction,
    s: Membership,
    who: Member,
    book: Seq<Prediction>,
    matches: Seq<Match>,
    at: Timestamp,
) -> bool {
    &&& p.user_id == s.user_id
    &&& p.tenant_id == s.tenant_id
    &&& still_open(matches, p.match_id, at)
    &&& own_bet(book, who, p.match_id) is None
}

/// How many of the first `n` predictions could be copied from an account.
pub open spec fn copyable_count(
    s: Membership,
    who: Member,
    book: Seq<Prediction>,
    matches: Seq<Match>,
    at: Timestamp,
    n: int,
) -> int
    decreases n,
{
    if n <= 0 {
        0
    } else {
        copyable_count(s, who, book, matches, at, n - 1) + if copyable(
            book[n - 1],
            s,
            who,
            book,
            matches,
            at,
        ) {
            1int
        } else {
            0int
        }
    }
}

fn count_copyable(
    s: &Membership,
    who: Member,
    book: &Vec<Prediction>,
    matches: &Vec<Match>,
    at: Timestamp,
) -> (r: i64)
    requires
        book@.len() <= i64::MAX,
    ensures
        r == copyable_count(*s, who, book@, matches@, at, book@.len() as int),
        r >= 0,
{
    let mut count: i64 = 0;
    let mut i: usize = 0;
    while i < book.len()
        invariant
            i <= book.len(),
            book@.len() <= i64::MAX,
            0 <= count <= i,
            count == copyable_count(*s, who, book@, matches@, at, i as int),
        decreases book.len() - i,
    {
        let p: Prediction = book[i];
        if p.user_id == s.user_id && p.tenant_id == s.tenant_id && is_still_open(
            matches,
            p.match_id,
            at,
        ) && find_own_bet(book, who, p.match_id).is_none() {
            count = count + 1;
        }
        i = i + 1;
    }
    count
}

/// The user's accounts from which something could be copied, in order.
pub open spec fn sources(
    accounts: Seq<Membership>,
    tenant: Tenant,
    user: User,
    book: Seq<Prediction>,
    matches: Seq<Match>,
    at: Timestamp,
) -> Seq<Membership>
    decreases accounts.len(),
{
    if accounts.len() == 0 {
        Seq::empty()
    } else {
        let before = sources(accounts.drop_last(), tenant, user, book, matches, at);
        let s = accounts.last();
        let who = Member { tenant_id: tenant.id, user_id: user.id };
        if is_source(s, tenant, user) && copyable_count(
            s,
            who,
            book,
            matches,
            at,
            book.len() as int,
        ) > 0 {
            before.push(s)
        } else {
            before
        }
    }
}

/// Whether some entries offer some accounts, one each.
pub open spec fn offer_all(
    offers: Seq<ImportSource>,
    accounts: Seq<Membership>,
    who: Member,
    book: Seq<Prediction>,
    matches: Seq<Match>,
    at: Timestamp,
) -> bool {
    &&& offers.len() == accounts.len()
    &&& forall|i: int|
        0 <= i < offers.len() ==> (#[trigger] offers[i]).slug == accounts[i].slug && offers[i].name
            == accounts[i].name && offers[i].count == copyable_count(
            accounts[i],
            who,
            book,
            matches,
            at,
            book.len() as int,
        )
}

/// The other spaces of the user that run the same tournament and hold
/// predictions which can still be copied, in the order of `accounts`.
pub fn detect_sources(
    accounts: &Vec<Membership>,
    tenant: &Tenant,
    user: &User,
    book: &Vec<Prediction>,
    matches: &Vec<Match>,
    at: Timestamp,
) -> (r: Vec<ImportSource>)
    requires
        book@.len() <= i64::MAX,
    ensures
        offer_all(
            r@,
            sources(accounts@, *tenant, *user, book@, matches@, at),
            Member { tenant_id: tenant.id, user_id: user.id },
            book@,
            matches@,
            at,
        ),
{
    let who: Member = Member { tenant_id: tenant.id, user_id: user.id };
    let mut out: Vec<ImportSource> = Vec::new();
    let mut i: usize = 0;
    while i < accounts.len()
        invariant
            i <= accounts.len(),
            book@.len() <= i64::MAX,
            who == (Member { tenant_id: tenant.id, user_id: user.id }),
            offer_all(
                out@,
                sources(accounts@.take(i as int), *tenant, *user, book@, matches@, at),
                who,
                book@,
                matches@,
                at,
            ),
        decreases accounts.len() - i,
    {
        assert(accounts@.take(i + 1).drop_last() =~= accounts@.take(i as int));
        let s: &Membership = &accounts[i];
        if str_eq(s.email.as_str(), user.email.as_str()) && s.tenant_id != tenant.id && str_eq(
            s.football_competition.as_str(),
            tenant.football_competition.as_str(),
        ) {
            let count: i64 = count_copyable(s, who, book, matches, at);
            if count > 0 {
                out.push(ImportSource { slug: s.slug.clone(), name: s.name.clone(), count });
            }
        }
        i = i + 1;
    }
    assert(accounts@.take(accounts@.len() as int) =~= accounts@);
    out
}

/// Whether an account is the user's in the space they asked to copy from: another
/// one, for the same tournament.
pub open spec fn is_chosen(s: Membership, slug: Seq<char>, tenant: Tenant, user: User) -> bool {
    &&& s.slug@ == slug
    &&& s.slug@ != tenant.slug@
    &&& s.email@ == user.email@
    &&& s.football_competition@ == tenant.football_competition@
}

/// Whether a prediction was placed from the chosen account.
pub open spec fn from_chosen(
    p: Prediction,
    accounts: Seq<Membership>,
    slug: Seq<char>,
    tenant: Tenant,
    user: User,
) -> bool {
    exists|k: int|
        0 <= k < accounts.len() && p.user_id == (#[trigger] accounts[k]).user_id && p.tenant_id
            == accounts[k].tenant_id && is_chosen(accounts[k], slug, tenant, user)
}

fn is_from_chosen(
    p: Prediction,
    accounts: &Vec<Membership>,
    slug: &str,
    tenant: &Tenant,
    user: &User,
) -> (r: bool)
    ensures
        r == from_chosen(p, accounts@, slug@, *tenant, *user),
{
    let mut k: usize = 0;
    while k < accounts.len()
        invariant
            k <= accounts.len(),
            forall|j: int|
                0 <= j < k ==> !(p.user_id == (#[trigger] accounts@[j]).user_id && p.tenant_id
                    == accounts@[j].tenant_id && is_chosen(accounts@[j], slug@, *tenant, *user)),
        decreases accounts.len() - k,
    {
        let s: &Membership = &accounts[k];
        if p.user_id == s.user_id && p.tenant_id == s.tenant_id && str_eq(s.slug.as_str(), slug)
            && !str_eq(s.slug.as_str(), tenant.slug.as_str()) && str_eq(
            s.email.as_str(),
            user.email.as_str(),
        ) && str_eq(s.football_competition.as_str(), tenant.football_competition.as_str()) {
            assert(p.user_id == accounts@[k as int].user_id);
            return true;
        }
        k = k + 1;
    }
    false
}

/// A prediction copied to a player: the scores alone.
pub open spec fn copied(p: Prediction, who: Member) -> Prediction {
    Prediction {
        tenant_id: who.tenant_id,
        user_id: who.user_id,
        match_id: p.match_id,
        home_score: p.home_score,
        away_score: p.away_score,
        points: None,
        multiplier: 1,
    }
}

/// The book once the first `n` predictions were looked at for copying.
pub open spec fn imported(
    book: Seq<Prediction>,
    accounts: Seq<Membership>,
    slug: Seq<char>,
    tenant: Tenant,
    user: User,
    matches: Seq<Match>,
    at: Timestamp,
    n: int,
) -> Seq<Prediction>
    decreases n,
{
    if n <= 0 {
        book
    } else {
        let before = imported(book, accounts, slug, tenant, user, matches, at, n - 1);
        let p = book[n - 1];
        if from_chosen(p, accounts, slug, tenant, user) && still_open(matches, p.match_id, at)
            && bet_on(before, user.id, p.match_id) is None {
            before.push(copied(p, Member { tenant_id: tenant.id, user_id: user.id }))
        } else {
            before
        }
    }
}

/// Copies the user's predictions from the space with a given slug, and says how
/// many were copied. Where the user has a prediction it is kept.
pub fn import(
    book: &mut Vec<Prediction>,
    accounts: &Vec<Membership>,
    source_slug: &str,
    tenant: &Tenant,
    user: &User,
    matches: &Vec<Match>,
    at: Timestamp,
) -> (r: usize)
    ensures
        final(book)@ == imported(
            old(book)@,
            accounts@,
            source_slug@,
            *tenant,
            *user,
            matches@,
            at,
            old(book)@.len() as int,
        ),
        r == final(book)@.len() - old(book)@.len(),
{
    let ghost start = book@;
    let n: usize = book.len();
    let mut inserted: usize = 0;
    let mut i: usize = 0;
    while i < n
        invariant
            i <= n,
            n == start.len(),
            inserted <= i,
            book@.len() == n + inserted,
            forall|k: int| 0 <= k < n ==> #[trigger] book@[k] == start[k],
            book@ == imported(
                start,
                accounts@,
                source_slug@,
                *tenant,
                *user,
                matches@,
                at,
                i as int,
            ),
        decreases n - i,
    {
        let p: Prediction = book[i];
        assert(p == start[i as int]);
        proof {
            position_bounds(book@, user.id, p.match_id);
        }
        if is_from_chosen(p, accounts, source_slug, tenant, user) && is_still_open(
            matches,
            p.match_id,
            at,
        ) && find_bet(book, user.id, p.match_id) >= book.len() {
            book.push(
                Prediction {
                    tenant_id: tenant.id,
                    user_id: user.id,
                    match_id: p.match_id,
                    home_score: p.home_score,
                    away_score: p.away_score,
                    points: None,
                    multiplier: 1,
                },
            );
            inserted = inserted + 1;
        }
        i = i + 1;
    }
    inserted
}

/// Where the browser goes after copying.
pub fn after_import(inserted: u32) -> (r: String)
    ensures
        r@ == "/matches?imported="@ + decimal(inserted as int),
{
    let mut path: String = "/matches?imported=".to_owned();
    path.append(to_decimal(inserted as i64).as_str());
    path
}

/// Copying leaves every prediction that was there as it was, and adds only
/// predictions of the user, unsettled and without a joker, for open matches.
pub proof fn importing_only_fills_blanks(
    book: Seq<Prediction>,
    accounts: Seq<Membership>,
    slug: Seq<char>,
    tenant: Tenant,
    user: User,
    matches: Seq<Match>,
    at: Timestamp,
    n: int,
    i: int,
)
    requires
        n <= book.len(),
        0 <= i < imported(book, accounts, slug, tenant, user, matches, at, n).len(),
    ensures
        ({
            let after = imported(book, accounts, slug, tenant, user, matches, at, n);
            &&& after.len() >= book.len()
            &&& i < book.len() ==> after[i] == book[i]
            &&& i >= book.len() ==> after[i].tenant_id == tenant.id && after[i].user_id == user.id
                && after[i].points is None && after[i].multiplier == 1 && still_open(
                matches,
                after[i].match_id,
                at,
            ) && bet_on(book, user.id, after[i].match_id) is None
        }),
    decreases n,
{
    imports_extend(book, accounts, slug, tenant, user, matches, at, n);
    if n > 0 {
        let before = imported(book, accounts, slug, tenant, user, matches, at, n - 1);
        imports_extend(book, accounts, slug, tenant, user, matches, at, n - 1);
        if i < before.len() {
            importing_only_fills_blanks(
                book,
                accounts,
                slug,
                tenant,
                user,
                matches,
                at,
                n - 1,
                i,
            );
        } else {
            let p = book[n - 1];
            position_bounds(before, user.id, p.match_id);
            position_bounds(book, user.id, p.match_id);
            let k = bet_position(book, user.id, p.match_id);
            if k < book.len() {
                assert(before[k] == book[k]);
            }
        }
    }
}

proof fn imports_extend(
    book: Seq<Prediction>,
    accounts: Seq<Membership>,
    slug: Seq<char>,
    tenant: Tenant,
    user: User,
    matches: Seq<Match>,
    at: Timestamp,
    n: int,
)
    requires
        n <= book.len(),
    ensures
        ({
            let after = imported(book, accounts, slug, tenant, user, matches, at, n);
            &&& after.len() >= book.len()
            &&& forall|k: int| 0 <= k < book.len() ==> #[trigger] after[k] == book[k]
        }),
    decreases n,
{
    if n > 0 {
        imports_extend(book, accounts, slug, tenant, user, matches, at, n - 1);
    }
}

/// Copying never leaves a player with two predictions for one match.
pub proof fn importing_keeps_one_bet_per_match(
    book: Seq<Prediction>,
    accounts: Seq<Membership>,
    slug: Seq<char>,
    tenant: Tenant,
    user: User,
    matches: Seq<Match>,
    at: Timestamp,
    n: int,
)
    requires
        n <= book.len(),
        one_bet_per_match(book),
    ensures
        one_bet_per_match(imported(book, accounts, slug, tenant, user, matches, at, n)),
    decreases n,
{
    if n > 0 {
        let before = imported(book, accounts, slug, tenant, user, matches, at, n - 1);
        importing_keeps_one_bet_per_match(
            book,
            accounts,
            slug,
            tenant,
            user,
            matches,
            at,
            n - 1,
        );
        position_bounds(before, user.id, book[n - 1].match_id);
    }
}

/// Every prediction of the chosen space for an open match has its counterpart
/// here afterwards.
pub proof fn importing_is_complete(
    book: Seq<Prediction>,
    accounts: Seq<Membership>,
    slug: Seq<char>,
    tenant: Tenant,
    user: User,
    matches: Seq<Match>,
    at: Timestamp,
    n: int,
    i: int,
)
    requires
        0 <= i < n <= book.len(),
        from_chosen(book[i], accounts, slug, tenant, user),
        still_open(matches, book[i].match_id, at),
    ensures
        bet_on(
            imported(book, accounts, slug, tenant, user, matches, at, n),
            user.id,
            book[i].match_id,
        ) is Some,
    decreases n,
{
    let id = book[i].match_id;
    let before = imported(book, accounts, slug, tenant, user, matches, at, n - 1);
    let after = imported(book, accounts, slug, tenant, user, matches, at, n);
    position_bounds(before, user.id, id);
    position_bounds(after, user.id, id);
    if i < n - 1 {
        importing_is_complete(book, accounts, slug, tenant, user, matches, at, n - 1, i);
        let k = bet_position(before, user.id, id);
        assert(after[k] == before[k]);
    } else if bet_on(before, user.id, id) is Some {
        let k = bet_position(before, user.id, id);
        assert(after[k] == before[k]);
    } else {
        assert(after[after.len() - 1].user_id == user.id && after[after.len() - 1].match_id == id);
    }
}

/// Copying twice copies nothing the second time.
pub proof fn importing_twice_adds_nothing(
    book: Seq<Prediction>,
    accounts: Seq<Membership>,
    slug: Seq<char>,
    tenant: Tenant,
    user: User,
    matches: Seq<Match>,
    at: Timestamp,
    n: int,
)
    requires
        n <= imported(
            book,
            accounts,
            slug,
            tenant,
            user,
            matches,
            at,
            book.len() as int,
        ).len(),
    ensures
        ({
            let once = imported(
                book,
                accounts,
                slug,
                tenant,
                user,
                matches,
                at,
                book.len() as int,
            );
            imported(once, accounts, slug, tenant, user, matches, at, n) == once
        }),
    decreases n,
{
    let size = book.len() as int;
    let once = imported(book, accounts, slug, tenant, user, matches, at, size);
    if n > 0 {
        importing_twice_adds_nothing(book, accounts, slug, tenant, user, matches, at, n - 1);
        let p = once[n - 1];
        importing_only_fills_blanks(
            book,
            accounts,
            slug,
            tenant,
            user,
            matches,
            at,
            size,
            n - 1,
        );
        position_bounds(once, user.id, p.match_id);
        if n - 1 < size {
            if from_chosen(p, accounts, slug, tenant, user) && still_open(
                matches,
                p.match_id,
                at,
            ) {
                importing_is_complete(
                    book,
                    accounts,
                    slug,
                    tenant,
                    user,
                    matches,
                    at,
                    size,
                    n - 1,
                );
            }
        } else {
            assert(once[n - 1].user_id == user.id);
        }
    }
}

proof fn copies_come_from_the_source(
    book: Seq<Prediction>,
    accounts: Seq<Membership>,
    slug: Seq<char>,
    tenant: Tenant,
    user: User,
    matches: Seq<Match>,
    at: Timestamp,
    n: int,
    k: int,
)
    requires
        n <= book.len(),
        book.len() <= k < imported(book, accounts, slug, tenant, user, matches, at, n).len(),
    ensures
        exists|j: int|
            0 <= j < n && (#[trigger] book[j]).match_id == imported(
                book,
                accounts,
                slug,
                tenant,
                user,
                matches,
                at,
                n,
            )[k].match_id && from_chosen(book[j], accounts, slug, tenant, user),
    decreases n,
{
    if n > 0 {
        let before = imported(book, accounts, slug, tenant, user, matches, at, n - 1);
        if k < before.len() {
            copies_come_from_the_source(
                book,
                accounts,
                slug,
                tenant,
                user,
                matches,
                at,
                n - 1,
                k,
            );
        } else {
            assert(from_chosen(book[n - 1], accounts, slug, tenant, user));
        }
    }
}

/// As many predictions are copied from a space as it was offered with: where a
/// slug stands for one space, the user has one account in it, and all their
/// predictions here are in this space.
pub proof fn offers_are_kept(
    book: Seq<Prediction>,
    accounts: Seq<Membership>,
    s: Membership,
    tenant: Tenant,
    user: User,
    matches: Seq<Match>,
    at: Timestamp,
    n: int,
)
    requires
        0 <= n <= book.len(),
        accounts.contains(s),
        is_source(s, tenant, user),
        s.slug@ != tenant.slug@,
        one_bet_per_match(book),
        forall|j: int|
            0 <= j < accounts.len() && is_chosen(#[trigger] accounts[j], s.slug@, tenant, user)
                ==> accounts[j].user_id == s.user_id && accounts[j].tenant_id == s.tenant_id,
        forall|j: int|
            0 <= j < book.len() && (#[trigger] book[j]).user_id == user.id ==> book[j].tenant_id
                == tenant.id,
    ensures
        imported(book, accounts, s.slug@, tenant, user, matches, at, n).len() == book.len()
            + copyable_count(
            s,
            Member { tenant_id: tenant.id, user_id: user.id },
            book,
            matches,
            at,
            n,
        ),
    decreases n,
{
    if n > 0 {
        offers_are_kept(book, accounts, s, tenant, user, matches, at, n - 1);
        let slug = s.slug@;
        let who = Member { tenant_id: tenant.id, user_id: user.id };
        let before = imported(book, accounts, slug, tenant, user, matches, at, n - 1);
        let p = book[n - 1];
        let j = choose|j: int| 0 <= j < accounts.len() && accounts[j] == s;
        assert(is_chosen(accounts[j], slug, tenant, user));
        assert(from_chosen(p, accounts, slug, tenant, user) <==> p.user_id == s.user_id
            && p.tenant_id == s.tenant_id);
        imports_extend(book, accounts, slug, tenant, user, matches, at, n - 1);
        position_bounds(book, user.id, p.match_id);
        position_bounds(before, user.id, p.match_id);
        let here = bet_position(book, user.id, p.match_id);
        let there = bet_position(before, user.id, p.match_id);
        if here < book.len() {
            assert(book[here].tenant_id == tenant.id);
            assert(before[here] == book[here]);
        } else if from_chosen(p, accounts, slug, tenant, user) && there < before.len() {
            if there < book.len() {
                assert(before[there] == book[there]);
            } else {
                copies_come_from_the_source(
                    book,
                    accounts,
                    slug,
                    tenant,
                    user,
                    matches,
                    at,
                    n - 1,
                    there,
                );
                let k = choose|k: int|
                    0 <= k < n - 1 && (#[trigger] book[k]).match_id == before[there].match_id
                        && from_chosen(book[k], accounts, slug, tenant, user);
                assert(book[k].user_id == s.user_id);
                assert(book[n - 1].match_id == book[k].match_id);
            }
        }
    }
}

/// Every prediction that copying adds has the match and both scores of a prediction
/// that was placed from an account of the same person, in the space asked for,
/// which is another one for the same tournament; and it is the member's, here.
pub proof fn copies_equal_their_source(
    book: Seq<Prediction>,
    accounts: Seq<Membership>,
    slug: Seq<char>,
    tenant: Tenant,
    user: User,
    matches: Seq<Match>,
    at: Timestamp,
    n: int,
    i: int,
)
    requires
        n <= book.len(),
        book.len() <= i < imported(book, accounts, slug, tenant, user, matches, at, n).len(),
    ensures
        ({
            let copy = imported(book, accounts, slug, tenant, user, matches, at, n)[i];
            &&& copy.tenant_id == tenant.id
            &&& copy.user_id == user.id
            &&& copy.points is None
            &&& copy.multiplier == 1
            &&& exists|j: int, k: int|
                {
                    &&& 0 <= j < n
                    &&& 0 <= k < accounts.len()
                    &&& (#[trigger] book[j]).match_id == copy.match_id
                    &&& book[j].home_score == copy.home_score
                    &&& book[j].away_score == copy.away_score
                    &&& book[j].user_id == (#[trigger] accounts[k]).user_id
                    &&& book[j].tenant_id == accounts[k].tenant_id
                    &&& accounts[k].slug@ == slug
                    &&& accounts[k].slug@ != tenant.slug@
                    &&& accounts[k].email@ == user.email@
                    &&& accounts[k].football_competition@ == tenant.football_competition@
                }
        }),
    decreases n,
{
    imports_extend(book, accounts, slug, tenant, user, matches, at, n - 1);
    let before = imported(book, accounts, slug, tenant, user, matches, at, n - 1);
    if n > 0 {
        if i < before.len() {
            copies_equal_their_source(
                book,
                accounts,
                slug,
                tenant,
                user,
                matches,
                at,
                n - 1,
                i,
            );
        } else {
            let p = book[n - 1];
            let k = choose|k: int|
                0 <= k < accounts.len() && p.user_id == (#[trigger] accounts[k]).user_id
                    && p.tenant_id == accounts[k].tenant_id && is_chosen(
                    accounts[k],
                    slug,
                    tenant,
                    user,
                );
            assert(book[n - 1].user_id == accounts[k].user_id);
        }
    }
}

/// A prediction of the same person in the space asked for, on a match that is open
/// and that they have not bet on here, is here afterwards with its scores, where it
/// is the only one there for that match.
pub proof fn open_predictions_are_copied(
    book: Seq<Prediction>,
    accounts: Seq<Membership>,
    slug: Seq<char>,
    tenant: Tenant,
    user: User,
    matches: Seq<Match>,
    at: Timestamp,
    i: int,
    k: int,
    f: int,
)
    requires
        0 <= i < book.len(),
        0 <= k < accounts.len(),
        book[i].user_id == accounts[k].user_id,
        book[i].tenant_id == accounts[k].tenant_id,
        accounts[k].slug@ == slug,
        slug != tenant.slug@,
        accounts[k].email@ == user.email@,
        accounts[k].football_competition@ == tenant.football_competition@,
        0 <= f < matches.len(),
        matches[f].id == book[i].match_id,
        matches[f].open_at(at),
        forall|j: int| 0 <= j < f ==> (#[trigger] matches[j]).id != book[i].match_id,
        forall|j: int|
            0 <= j < book.len() && (#[trigger] book[j]).user_id == user.id ==> book[j].match_id
                != book[i].match_id,
        forall|j: int|
            0 <= j < book.len() && j != i && from_chosen(
                #[trigger] book[j],
                accounts,
                slug,
                tenant,
                user,
            ) ==> book[j].match_id != book[i].match_id,
    ensures
        ({
            let after = imported(
                book,
                accounts,
                slug,
                tenant,
                user,
                matches,
                at,
                book.len() as int,
            );
            exists|e: int|
                book.len() <= e < after.len() && (#[trigger] after[e]).user_id == user.id
                    && after[e].tenant_id == tenant.id && after[e].match_id == book[i].match_id
                    && after[e].home_score == book[i].home_score && after[e].away_score
                    == book[i].away_score
        }),
{
    let n = book.len() as int;
    let id = book[i].match_id;
    let after = imported(book, accounts, slug, tenant, user, matches, at, n);
    matches_are_found_by_id(matches, id);
    assert(from_chosen(book[i], accounts, slug, tenant, user)) by {
        assert(is_chosen(accounts[k], slug, tenant, user));
    }
    importing_is_complete(book, accounts, slug, tenant, user, matches, at, n, i);
    position_bounds(after, user.id, id);
    let e = bet_position(after, user.id, id);
    imports_extend(book, accounts, slug, tenant, user, matches, at, n);
    if e < book.len() {
        assert(after[e] == book[e]);
    }
    copies_equal_their_source(book, accounts, slug, tenant, user, matches, at, n, e);
    let (j, a) = choose|j: int, a: int|
        {
            &&& 0 <= j < n
            &&& 0 <= a < accounts.len()
            &&& (#[trigger] book[j]).match_id == after[e].match_id
            &&& book[j].home_score == after[e].home_score
            &&& book[j].away_score == after[e].away_score
            &&& book[j].user_id == (#[trigger] accounts[a]).user_id
            &&& book[j].tenant_id == accounts[a].tenant_id
            &&& accounts[a].slug@ == slug
            &&& accounts[a].slug@ != tenant.slug@
            &&& accounts[a].email@ == user.email@
            &&& accounts[a].football_competition@ == tenant.football_competition@
        };
    assert(is_chosen(accounts[a], slug, tenant, user));
    assert(from_chosen(book[j], accounts, slug, tenant, user));
    assert(j == i);
    assert(after[e].user_id == user.id);
}

/// Each account in turn is offered or not: it is, where it is the same person's in
/// another space for the same tournament, and something can be copied from it.
pub proof fn each_account_is_offered_or_not(
    accounts: Seq<Membership>,
    s: Membership,
    tenant: Tenant,
    user: User,
    book: Seq<Prediction>,
    matches: Seq<Match>,
    at: Timestamp,
)
    ensures
        ({
            let before = sources(accounts, tenant, user, book, matches, at);
            let after = sources(accounts.push(s), tenant, user, book, matches, at);
            let count = copyable_count(
                s,
                Member { tenant_id: tenant.id, user_id: user.id },
                book,
                matches,
                at,
                book.len() as int,
            );
            let offered = s.email@ == user.email@ && s.tenant_id != tenant.id
                && s.football_competition@ == tenant.football_competition@ && count > 0;
            &&& sources(Seq::empty(), tenant, user, book, matches, at).len() == 0
            &&& offered ==> after == before.push(s)
            &&& !offered ==> after == before
        }),
{
    assert(accounts.push(s).drop_last() =~= accounts);
}

/// Each prediction in turn counts for an account or not: it does, where it was placed
/// from it, its match is open, and the member has none for that match here.
pub proof fn each_prediction_counts_or_not(
    s: Membership,
    who: Member,
    book: Seq<Prediction>,
    matches: Seq<Match>,
    at: Timestamp,
    n: int,
    f: int,
)
    requires
        0 <= n < book.len(),
        one_bet_per_match(book),
        0 <= f < matches.len(),
        matches[f].id == book[n].match_id,
        forall|j: int| 0 <= j < f ==> (#[trigger] matches[j]).id != book[n].match_id,
    ensures
        ({
            let before = copyable_count(s, who, book, matches, at, n);
            let after = copyable_count(s, who, book, matches, at, n + 1);
            let taken = exists|j: int|
                0 <= j < book.len() && (#[trigger] book[j]).user_id == who.user_id
                    && book[j].tenant_id == who.tenant_id && book[j].match_id == book[n].match_id;
            let counts = book[n].user_id == s.user_id && book[n].tenant_id == s.tenant_id
                && matches[f].open_at(at) && !taken;
            &&& copyable_count(s, who, book, matches, at, 0) == 0
            &&& counts ==> after == before + 1
            &&& !counts ==> after == before
        }),
{
    let id = book[n].match_id;
    matches_are_found_by_id(matches, id);
    position_bounds(book, who.user_id, id);
    if exists|j: int|
        0 <= j < book.len() && (#[trigger] book[j]).user_id == who.user_id && book[j].tenant_id
            == who.tenant_id && book[j].match_id == id {
        let j = choose|j: int|
            0 <= j < book.len() && (#[trigger] book[j]).user_id == who.user_id
                && book[j].tenant_id == who.tenant_id && book[j].match_id == id;
        own_bets_are_found(book, who, id, j);
    } else if own_bet(book, who, id) is Some {
        let p = bet_position(book, who.user_id, id);
        assert(book[p].user_id == who.user_id);
    }
}

/// Importing keeps every bet and adds copies for the player, in their own space: each
/// with both scores of a prediction that the account with the chosen name made, on a
/// match that is open.
pub proof fn importing_copies_both_scores(
    book: &mut Vec<Prediction>,
    accounts: &Vec<Membership>,
    source_slug: &str,
    tenant: &Tenant,
    user: &User,
    matches: &Vec<Match>,
    at: Timestamp,
    r: usize,
    i: int,
)
    requires
        call_ensures(import, (book, accounts, source_slug, tenant, user, matches, at), r),
        0 <= i < final(book)@.len(),
    ensures
        final(book)@.len() == old(book)@.len() + r,
        i < old(book)@.len() ==> final(book)@[i] == old(book)@[i],
        i >= old(book)@.len() ==> {
            let copy = final(book)@[i];
            &&& copy.tenant_id == tenant.id
            &&& copy.user_id == user.id
            &&& copy.points is None
            &&& copy.multiplier == 1
            &&& still_open(matches@, copy.match_id, at)
            &&& exists|j: int, k: int|
                {
                    &&& 0 <= j < old(book)@.len()
                    &&& 0 <= k < accounts@.len()
                    &&& (#[trigger] old(book)@[j]).match_id == copy.match_id
                    &&& old(book)@[j].home_score == copy.home_score
                    &&& old(book)@[j].away_score == copy.away_score
                    &&& old(book)@[j].user_id == (#[trigger] accounts@[k]).user_id
                    &&& old(book)@[j].tenant_id == accounts@[k].tenant_id
                    &&& accounts@[k].slug@ == source_slug@
                    &&& accounts@[k].slug@ != tenant.slug@
                    &&& accounts@[k].email@ == user.email@
                    &&& accounts@[k].football_competition@ == tenant.football_competition@
                }
        },
{
    let n = old(book)@.len() as int;
    imports_extend(old(book)@, accounts@, source_slug@, *tenant, *user, matches@, at, n);
    importing_only_fills_blanks(
        old(book)@,
        accounts@,
        source_slug@,
        *tenant,
        *user,
        matches@,
        at,
        n,
        i,
    );
    if i >= n {
        copies_equal_their_source(
            old(book)@,
            accounts@,
            source_slug@,
            *tenant,
            *user,
            matches@,
            at,
            n,
            i,
        );
    }
}

/// Importing leaves no open prediction of the chosen account out that the player has no
/// bet on yet: it is in the book afterwards with both its scores.
pub proof fn importing_leaves_nothing_out(
    book: &mut Vec<Prediction>,
    accounts: &Vec<Membership>,
    source_slug: &str,
    tenant: &Tenant,
    user: &User,
    matches: &Vec<Match>,
    at: Timestamp,
    r: usize,
    i: int,
    k: int,
    f: int,
)
    requires
        call_ensures(import, (book, accounts, source_slug, tenant, user, matches, at), r),
        0 <= i < old(book)@.len(),
        0 <= k < accounts@.len(),
        old(book)@[i].user_id == accounts@[k].user_id,
        old(book)@[i].tenant_id == accounts@[k].tenant_id,
        accounts@[k].slug@ == source_slug@,
        source_slug@ != tenant.slug@,
        accounts@[k].email@ == user.email@,
        accounts@[k].football_competition@ == tenant.football_competition@,
        0 <= f < matches@.len(),
        matches@[f].id == old(book)@[i].match_id,
        matches@[f].open_at(at),
        forall|j: int| 0 <= j < f ==> (#[trigger] matches@[j]).id != old(book)@[i].match_id,
        forall|j: int|
            0 <= j < old(book)@.len() && (#[trigger] old(book)@[j]).user_id == user.id
                ==> old(book)@[j].match_id != old(book)@[i].match_id,
        forall|j: int|
            0 <= j < old(book)@.len() && j != i && from_chosen(
                #[trigger] old(book)@[j],
                accounts@,
                source_slug@,
                *tenant,
                *user,
            ) ==> old(book)@[j].match_id != old(book)@[i].match_id,
    ensures
        exists|e: int|
            old(book)@.len() <= e < final(book)@.len() && (#[trigger] final(book)@[e]).user_id
                == user.id && final(book)@[e].tenant_id == tenant.id && final(book)@[e].match_id
                == old(book)@[i].match_id && final(book)@[e].home_score == old(book)@[i].home_score
                && final(book)@[e].away_score == old(book)@[i].away_score,
{
    open_predictions_are_copied(
        old(book)@,
        accounts@,
        source_slug@,
        *tenant,
        *user,
        matches@,
        at,
        i,
        k,
        f,
    );
}

proof fn offered_accounts_are_sources(
    accounts: Seq<Membership>,
    tenant: Tenant,
    user: User,
    book: Seq<Prediction>,
    matches: Seq<Match>,
    at: Timestamp,
    s: Membership,
)
    ensures
        sources(accounts, tenant, user, book, matches, at).contains(s) <==> accounts.contains(s)
            && is_source(s, tenant, user) && copyable_count(
            s,
            Member { tenant_id: tenant.id, user_id: user.id },
            book,
            matches,
            at,
            book.len() as int,
        ) > 0,
    decreases accounts.len(),
{
    if accounts.len() > 0 {
        let front = accounts.drop_last();
        let last = accounts.last();
        offered_accounts_are_sources(front, tenant, user, book, matches, at, s);
        assert(accounts[accounts.len() - 1] == last);
        let before = sources(front, tenant, user, book, matches, at);
        let all = sources(accounts, tenant, user, book, matches, at);
        if accounts.contains(s) {
            let k = choose|k: int| 0 <= k < accounts.len() && accounts[k] == s;
            if k < front.len() {
                assert(front[k] == s);
            }
        }
        if front.contains(s) {
            let k = choose|k: int| 0 <= k < front.len() && front[k] == s;
            assert(accounts[k] == s);
        }
        if before.contains(s) {
            let k = choose|k: int| 0 <= k < before.len() && before[k] == s;
            assert(all[k] == s);
        }
        if all.contains(s) {
            let k = choose|k: int| 0 <= k < all.len() && all[k] == s;
            if k < before.len() {
                assert(before[k] == s);
            }
        }
        if all.len() > before.len() {
            assert(all[before.len() as int] == last);
        }
    }
}

/// What is offered comes from accounts with the player's address in other spaces on the
/// same competition, under the name of that space, where there is something to copy;
/// and every such account is offered.
pub proof fn offers_come_from_other_spaces(
    accounts: &Vec<Membership>,
    tenant: &Tenant,
    user: &User,
    book: &Vec<Prediction>,
    matches: &Vec<Match>,
    at: Timestamp,
    r: Vec<ImportSource>,
    o: int,
    a: int,
)
    requires
        call_ensures(detect_sources, (accounts, tenant, user, book, matches, at), r),
        0 <= a < accounts@.len(),
    ensures
        0 <= o < r@.len() ==> r@[o].count > 0 && exists|k: int|
            {
                &&& 0 <= k < accounts@.len()
                &&& (#[trigger] accounts@[k]).slug == r@[o].slug
                &&& accounts@[k].name == r@[o].name
                &&& accounts@[k].email@ == user.email@
                &&& accounts@[k].tenant_id != tenant.id
                &&& accounts@[k].football_competition@ == tenant.football_competition@
            },
        accounts@[a].email@ == user.email@ && accounts@[a].tenant_id != tenant.id
            && accounts@[a].football_competition@ == tenant.football_competition@
            && copyable_count(
            accounts@[a],
            Member { tenant_id: tenant.id, user_id: user.id },
            book@,
            matches@,
            at,
            book@.len() as int,
        ) > 0 ==> exists|k: int|
            0 <= k < r@.len() && (#[trigger] r@[k]).slug == accounts@[a].slug && r@[k].count
                == copyable_count(
                accounts@[a],
                Member { tenant_id: tenant.id, user_id: user.id },
                book@,
                matches@,
                at,
                book@.len() as int,
            ),
{
    let offered = sources(accounts@, *tenant, *user, book@, matches@, at);
    if 0 <= o < r@.len() {
        assert(r@[o].slug == offered[o].slug);
        assert(offered.contains(offered[o]));
        offered_accounts_are_sources(
            accounts@,
            *tenant,
            *user,
            book@,
            matches@,
            at,
            offered[o],
        );
        let k = choose|k: int| 0 <= k < accounts@.len() && accounts@[k] == offered[o];
        assert(accounts@[k].slug == r@[o].slug);
    }
    offered_accounts_are_sources(accounts@, *tenant, *user, book@, matches@, at, accounts@[a]);
    assert(accounts@.contains(accounts@[a]));
    if offered.contains(accounts@[a]) {
        let k = choose|k: int| 0 <= k < offered.len() && offered[k] == accounts@[a];
        assert(r@[k].slug == accounts@[a].slug);
    }
}

/// After an import the list of matches tells how many bets were copied.
pub proof fn imports_are_told(inserted: u32, r: String)
    requires
        call_ensures(after_import, (inserted,), r),
    ensures
        r@ == "/matches?imported="@ + decimal(inserted as int),
{
}

/// Only a match that is known can be open.
pub proof fn open_matches_are_known(matches: Seq<Match>, id: i64, at: Timestamp, f: int)
    ensures
        0 <= f < matches.len() && matches[f].id == id && (forall|j: int|
            0 <= j < f ==> (#[trigger] matches[j]).id != id) ==> (still_open(matches, id, at)
            <==> matches[f].open_at(at)),
        (forall|j: int| 0 <= j < matches.len() ==> (#[trigger] matches[j]).id != id)
            ==> !still_open(matches, id, at),
{
    matches_are_found_by_id(matches, id);
}

} // verus!
