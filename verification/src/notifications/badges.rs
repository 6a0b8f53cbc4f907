//! Mails about unlocked badges: each badge is announced to its owner once.
use vstd::prelude::*;

use crate::achievements::{badge, badge_at, def, def_of, known, BadgeDef, BADGE_COUNT};
use crate::clock::Timestamp;
use crate::i18n::{user_locale, Locale};
use crate::ordering::{
    by_mark, by_mark_is_a_sorted_permutation, order_by_mark, positions, positions_are_in_order, Mark,
};
use crate::text::{any_text, texts};

verus! {

/// A badge a player has, and whether it was announced to them.
#[derive(Debug)]
pub struct BadgeRow {
    pub tenant_id: u128,
    pub user_id: u128,
    pub email: String,
    pub lang: String,
    pub code: String,
    pub earned_at: Timestamp,
    pub notified: bool,
}

impl BadgeRow {
    fn announced(&self) -> (r: BadgeRow)
        ensures
            r == (BadgeRow { notified: true, ..*self }),
    {
        BadgeRow {
            tenant_id: self.tenant_id,
            user_id: self.user_id,
            email: self.email.clone(),
            lang: self.lang.clone(),
            code: self.code.clone(),
            earned_at: self.earned_at,
            notified: true,
        }
    }
}

/// The codes among the first `n` of the catalogue that are not recorded yet.
pub open spec fn new_codes(recorded: Seq<Seq<char>>, n: int) -> Seq<Seq<char>>
    decreases n,
{
    if n <= 0 {
        Seq::empty()
    } else {
        let before = new_codes(recorded, n - 1);
        if recorded.contains(badge_at(n - 1).code@) {
            before
        } else {
            before.push(badge_at(n - 1).code@)
        }
    }
}

/// Whether a code is in the catalogue but was not recorded yet.
pub open spec fn brand_new(recorded: Seq<Seq<char>>, code: Seq<char>) -> bool {
    known(code) && !recorded.contains(code)
}

/// The badges once those with a brand-new code count as announced.
pub open spec fn backfilled(rows: Seq<BadgeRow>, recorded: Seq<Seq<char>>) -> Seq<BadgeRow> {
    Seq::new(
        rows.len(),
        |i: int|
            if brand_new(recorded, rows[i].code@) {
                BadgeRow { notified: true, ..rows[i] }
            } else {
                rows[i]
            },
    )
}

/// Takes every badge that is held when its code is first seen as announced, and
/// records the code, so that a new badge never sets off mails about the past.
/// Badges with a recorded code are left as they are.
pub fn init_badge_notifications(recorded: &mut Vec<String>, rows: &mut Vec<BadgeRow>)
    ensures
        texts(final(recorded)@) == texts(old(recorded)@) + new_codes(
            texts(old(recorded)@),
            BADGE_COUNT as int,
        ),
        final(rows)@ == backfilled(old(rows)@, texts(old(recorded)@)),
{
    let ghost seen = texts(recorded@);
    let ghost start = rows@;
    let n: usize = rows.len();
    let mut i: usize = 0;
    while i < n
        invariant
            i <= n,
            n == rows@.len(),
            n == start.len(),
            seen == texts(recorded@),
            forall|k: int| 0 <= k < i ==> #[trigger] rows@[k] == backfilled(start, seen)[k],
            forall|k: int| i <= k < n ==> #[trigger] rows@[k] == start[k],
        decreases n - i,
    {
        if def(rows[i].code.as_str()).is_some() && !any_text(recorded, rows[i].code.as_str()) {
            let done: BadgeRow = rows[i].announced();
            rows.set(i, done);
        }
        i = i + 1;
    }
    assert(rows@ =~= backfilled(start, seen));
    let mut added: Vec<String> = Vec::new();
    let mut b: usize = 0;
    assert(texts(added@) =~= new_codes(seen, 0));
    while b < BADGE_COUNT
        invariant
            b <= BADGE_COUNT,
            seen == texts(recorded@),
            texts(added@) == new_codes(seen, b as int),
        decreases BADGE_COUNT - b,
    {
        let code: &str = badge(b).code;
        if !any_text(recorded, code) {
            let ghost before = added@;
            added.push(code.to_owned());
            assert(texts(added@) =~= texts(before).push(code@));
        }
        b = b + 1;
    }
    let mut k: usize = 0;
    assert(texts(recorded@) =~= seen + texts(added@).take(0));
    while k < added.len()
        invariant
            k <= added.len(),
            texts(recorded@) == seen + texts(added@).take(k as int),
        decreases added.len() - k,
    {
        let ghost before = recorded@;
        recorded.push(added[k].clone());
        assert(texts(recorded@) =~= texts(before).push(added@[k as int]@));
        assert(texts(recorded@) =~= seen + texts(added@).take(k + 1));
        k = k + 1;
    }
    assert(texts(added@).take(added@.len() as int) =~= texts(added@));
}

/// What badges are ordered by: their owner, then when they were earned.
pub open spec fn badge_marks(rows: Seq<BadgeRow>) -> Seq<Mark> {
    Seq::new(rows.len(), |i: int| Mark { group: rows[i].user_id, at: rows[i].earned_at })
}

/// The badges by owner, in the order in which they were earned.
pub open spec fn in_order(rows: Seq<BadgeRow>) -> Seq<BadgeRow> {
    let order = by_mark(badge_marks(rows));
    Seq::new(order.len(), |i: int| rows[order[i]])
}

/// The badges of a space that were not announced yet, in order.
pub open spec fn unannounced(rows: Seq<BadgeRow>, tenant_id: u128) -> Seq<BadgeRow>
    decreases rows.len(),
{
    if rows.len() == 0 {
        Seq::empty()
    } else {
        let before = unannounced(rows.drop_last(), tenant_id);
        if rows.last().tenant_id == tenant_id && !rows.last().notified {
            before.push(rows.last())
        } else {
            before
        }
    }
}

/// The fresh badges of one player.
#[derive(Debug)]
pub struct Unlocks {
    pub user_id: u128,
    pub email: String,
    pub lang: String,
    pub codes: Vec<String>,
}

/// What a player is to be told of.
pub struct UnlocksText {
    pub user_id: u128,
    pub email: Seq<char>,
    pub lang: Seq<char>,
    pub codes: Seq<Seq<char>>,
}

impl Unlocks {
    /// What the player is to be told of.
    pub open spec fn content(self) -> UnlocksText {
        UnlocksText {
            user_id: self.user_id,
            email: self.email@,
            lang: self.lang@,
            codes: texts(self.codes@),
        }
    }
}

/// What each player is to be told of.
pub open spec fn all_contents(groups: Seq<Unlocks>) -> Seq<UnlocksText> {
    Seq::new(groups.len(), |i: int| groups[i].content())
}

/// The badges of neighbouring rows with the same owner, put together.
pub open spec fn grouped(rows: Seq<BadgeRow>) -> Seq<UnlocksText>
    decreases rows.len(),
{
    if rows.len() == 0 {
        Seq::empty()
    } else {
        let before = grouped(rows.drop_last());
        let row = rows.last();
        if before.len() > 0 && before.last().user_id == row.user_id {
            let open = before.last();
            before.drop_last().push(UnlocksText { codes: open.codes.push(row.code@), ..open })
        } else {
            before.push(
                UnlocksText {
                    user_id: row.user_id,
                    email: row.email@,
                    lang: row.lang@,
                    codes: seq![row.code@],
                },
            )
        }
    }
}

fn put_together(groups: &mut Vec<Unlocks>, row: &BadgeRow)
    ensures
        forall|rows: Seq<BadgeRow>| #[trigger]
            grouped(rows) == all_contents(old(groups)@) ==> all_contents(final(groups)@) == grouped(
                rows.push(*row),
            ),
{
    let ghost start = all_contents(groups@);
    let n: usize = groups.len();
    if n > 0 && groups[n - 1].user_id == row.user_id {
        let last: Option<Unlocks> = groups.pop();
        if let Some(open) = last {
            let ghost kept = open.content();
            let ghost front = groups@;
            let mut open: Unlocks = open;
            let ghost codes = open.codes@;
            open.codes.push(row.code.clone());
            assert(texts(open.codes@) =~= texts(codes).push(row.code@));
            let ghost grown = open.content();
            groups.push(open);
            assert(all_contents(groups@) =~= all_contents(front).push(grown));
            assert(all_contents(front) =~= start.drop_last());
        }
    } else {
        let mut codes: Vec<String> = Vec::new();
        codes.push(row.code.clone());
        assert(texts(codes@) =~= seq![row.code@]);
        let fresh: Unlocks = Unlocks {
            user_id: row.user_id,
            email: row.email.clone(),
            lang: row.lang.clone(),
            codes,
        };
        let ghost front = groups@;
        let ghost added = fresh.content();
        groups.push(fresh);
        assert(all_contents(groups@) =~= start.push(added));
    }
    assert forall|rows: Seq<BadgeRow>| #[trigger] grouped(rows) == start implies all_contents(
        groups@,
    ) == grouped(rows.push(*row)) by {
        assert(rows.push(*row).drop_last() =~= rows);
        assert(start.len() == n);
    }
}

/// The fresh badges of a space's players, one entry for each of them, in the order
/// in which they were earned.
pub fn fresh_badges(rows: &Vec<BadgeRow>, tenant_id: u128) -> (r: Vec<Unlocks>)
    ensures
        all_contents(r@) == grouped(unannounced(in_order(rows@), tenant_id)),
{
    let mut marks: Vec<Mark> = Vec::new();
    let mut m: usize = 0;
    while m < rows.len()
        invariant
            m <= rows.len(),
            marks@ =~= badge_marks(rows@).take(m as int),
        decreases rows.len() - m,
    {
        marks.push(Mark { group: rows[m].user_id, at: rows[m].earned_at });
        m = m + 1;
    }
    assert(marks@ =~= badge_marks(rows@));
    let order: Vec<usize> = order_by_mark(&marks);
    let ghost all = in_order(rows@);
    assert(all.len() == order@.len());
    let mut groups: Vec<Unlocks> = Vec::new();
    let mut i: usize = 0;
    assert(all_contents(groups@) =~= grouped(unannounced(all.take(0), tenant_id)));
    while i < order.len()
        invariant
            i <= order.len(),
            all == in_order(rows@),
            positions(order@) == by_mark(badge_marks(rows@)),
            all.len() == order@.len(),
            forall|k: int| 0 <= k < order@.len() ==> (#[trigger] order@[k]) < rows@.len(),
            all_contents(groups@) == grouped(unannounced(all.take(i as int), tenant_id)),
        decreases order.len() - i,
    {
        let row: &BadgeRow = &rows[order[i]];
        assert(positions(order@)[i as int] == order@[i as int]);
        assert(all[i as int] == *row);
        assert(all.take(i + 1).drop_last() =~= all.take(i as int));
        let ghost known_rows = unannounced(all.take(i as int), tenant_id);
        if row.tenant_id == tenant_id && !row.notified {
            assert(grouped(known_rows) == all_contents(groups@));
            put_together(&mut groups, row);
        }
        i = i + 1;
    }
    assert(all.take(all.len() as int) =~= all);
    groups
}

/// The codes among some that the catalogue has, in order.
pub open spec fn known_codes(codes: Seq<Seq<char>>) -> Seq<Seq<char>>
    decreases codes.len(),
{
    if codes.len() == 0 {
        Seq::empty()
    } else {
        let before = known_codes(codes.drop_last());
        if known(codes.last()) {
            before.push(codes.last())
        } else {
            before
        }
    }
}

/// A badge as a mail shows it.
#[derive(Debug)]
pub struct BadgeUnlock {
    pub name: &'static str,
    pub desc: &'static str,
    pub icon_path: String,
}

impl BadgeUnlock {
    /// Whether this shows a badge in a language.
    pub open spec fn shows(self, d: BadgeDef, loc: Locale) -> bool {
        &&& self.name@ == loc.pick(d.name_fr, d.name_en)@
        &&& self.desc@ == loc.pick(d.desc_fr, d.desc_en)@
        &&& self.icon_path@ == "/static/badges/"@ + d.icon@
    }
}

/// A mail about unlocked badges.
#[derive(Debug)]
pub struct BadgeMail {
    pub user_id: u128,
    pub email: String,
    pub loc: Locale,
    /// The codes that the mail announces.
    pub codes: Vec<String>,
    pub badges: Vec<BadgeUnlock>,
}

impl BadgeMail {
    /// Whether this announces a player's fresh badges, as far as the catalogue
    /// has them.
    pub open spec fn announces(self, to: UnlocksText) -> bool {
        &&& self.user_id == to.user_id
        &&& self.email@ == to.email
        &&& self.loc == user_locale(to.lang)
        &&& texts(self.codes@) == known_codes(to.codes)
        &&& self.badges@.len() == self.codes@.len()
        &&& forall|i: int|
            0 <= i < self.badges@.len() ==> (#[trigger] self.badges@[i]).shows(
                def_of(self.codes@[i]@)->0,
                user_locale(to.lang),
            )
    }
}

/// The players with a fresh badge that the catalogue has.
pub open spec fn to_tell(groups: Seq<UnlocksText>) -> Seq<UnlocksText>
    decreases groups.len(),
{
    if groups.len() == 0 {
        Seq::empty()
    } else {
        let before = to_tell(groups.drop_last());
        if known_codes(groups.last().codes).len() > 0 {
            before.push(groups.last())
        } else {
            before
        }
    }
}

/// Whether some mails announce the badges of some players, one each.
pub open spec fn announce_all(mails: Seq<BadgeMail>, groups: Seq<UnlocksText>) -> bool {
    &&& mails.len() == groups.len()
    &&& forall|i: int| 0 <= i < mails.len() ==> (#[trigger] mails[i]).announces(groups[i])
}

fn mail_for(group: &Unlocks) -> (r: BadgeMail)
    ensures
        r.announces(group.content()),
{
    let loc: Locale = Locale::of_user(group.lang.as_str());
    let mut codes: Vec<String> = Vec::new();
    let mut badges: Vec<BadgeUnlock> = Vec::new();
    let mut i: usize = 0;
    assert(texts(codes@) =~= known_codes(texts(group.codes@).take(0)));
    while i < group.codes.len()
        invariant
            i <= group.codes.len(),
            loc == user_locale(group.lang@),
            texts(codes@) == known_codes(texts(group.codes@).take(i as int)),
            badges@.len() == codes@.len(),
            forall|k: int|
                0 <= k < badges@.len() ==> (#[trigger] badges@[k]).shows(
                    def_of(codes@[k]@)->0,
                    loc,
                ),
        decreases group.codes.len() - i,
    {
        assert(texts(group.codes@).take(i + 1).drop_last() =~= texts(group.codes@).take(i as int));
        if let Some(d) = def(group.codes[i].as_str()) {
            let ghost before = codes@;
            codes.push(group.codes[i].clone());
            assert(texts(codes@) =~= texts(before).push(group.codes@[i as int]@));
            badges.push(
                BadgeUnlock { name: d.name(loc), desc: d.desc(loc), icon_path: d.icon_path() },
            );
        }
        i = i + 1;
    }
    assert(texts(group.codes@).take(group.codes@.len() as int) =~= texts(group.codes@));
    BadgeMail { user_id: group.user_id, email: group.email.clone(), loc, codes, badges }
}

/// The mails that announce a space's fresh badges. A badge the catalogue does
/// not have is not announced, and stays fresh.
pub fn send_badge_unlocks(rows: &Vec<BadgeRow>, tenant_id: u128) -> (r: Vec<BadgeMail>)
    ensures
        announce_all(r@, to_tell(grouped(unannounced(in_order(rows@), tenant_id)))),
{
    let groups: Vec<Unlocks> = fresh_badges(rows, tenant_id);
    let ghost all = all_contents(groups@);
    let mut out: Vec<BadgeMail> = Vec::new();
    let mut i: usize = 0;
    while i < groups.len()
        invariant
            i <= groups.len(),
            all == all_contents(groups@),
            announce_all(out@, to_tell(all.take(i as int))),
        decreases groups.len() - i,
    {
        assert(all.take(i + 1).drop_last() =~= all.take(i as int));
        assert(all.take(i + 1).last() == groups@[i as int].content());
        let mail: BadgeMail = mail_for(&groups[i]);
        assert(texts(mail.codes@).len() == mail.codes@.len());
        if mail.codes.len() > 0 {
            out.push(mail);
        }
        i = i + 1;
    }
    assert(all.take(all.len() as int) =~= all);
    out
}

/// The badges once some codes were announced to a player.
pub open spec fn stamped(
    rows: Seq<BadgeRow>,
    tenant_id: u128,
    user_id: u128,
    codes: Seq<Seq<char>>,
) -> Seq<BadgeRow> {
    Seq::new(
        rows.len(),
        |i: int|
            if rows[i].tenant_id == tenant_id && rows[i].user_id == user_id && codes.contains(
                rows[i].code@,
            ) {
                BadgeRow { notified: true, ..rows[i] }
            } else {
                rows[i]
            },
    )
}

/// Marks the badges that a mail announced, after it went out.
pub fn stamp(rows: &mut Vec<BadgeRow>, tenant_id: u128, mail: &BadgeMail)
    ensures
        final(rows)@ == stamped(old(rows)@, tenant_id, mail.user_id, texts(mail.codes@)),
{
    let ghost start = rows@;
    let n: usize = rows.len();
    let mut i: usize = 0;
    while i < n
        invariant
            i <= n,
            n == rows@.len(),
            n == start.len(),
            forall|k: int|
                0 <= k < i ==> #[trigger] rows@[k] == stamped(
                    start,
                    tenant_id,
                    mail.user_id,
                    texts(mail.codes@),
                )[k],
            forall|k: int| i <= k < n ==> #[trigger] rows@[k] == start[k],
        decreases n - i,
    {
        if rows[i].tenant_id == tenant_id && rows[i].user_id == mail.user_id && any_text(
            &mail.codes,
            rows[i].code.as_str(),
        ) {
            let done: BadgeRow = rows[i].announced();
            rows.set(i, done);
        }
        i = i + 1;
    }
    assert(rows@ =~= stamped(start, tenant_id, mail.user_id, texts(mail.codes@)));
}

/// Starting up leaves the badges with a recorded code as they are, and takes the
/// others of the catalogue as announced.
pub proof fn only_new_codes_are_backfilled(
    rows: Seq<BadgeRow>,
    recorded: Seq<Seq<char>>,
    i: int,
)
    requires
        0 <= i < rows.len(),
    ensures
        recorded.contains(rows[i].code@) ==> backfilled(rows, recorded)[i] == rows[i],
        known(rows[i].code@) && !recorded.contains(rows[i].code@) ==> backfilled(
            rows,
            recorded,
        )[i].notified,
{
}

proof fn codes_get_recorded(recorded: Seq<Seq<char>>, n: int, i: int)
    requires
        0 <= i < n <= BADGE_COUNT,
    ensures
        (recorded + new_codes(recorded, n)).contains(badge_at(i).code@),
    decreases n,
{
    let code = badge_at(i).code@;
    let all = recorded + new_codes(recorded, n);
    if recorded.contains(code) {
        let k = choose|k: int| 0 <= k < recorded.len() && recorded[k] == code;
        assert(all[k] == code);
    } else if i == n - 1 {
        assert(all.last() == code);
    } else {
        codes_get_recorded(recorded, n - 1, i);
        let before = recorded + new_codes(recorded, n - 1);
        let k = choose|k: int| 0 <= k < before.len() && before[k] == code;
        assert(all[k] == code);
    }
}

proof fn nothing_is_new(recorded: Seq<Seq<char>>, n: int)
    requires
        n <= BADGE_COUNT,
        forall|i: int| 0 <= i < BADGE_COUNT ==> recorded.contains((#[trigger] badge_at(i)).code@),
    ensures
        new_codes(recorded, n) == Seq::<Seq<char>>::empty(),
    decreases n,
{
    if n > 0 {
        nothing_is_new(recorded, n - 1);
        assert(recorded.contains(badge_at(n - 1).code@));
    }
}

/// Starting up again records nothing and takes no further badge as announced.
pub proof fn starting_again_changes_nothing(recorded: Seq<Seq<char>>, rows: Seq<BadgeRow>)
    ensures
        ({
            let after = recorded + new_codes(recorded, BADGE_COUNT as int);
            &&& new_codes(after, BADGE_COUNT as int) == Seq::<Seq<char>>::empty()
            &&& backfilled(rows, after) == rows
        }),
{
    let after = recorded + new_codes(recorded, BADGE_COUNT as int);
    assert forall|i: int| 0 <= i < BADGE_COUNT implies after.contains(
        (#[trigger] badge_at(i)).code@,
    ) by {
        codes_get_recorded(recorded, BADGE_COUNT as int, i);
    }
    nothing_is_new(after, BADGE_COUNT as int);
    assert forall|i: int| 0 <= i < rows.len() implies backfilled(rows, after)[i] == rows[i] by {
        if known(rows[i].code@) {
            let k = choose|k: int|
                0 <= k < BADGE_COUNT && (#[trigger] badge_at(k)).code@ == rows[i].code@;
            assert(after.contains(badge_at(k).code@));
        }
    }
    assert(backfilled(rows, after) =~= rows);
}

/// Whether the rows of each owner stand together.
spec fn owners_stand_together(rows: Seq<BadgeRow>) -> bool {
    forall|i: int, j: int, k: int|
        0 <= i < j < k < rows.len() && (#[trigger] rows[i]).user_id == (#[trigger] rows[k]).user_id
            ==> (#[trigger] rows[j]).user_id == rows[i].user_id
}

proof fn groups_have_owners(rows: Seq<BadgeRow>)
    ensures
        rows.len() > 0 ==> grouped(rows).len() > 0 && grouped(rows).last().user_id
            == rows.last().user_id,
        forall|g: int|
            0 <= g < grouped(rows).len() ==> exists|i: int|
                0 <= i < rows.len() && (#[trigger] rows[i]).user_id == (#[trigger] grouped(
                    rows,
                )[g]).user_id,
    decreases rows.len(),
{
    if rows.len() > 0 {
        let front = rows.drop_last();
        groups_have_owners(front);
        let all = grouped(rows);
        assert forall|g: int| 0 <= g < all.len() implies exists|i: int|
            0 <= i < rows.len() && (#[trigger] rows[i]).user_id == (#[trigger] all[g]).user_id by {
            if g == all.len() - 1 {
                assert(rows[rows.len() - 1].user_id == all[g].user_id);
            } else {
                assert(all[g] == grouped(front)[g]);
                let i = choose|i: int|
                    0 <= i < front.len() && (#[trigger] front[i]).user_id == grouped(
                        front,
                    )[g].user_id;
                assert(rows[i] == front[i]);
            }
        }
    }
}

/// Where the rows of each owner stand together, every player gets one entry.
proof fn owners_get_one_entry(rows: Seq<BadgeRow>)
    requires
        owners_stand_together(rows),
    ensures
        forall|g: int, h: int|
            0 <= g < h < grouped(rows).len() ==> (#[trigger] grouped(rows)[g]).user_id != (
            #[trigger] grouped(rows)[h]).user_id,
    decreases rows.len(),
{
    if rows.len() > 0 {
        let front = rows.drop_last();
        assert forall|i: int, j: int, k: int|
            0 <= i < j < k < front.len() && (#[trigger] front[i]).user_id == (
            #[trigger] front[k]).user_id implies (#[trigger] front[j]).user_id
            == front[i].user_id by {
            assert(rows[i] == front[i] && rows[j] == front[j] && rows[k] == front[k]);
        }
        owners_get_one_entry(front);
        groups_have_owners(front);
        let before = grouped(front);
        let all = grouped(rows);
        let row = rows.last();
        assert forall|g: int, h: int| 0 <= g < h < all.len() implies (#[trigger] all[g]).user_id
            != (#[trigger] all[h]).user_id by {
            if before.len() > 0 && before.last().user_id == row.user_id {
                assert(all[g].user_id == before[g].user_id);
                assert(all[h].user_id == before[h].user_id);
            } else {
                assert(all[g] == before[g]);
                if h < before.len() {
                    assert(all[h] == before[h]);
                } else {
                    let i = choose|i: int|
                        0 <= i < front.len() && (#[trigger] front[i]).user_id
                            == before[g].user_id;
                    assert(rows[i] == front[i]);
                    if row.user_id == rows[i].user_id {
                        let last = front.len() - 1;
                        assert(rows[rows.len() - 1] == row);
                        assert(rows[last] == front[last]);
                        assert(rows[last].user_id == row.user_id);
                        assert(before.last().user_id == front.last().user_id);
                    }
                }
            }
        }
    }
}

proof fn ordered_rows_are_rows(rows: Seq<BadgeRow>)
    ensures
        in_order(rows).len() == rows.len(),
        forall|k: int|
            0 <= k < in_order(rows).len() ==> rows.contains(#[trigger] in_order(rows)[k]),
        forall|a: int, b: int|
            0 <= a < b < in_order(rows).len() ==> (#[trigger] in_order(rows)[a]).user_id <= (
            #[trigger] in_order(rows)[b]).user_id,
{
    let marks = badge_marks(rows);
    let order = by_mark(marks);
    by_mark_is_a_sorted_permutation(marks);
    assert forall|k: int| 0 <= k < in_order(rows).len() implies rows.contains(
        #[trigger] in_order(rows)[k],
    ) by {
        assert(order.contains(order[k]));
        assert(rows[order[k]] == in_order(rows)[k]);
    }
    assert forall|a: int, b: int| 0 <= a < b < in_order(rows).len() implies (
    #[trigger] in_order(rows)[a]).user_id <= (#[trigger] in_order(rows)[b]).user_id by {
        assert(order.contains(order[a]) && order.contains(order[b]));
        assert(marks[order[a]].le(marks[order[b]]));
    }
}

proof fn fresh_rows_stay_sorted(rows: Seq<BadgeRow>, tenant_id: u128)
    requires
        forall|a: int, b: int|
            0 <= a < b < rows.len() ==> (#[trigger] rows[a]).user_id <= (
            #[trigger] rows[b]).user_id,
    ensures
        forall|a: int, b: int|
            0 <= a < b < unannounced(rows, tenant_id).len() ==> (#[trigger] unannounced(
                rows,
                tenant_id,
            )[a]).user_id <= (#[trigger] unannounced(rows, tenant_id)[b]).user_id,
    decreases rows.len(),
{
    if rows.len() > 0 {
        let front = rows.drop_last();
        assert forall|a: int, b: int| 0 <= a < b < front.len() implies (
        #[trigger] front[a]).user_id <= (#[trigger] front[b]).user_id by {
            assert(front[a] == rows[a] && front[b] == rows[b]);
        }
        fresh_rows_stay_sorted(front, tenant_id);
        let before = unannounced(front, tenant_id);
        let all = unannounced(rows, tenant_id);
        assert forall|a: int, b: int| 0 <= a < b < all.len() implies (#[trigger] all[a]).user_id
            <= (#[trigger] all[b]).user_id by {
            assert(all[a] == before[a]);
            if b < before.len() {
                assert(all[b] == before[b]);
            } else {
                fresh_rows_are_rows(front, tenant_id, a);
                let i = choose|i: int|
                    0 <= i < front.len() && #[trigger] front[i] == before[a] && front[i].tenant_id
                        == tenant_id && !front[i].notified;
                assert(rows[i] == front[i]);
                assert(rows[rows.len() - 1] == all[b]);
            }
        }
    }
}

/// Every player gets one entry, whatever the order of the rows.
pub proof fn players_get_one_entry(rows: Seq<BadgeRow>, tenant_id: u128)
    ensures
        ({
            let groups = grouped(unannounced(in_order(rows), tenant_id));
            forall|g: int, h: int|
                0 <= g < h < groups.len() ==> (#[trigger] groups[g]).user_id != (
                #[trigger] groups[h]).user_id
        }),
{
    let fresh = unannounced(in_order(rows), tenant_id);
    ordered_rows_are_rows(rows);
    fresh_rows_stay_sorted(in_order(rows), tenant_id);
    assert forall|i: int, j: int, k: int|
        0 <= i < j < k < fresh.len() && (#[trigger] fresh[i]).user_id == (
        #[trigger] fresh[k]).user_id implies (#[trigger] fresh[j]).user_id == fresh[i].user_id by {}
    owners_get_one_entry(fresh);
}

proof fn unknown_codes_are_not_told(rows: Seq<BadgeRow>)
    requires
        forall|i: int| 0 <= i < rows.len() ==> !known((#[trigger] rows[i]).code@),
    ensures
        forall|g: int|
            0 <= g < grouped(rows).len() ==> known_codes((#[trigger] grouped(rows)[g]).codes).len()
                == 0,
    decreases rows.len(),
{
    if rows.len() > 0 {
        let front = rows.drop_last();
        assert forall|i: int| 0 <= i < front.len() implies !known((#[trigger] front[i]).code@) by {
            assert(front[i] == rows[i]);
        }
        unknown_codes_are_not_told(front);
        let before = grouped(front);
        let all = grouped(rows);
        let row = rows[rows.len() - 1];
        assert forall|g: int| 0 <= g < all.len() implies known_codes(
            (#[trigger] all[g]).codes,
        ).len() == 0 by {
            if g < all.len() - 1 {
                assert(all[g] == before[g]);
            } else if before.len() > 0 && before.last().user_id == row.user_id {
                let codes = before[before.len() - 1].codes;
                assert(codes.push(row.code@).drop_last() =~= codes);
            } else {
                assert(all[g].codes == seq![row.code@]);
                reveal_with_fuel(known_codes, 2);
            }
        }
    }
}

proof fn nobody_to_tell(groups: Seq<UnlocksText>)
    requires
        forall|g: int|
            0 <= g < groups.len() ==> known_codes((#[trigger] groups[g]).codes).len() == 0,
    ensures
        to_tell(groups) == Seq::<UnlocksText>::empty(),
    decreases groups.len(),
{
    if groups.len() > 0 {
        let front = groups.drop_last();
        assert forall|g: int| 0 <= g < front.len() implies known_codes(
            (#[trigger] front[g]).codes,
        ).len() == 0 by {
            assert(front[g] == groups[g]);
        }
        nobody_to_tell(front);
        assert(known_codes(groups[groups.len() - 1].codes).len() == 0);
    }
}

proof fn fresh_rows_are_rows(rows: Seq<BadgeRow>, tenant_id: u128, k: int)
    requires
        0 <= k < unannounced(rows, tenant_id).len(),
    ensures
        exists|i: int|
            0 <= i < rows.len() && #[trigger] rows[i] == unannounced(rows, tenant_id)[k]
                && rows[i].tenant_id == tenant_id && !rows[i].notified,
    decreases rows.len(),
{
    let front = rows.drop_last();
    let before = unannounced(front, tenant_id);
    if k < before.len() {
        fresh_rows_are_rows(front, tenant_id, k);
        let i = choose|i: int|
            0 <= i < front.len() && #[trigger] front[i] == before[k] && front[i].tenant_id
                == tenant_id && !front[i].notified;
        assert(rows[i] == front[i]);
    } else {
        assert(rows[rows.len() - 1] == rows.last());
    }
}

/// Announced badges are not mailed again: where every badge of a space that the
/// catalogue has was announced, there is no mail to send.
pub proof fn announced_badges_are_not_mailed_again(rows: Seq<BadgeRow>, tenant_id: u128)
    requires
        forall|i: int|
            0 <= i < rows.len() && (#[trigger] rows[i]).tenant_id == tenant_id && known(
                rows[i].code@,
            ) ==> rows[i].notified,
    ensures
        to_tell(grouped(unannounced(in_order(rows), tenant_id))) == Seq::<UnlocksText>::empty(),
{
    let ordered = in_order(rows);
    let fresh = unannounced(ordered, tenant_id);
    ordered_rows_are_rows(rows);
    assert forall|k: int| 0 <= k < fresh.len() implies !known((#[trigger] fresh[k]).code@) by {
        fresh_rows_are_rows(ordered, tenant_id, k);
        let i = choose|i: int|
            0 <= i < ordered.len() && #[trigger] ordered[i] == fresh[k] && ordered[i].tenant_id
                == tenant_id && !ordered[i].notified;
        assert(rows.contains(ordered[i]));
    }
    unknown_codes_are_not_told(fresh);
    nobody_to_tell(grouped(fresh));
}

proof fn known_codes_are_known(codes: Seq<Seq<char>>, code: Seq<char>)
    ensures
        known_codes(codes).contains(code) <==> codes.contains(code) && known(code),
    decreases codes.len(),
{
    if codes.len() > 0 {
        let front = codes.drop_last();
        let before = known_codes(front);
        let all = known_codes(codes);
        known_codes_are_known(front, code);
        if all.contains(code) {
            let k = choose|k: int| 0 <= k < all.len() && all[k] == code;
            if k < before.len() {
                assert(before[k] == code);
                let i = choose|i: int| 0 <= i < front.len() && front[i] == code;
                assert(codes[i] == code);
            } else {
                assert(codes[codes.len() - 1] == code);
            }
        }
        if codes.contains(code) && known(code) {
            let i = choose|i: int| 0 <= i < codes.len() && codes[i] == code;
            if i < front.len() {
                assert(front[i] == code);
                let k = choose|k: int| 0 <= k < before.len() && before[k] == code;
                assert(all[k] == code);
            } else {
                assert(all.last() == code);
            }
        }
    }
}

/// After a mail went out its badges are announced, and a badge that the
/// catalogue does not have stays fresh, to be told of later.
pub proof fn stamping_marks_what_was_told(
    rows: Seq<BadgeRow>,
    tenant_id: u128,
    told: UnlocksText,
    i: int,
)
    requires
        0 <= i < rows.len(),
        rows[i].tenant_id == tenant_id,
        rows[i].user_id == told.user_id,
        told.codes.contains(rows[i].code@),
    ensures
        ({
            let after = stamped(rows, tenant_id, told.user_id, known_codes(told.codes))[i];
            if known(rows[i].code@) {
                after.notified
            } else {
                after == rows[i]
            }
        }),
{
    known_codes_are_known(told.codes, rows[i].code@);
}

/// Each badge in turn is to be announced if it is of this space and was not.
pub proof fn each_badge_is_fresh_or_not(rows: Seq<BadgeRow>, row: BadgeRow, tenant_id: u128)
    ensures
        unannounced(Seq::empty(), tenant_id).len() == 0,
        row.tenant_id == tenant_id && !row.notified ==> unannounced(rows.push(row), tenant_id)
            == unannounced(rows, tenant_id).push(row),
        row.tenant_id != tenant_id || row.notified ==> unannounced(rows.push(row), tenant_id)
            == unannounced(rows, tenant_id),
{
    assert(rows.push(row).drop_last() =~= rows);
}

proof fn fresh_rows_are_kept(rows: Seq<BadgeRow>, tenant_id: u128, row: BadgeRow)
    ensures
        unannounced(rows, tenant_id).contains(row) <==> rows.contains(row) && row.tenant_id
            == tenant_id && !row.notified,
    decreases rows.len(),
{
    if rows.len() > 0 {
        let front = rows.drop_last();
        let last = rows.last();
        fresh_rows_are_kept(front, tenant_id, row);
        assert(rows[rows.len() - 1] == last);
        let all = unannounced(rows, tenant_id);
        let before = unannounced(front, tenant_id);
        if rows.contains(row) {
            let k = choose|k: int| 0 <= k < rows.len() && rows[k] == row;
            if k < front.len() {
                assert(front[k] == row);
            }
        }
        if front.contains(row) {
            let k = choose|k: int| 0 <= k < front.len() && front[k] == row;
            assert(rows[k] == row);
        }
        if before.contains(row) {
            let k = choose|k: int| 0 <= k < before.len() && before[k] == row;
            assert(all[k] == row);
        }
        if all.contains(row) {
            let k = choose|k: int| 0 <= k < all.len() && all[k] == row;
            if k < before.len() {
                assert(before[k] == row);
            }
        }
        if last.tenant_id == tenant_id && !last.notified {
            assert(all[before.len() as int] == last);
        }
    }
}

proof fn rows_are_in_their_group(rows: Seq<BadgeRow>, i: int)
    requires
        0 <= i < rows.len(),
    ensures
        exists|g: int|
            0 <= g < grouped(rows).len() && (#[trigger] grouped(rows)[g]).user_id == rows[i].user_id
                && grouped(rows)[g].codes.contains(rows[i].code@),
    decreases rows.len(),
{
    let front = rows.drop_last();
    let before = grouped(front);
    let all = grouped(rows);
    let row = rows.last();
    if i == rows.len() - 1 {
        let g = all.len() - 1;
        assert(all[g].codes[all[g].codes.len() - 1] == row.code@);
        assert(all[g].codes.contains(row.code@));
        assert(all[g].user_id == row.user_id);
    } else {
        rows_are_in_their_group(front, i);
        assert(front[i] == rows[i]);
        let g = choose|g: int|
            0 <= g < before.len() && (#[trigger] before[g]).user_id == rows[i].user_id
                && before[g].codes.contains(rows[i].code@);
        let k = choose|k: int| 0 <= k < before[g].codes.len() && before[g].codes[k]
            == rows[i].code@;
        assert(all[g].user_id == before[g].user_id);
        assert(all[g].codes[k] == rows[i].code@);
        assert(all[g].codes.contains(rows[i].code@));
    }
}

proof fn groups_hold_their_rows(rows: Seq<BadgeRow>, g: int, code: Seq<char>)
    requires
        0 <= g < grouped(rows).len(),
        grouped(rows)[g].codes.contains(code),
    ensures
        exists|i: int|
            0 <= i < rows.len() && (#[trigger] rows[i]).user_id == grouped(rows)[g].user_id
                && rows[i].code@ == code,
        exists|i: int|
            0 <= i < rows.len() && (#[trigger] rows[i]).user_id == grouped(rows)[g].user_id
                && rows[i].email@ == grouped(rows)[g].email && rows[i].lang@ == grouped(
                rows,
            )[g].lang,
    decreases rows.len(),
{
    let front = rows.drop_last();
    let before = grouped(front);
    let all = grouped(rows);
    let row = rows.last();
    assert(rows[rows.len() - 1] == row);
    if g < before.len() {
        groups_have_codes(front);
        let some = before[g].codes[0];
        assert(before[g].codes.contains(some));
        groups_hold_their_rows(front, g, some);
        let e = choose|i: int|
            0 <= i < front.len() && (#[trigger] front[i]).user_id == before[g].user_id
                && front[i].email@ == before[g].email && front[i].lang@ == before[g].lang;
        assert(rows[e] == front[e]);
        let k = choose|k: int| 0 <= k < all[g].codes.len() && all[g].codes[k] == code;
        if k < before[g].codes.len() {
            assert(before[g].codes[k] == code);
            groups_hold_their_rows(front, g, code);
            let i = choose|i: int|
                0 <= i < front.len() && (#[trigger] front[i]).user_id == before[g].user_id
                    && front[i].code@ == code;
            assert(rows[i] == front[i]);
        }
    } else {
        let k = choose|k: int| 0 <= k < all[g].codes.len() && all[g].codes[k] == code;
        assert(k == 0);
    }
}

proof fn groups_have_codes(rows: Seq<BadgeRow>)
    ensures
        forall|g: int| 0 <= g < grouped(rows).len() ==> (#[trigger] grouped(rows)[g]).codes.len() > 0,
    decreases rows.len(),
{
    if rows.len() > 0 {
        let before = grouped(rows.drop_last());
        groups_have_codes(rows.drop_last());
        assert forall|g: int| 0 <= g < grouped(rows).len() implies (#[trigger] grouped(
            rows,
        )[g]).codes.len() > 0 by {
            if g < before.len() {
                assert(before[g].codes.len() > 0);
            }
        }
    }
}

proof fn told_groups_are_groups(groups: Seq<UnlocksText>, group: UnlocksText)
    ensures
        to_tell(groups).contains(group) <==> groups.contains(group) && known_codes(
            group.codes,
        ).len() > 0,
    decreases groups.len(),
{
    if groups.len() > 0 {
        let front = groups.drop_last();
        let last = groups.last();
        told_groups_are_groups(front, group);
        assert(groups[groups.len() - 1] == last);
        let all = to_tell(groups);
        let before = to_tell(front);
        if groups.contains(group) {
            let k = choose|k: int| 0 <= k < groups.len() && groups[k] == group;
            if k < front.len() {
                assert(front[k] == group);
            }
        }
        if front.contains(group) {
            let k = choose|k: int| 0 <= k < front.len() && front[k] == group;
            assert(groups[k] == group);
        }
        if before.contains(group) {
            let k = choose|k: int| 0 <= k < before.len() && before[k] == group;
            assert(all[k] == group);
        }
        if all.contains(group) {
            let k = choose|k: int| 0 <= k < all.len() && all[k] == group;
            if k < before.len() {
                assert(before[k] == group);
            }
        }
        if known_codes(last.codes).len() > 0 {
            assert(all[before.len() as int] == last);
        }
    }
}

/// Every badge of the catalogue that was not announced yet is in a mail to its
/// owner.
pub proof fn fresh_badges_reach_their_owner(
    rows: Seq<BadgeRow>,
    tenant_id: u128,
    mails: Seq<BadgeMail>,
    i: int,
)
    requires
        announce_all(mails, to_tell(grouped(unannounced(in_order(rows), tenant_id)))),
        0 <= i < rows.len(),
        rows[i].tenant_id == tenant_id,
        !rows[i].notified,
        known(rows[i].code@),
    ensures
        exists|m: int|
            0 <= m < mails.len() && (#[trigger] mails[m]).user_id == rows[i].user_id && texts(
                mails[m].codes@,
            ).contains(rows[i].code@),
{
    let marks = badge_marks(rows);
    let order = by_mark(marks);
    by_mark_is_a_sorted_permutation(marks);
    assert(order.contains(i));
    let at = choose|k: int| 0 <= k < order.len() && order[k] == i;
    let sorted = in_order(rows);
    assert(sorted[at] == rows[i]);
    assert(sorted.contains(rows[i]));
    let fresh = unannounced(sorted, tenant_id);
    fresh_rows_are_kept(sorted, tenant_id, rows[i]);
    let f = choose|k: int| 0 <= k < fresh.len() && fresh[k] == rows[i];
    rows_are_in_their_group(fresh, f);
    let groups = grouped(fresh);
    let g = choose|g: int|
        0 <= g < groups.len() && (#[trigger] groups[g]).user_id == rows[i].user_id
            && groups[g].codes.contains(rows[i].code@);
    known_codes_are_known(groups[g].codes, rows[i].code@);
    told_groups_are_groups(groups, groups[g]);
    assert(groups.contains(groups[g]));
    let told = to_tell(groups);
    let m = choose|m: int| 0 <= m < told.len() && told[m] == groups[g];
    assert(mails[m].announces(told[m]));
    assert(mails[m].user_id == rows[i].user_id);
}

/// A mail tells its reader of their own badges only: of those of this space that
/// were not announced yet. It goes to the address kept with them.
pub proof fn mails_tell_of_the_readers_badges(
    rows: Seq<BadgeRow>,
    tenant_id: u128,
    mails: Seq<BadgeMail>,
    m: int,
    c: int,
)
    requires
        announce_all(mails, to_tell(grouped(unannounced(in_order(rows), tenant_id)))),
        0 <= m < mails.len(),
        0 <= c < mails[m].codes@.len(),
    ensures
        exists|i: int|
            0 <= i < rows.len() && (#[trigger] rows[i]).tenant_id == tenant_id && !rows[i].notified
                && rows[i].user_id == mails[m].user_id && rows[i].code@ == mails[m].codes@[c]@,
        exists|i: int|
            0 <= i < rows.len() && (#[trigger] rows[i]).user_id == mails[m].user_id
                && rows[i].email@ == mails[m].email@ && mails[m].loc == user_locale(rows[i].lang@),
        known(mails[m].codes@[c]@),
{
    let sorted = in_order(rows);
    let fresh = unannounced(sorted, tenant_id);
    let groups = grouped(fresh);
    let told = to_tell(groups);
    let code = mails[m].codes@[c]@;
    assert(mails[m].announces(told[m]));
    assert(texts(mails[m].codes@)[c] == code);
    assert(known_codes(told[m].codes).contains(code));
    known_codes_are_known(told[m].codes, code);
    assert(told.contains(told[m]));
    told_groups_are_groups(groups, told[m]);
    let g = choose|g: int| 0 <= g < groups.len() && groups[g] == told[m];
    groups_hold_their_rows(fresh, g, code);
    ordered_rows_are_rows(rows);
    let f = choose|i: int|
        0 <= i < fresh.len() && (#[trigger] fresh[i]).user_id == groups[g].user_id && fresh[i].code@
            == code;
    assert(fresh.contains(fresh[f]));
    fresh_rows_are_kept(sorted, tenant_id, fresh[f]);
    let s = choose|k: int| 0 <= k < sorted.len() && sorted[k] == fresh[f];
    assert(rows.contains(sorted[s]));
    let i = choose|k: int| 0 <= k < rows.len() && rows[k] == fresh[f];
    assert(rows[i].tenant_id == tenant_id);
    let e = choose|i: int|
        0 <= i < fresh.len() && (#[trigger] fresh[i]).user_id == groups[g].user_id
            && fresh[i].email@ == groups[g].email && fresh[i].lang@ == groups[g].lang;
    assert(fresh.contains(fresh[e]));
    fresh_rows_are_kept(sorted, tenant_id, fresh[e]);
    let t = choose|k: int| 0 <= k < sorted.len() && sorted[k] == fresh[e];
    assert(rows.contains(sorted[t]));
    let j = choose|k: int| 0 <= k < rows.len() && rows[k] == fresh[e];
    assert(rows[j].user_id == mails[m].user_id);
}

/// Stamping marks the badges of that player in that space whose codes were told,
/// and touches nothing else.
pub proof fn stamping_touches_nothing_else(
    rows: Seq<BadgeRow>,
    tenant_id: u128,
    user_id: u128,
    codes: Seq<Seq<char>>,
    i: int,
)
    requires
        0 <= i < rows.len(),
    ensures
        stamped(rows, tenant_id, user_id, codes).len() == rows.len(),
        ({
            let after = stamped(rows, tenant_id, user_id, codes)[i];
            let told = rows[i].tenant_id == tenant_id && rows[i].user_id == user_id
                && codes.contains(rows[i].code@);
            &&& after.notified <==> rows[i].notified || told
            &&& after.tenant_id == rows[i].tenant_id
            &&& after.user_id == rows[i].user_id
            &&& after.email == rows[i].email
            &&& after.lang == rows[i].lang
            &&& after.code == rows[i].code
            &&& after.earned_at == rows[i].earned_at
        }),
{
}

/// At the start the codes of the catalogue that are not recorded get recorded, each
/// once, and the badges that players have of those count as announced.
pub proof fn new_codes_are_recorded(
    recorded: Seq<Seq<char>>,
    rows: Seq<BadgeRow>,
    code: Seq<char>,
    i: int,
)
    requires
        0 <= i < rows.len(),
    ensures
        new_codes(recorded, BADGE_COUNT as int).contains(code) <==> known(code)
            && !recorded.contains(code),
        backfilled(rows, recorded).len() == rows.len(),
        backfilled(rows, recorded)[i].notified <==> rows[i].notified || (known(rows[i].code@)
            && !recorded.contains(rows[i].code@)),
        backfilled(rows, recorded)[i] == (BadgeRow {
            notified: backfilled(rows, recorded)[i].notified,
            ..rows[i]
        }),
{
    new_codes_of_the_first(recorded, BADGE_COUNT as int, code);
    if known(code) {
        let k = choose|k: int| 0 <= k < BADGE_COUNT && (#[trigger] badge_at(k)).code@ == code;
        assert(badge_at(k).code@ == code);
    }
}

proof fn new_codes_of_the_first(recorded: Seq<Seq<char>>, n: int, code: Seq<char>)
    requires
        n <= BADGE_COUNT,
    ensures
        new_codes(recorded, n).contains(code) <==> !recorded.contains(code) && exists|k: int|
            0 <= k < n && (#[trigger] badge_at(k)).code@ == code,
    decreases n,
{
    if n > 0 {
        let before = new_codes(recorded, n - 1);
        let all = new_codes(recorded, n);
        let last = badge_at(n - 1).code@;
        new_codes_of_the_first(recorded, n - 1, code);
        if before.contains(code) {
            let k = choose|k: int| 0 <= k < before.len() && before[k] == code;
            assert(all[k] == code);
        }
        if !recorded.contains(last) {
            assert(all[before.len() as int] == last);
        }
        if all.contains(code) {
            let k = choose|k: int| 0 <= k < all.len() && all[k] == code;
            if k < before.len() {
                assert(before[k] == code);
            } else {
                assert(badge_at(n - 1).code@ == code);
            }
        }
    }
}

/// Every badge that was not announced yet is announced to its owner, by name and in
/// their language.
pub proof fn unlocks_are_announced(
    rows: &Vec<BadgeRow>,
    tenant_id: u128,
    r: Vec<BadgeMail>,
    i: int,
)
    requires
        call_ensures(send_badge_unlocks, (rows, tenant_id), r),
        0 <= i < rows@.len(),
        rows@[i].tenant_id == tenant_id,
        !rows@[i].notified,
        known(rows@[i].code@),
    ensures
        exists|m: int|
            0 <= m < r@.len() && (#[trigger] r@[m]).user_id == rows@[i].user_id && texts(
                r@[m].codes@,
            ).contains(rows@[i].code@),
{
    fresh_badges_reach_their_owner(rows@, tenant_id, r@, i);
}

/// Nothing else is announced: each badge of a mail is its reader's, of this space, and
/// was not announced before; it is shown under its name.
pub proof fn announcements_are_true(
    rows: &Vec<BadgeRow>,
    tenant_id: u128,
    r: Vec<BadgeMail>,
    m: int,
    c: int,
)
    requires
        call_ensures(send_badge_unlocks, (rows, tenant_id), r),
        0 <= m < r@.len(),
        0 <= c < r@[m].codes@.len(),
    ensures
        exists|i: int|
            0 <= i < rows@.len() && (#[trigger] rows@[i]).tenant_id == tenant_id
                && !rows@[i].notified && rows@[i].user_id == r@[m].user_id && rows@[i].code@
                == r@[m].codes@[c]@,
        r@[m].badges@.len() == r@[m].codes@.len(),
        ({
            let shown = r@[m].badges@[c];
            let d = def_of(r@[m].codes@[c]@)->0;
            &&& r@[m].loc == Locale::Fr ==> shown.name@ == d.name_fr@ && shown.desc@ == d.desc_fr@
            &&& r@[m].loc == Locale::En ==> shown.name@ == d.name_en@ && shown.desc@ == d.desc_en@
            &&& shown.icon_path@ == "/static/badges/"@ + d.icon@
        }),
{
    mails_tell_of_the_readers_badges(rows@, tenant_id, r@, m, c);
    let told = to_tell(grouped(unannounced(in_order(rows@), tenant_id)));
    assert(r@[m].announces(told[m]));
    assert(r@[m].badges@[c].shows(def_of(r@[m].codes@[c]@)->0, user_locale(told[m].lang)));
}

/// Stamping marks exactly the badges that a mail told its reader of; starting up marks
/// those whose codes are new.
pub proof fn told_badges_are_marked(
    rows: &mut Vec<BadgeRow>,
    tenant_id: u128,
    mail: &BadgeMail,
    r: (),
    i: int,
)
    requires
        call_ensures(stamp, (rows, tenant_id, mail), r),
        0 <= i < old(rows)@.len(),
    ensures
        final(rows)@.len() == old(rows)@.len(),
        final(rows)@[i].notified <==> old(rows)@[i].notified || (old(rows)@[i].tenant_id
            == tenant_id && old(rows)@[i].user_id == mail.user_id && texts(mail.codes@).contains(
            old(rows)@[i].code@,
        )),
        final(rows)@[i] == (BadgeRow { notified: final(rows)@[i].notified, ..old(rows)@[i] }),
{
    stamping_touches_nothing_else(old(rows)@, tenant_id, mail.user_id, texts(mail.codes@), i);
}

/// Starting up records the codes of the catalogue, and badges of codes that were not
/// recorded count as announced; all others stay as they are.
pub proof fn starting_up_announces_nothing_old(
    recorded: &mut Vec<String>,
    rows: &mut Vec<BadgeRow>,
    r: (),
    i: int,
    code: Seq<char>,
)
    requires
        call_ensures(init_badge_notifications, (recorded, rows), r),
        0 <= i < old(rows)@.len(),
    ensures
        texts(final(recorded)@).contains(code) <==> texts(old(recorded)@).contains(code) || known(
            code,
        ),
        final(rows)@.len() == old(rows)@.len(),
        final(rows)@[i].notified <==> old(rows)@[i].notified || (known(old(rows)@[i].code@)
            && !texts(old(recorded)@).contains(old(rows)@[i].code@)),
        final(rows)@[i] == (BadgeRow { notified: final(rows)@[i].notified, ..old(rows)@[i] }),
{
    let before = texts(old(recorded)@);
    let more = new_codes(before, BADGE_COUNT as int);
    new_codes_are_recorded(before, old(rows)@, code, i);
    if before.contains(code) {
        let k = choose|k: int| 0 <= k < before.len() && before[k] == code;
        assert((before + more)[k] == code);
    }
    if more.contains(code) {
        let k = choose|k: int| 0 <= k < more.len() && more[k] == code;
        assert((before + more)[before.len() + k] == code);
    }
    if (before + more).contains(code) {
        let k = choose|k: int| 0 <= k < (before + more).len() && (before + more)[k] == code;
        if k < before.len() {
            assert(before[k] == code);
        } else {
            assert(more[k - before.len()] == code);
        }
    }
}

/// Badges are put together in turn: one of the same player as the one before joins it,
/// at the end, and any other starts anew, with its own address and language.
pub proof fn badges_are_put_together_in_turn(
    rows: Seq<BadgeRow>,
    row: BadgeRow,
    codes: Seq<Seq<char>>,
    code: Seq<char>,
)
    ensures
        ({
            let before = grouped(rows);
            let after = grouped(rows.push(row));
            let joins = before.len() > 0 && before.last().user_id == row.user_id;
            &&& grouped(Seq::empty()).len() == 0
            &&& joins ==> after.len() == before.len() && after.drop_last() == before.drop_last()
                && after.last().codes == before.last().codes.push(row.code@) && after.last().user_id
                == row.user_id && after.last().email == before.last().email && after.last().lang
                == before.last().lang
            &&& !joins ==> after.len() == before.len() + 1 && after.drop_last() == before
                && after.last().codes == seq![row.code@] && after.last().user_id == row.user_id
                && after.last().email == row.email@ && after.last().lang == row.lang@
        }),
        known_codes(Seq::empty()).len() == 0,
        known(code) ==> known_codes(codes.push(code)) == known_codes(codes).push(code),
        !known(code) ==> known_codes(codes.push(code)) == known_codes(codes),
{
    assert(rows.push(row).drop_last() =~= rows);
    assert(codes.push(code).drop_last() =~= codes);
}

/// Badges are gone through player by player, and a player's from the oldest on.
pub proof fn badges_are_gone_through_in_order(rows: Seq<BadgeRow>, a: int, b: int)
    requires
        0 <= a < b < rows.len(),
    ensures
        in_order(rows).len() == rows.len(),
        ({
            let (first, second) = (in_order(rows)[a], in_order(rows)[b]);
            &&& first.user_id <= second.user_id
            &&& first.user_id == second.user_id ==> first.earned_at.secs <= second.earned_at.secs
            &&& first.user_id == second.user_id && first.earned_at.secs == second.earned_at.secs
                ==> first.earned_at.nanos <= second.earned_at.nanos
        }),
{
    by_mark_is_a_sorted_permutation(badge_marks(rows));
    positions_are_in_order(badge_marks(rows), a, b);
}

} // verus!
