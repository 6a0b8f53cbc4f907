use base64::Engine;
use lunatech_betting::clock::Timestamp;
use lunatech_betting::dev::{are_points_showable, index, login_as, login_email, DevRefusal, LoginQuery};
use lunatech_betting::i18n::Locale;
use lunatech_betting::invitations::{
    accept, accept_hash, accept_link, can_invite, create, display_name, expire_overdue,
    invite_address, invite_with, join, notice, open_session, parse_emails, render_members, revoke,
    tally, AcceptQuery, AcceptRefusal, Account, Fate, Invitation, InviteForm, InviteRefusal,
    InviteStatus, MemberRow, Session, HOME,
};
use lunatech_betting::leaderboard::LeaderboardRow;
use lunatech_betting::models::{Prediction, User};
use lunatech_betting::tenant::Tenant;
use lunatech_betting::tokens::{hex_sha256, new_session_id, random_token, to_hex, token_of};

const WEEK: i64 = 7 * 86_400;

fn t(secs: i64) -> Timestamp {
    Timestamp { secs, nanos: 0 }
}

fn space(members_can_invite: bool) -> Tenant {
    Tenant {
        id: 1,
        slug: "here".into(),
        name: "Here".into(),
        football_competition: "WC".into(),
        members_can_invite,
        jokers_enabled: true,
        reminder_lead_minutes: 60,
    }
}

fn someone(id: u128, is_admin: bool) -> User {
    User {
        id,
        email: format!("u{id}@example.org"),
        display_name: format!("User {id}"),
        is_admin,
        created_at: t(0),
        stake_eur: None,
        stake_chosen_at: None,
        paid_at: None,
    }
}

#[test]
fn addresses_are_split_cleaned_and_kept_once() {
    assert_eq!(
        parse_emails(" Ann@X.org, bob@x.org;bob@x.org\n\tnobody ann@x.org\u{a0}ÉVE@x.org"),
        vec!["ann@x.org", "bob@x.org", "éve@x.org"]
    );
    assert_eq!(parse_emails(" ,; \n"), Vec::<String>::new());
    let at_limit = format!("{}@x.org", "a".repeat(114));
    let over = format!("{}@x.org", "a".repeat(115));
    assert_eq!(at_limit.len(), 120);
    assert_eq!(parse_emails(&format!("{over} {at_limit}")), vec![at_limit]);
    // Joined, in uppercase or given twice, the field gives the same addresses.
    let raw = "Ann@X.org, bob@x.org;bob@x.org\nnobody";
    let read = parse_emails(raw);
    assert_eq!(parse_emails(&read.join(",")), read);
    assert_eq!(parse_emails(&raw.to_ascii_uppercase()), read);
    assert_eq!(parse_emails(&format!("{raw} {raw}")), read);
    assert_eq!(parse_emails(&parse_emails("nobody").join(",")), Vec::<String>::new());
    // The limit counts bytes: an accented letter takes two.
    let accented = format!("{}@x.org", "é".repeat(58));
    assert_eq!(parse_emails(&accented), Vec::<String>::new());
}

#[test]
fn only_some_may_invite() {
    assert!(can_invite(&space(false), &someone(7, true)));
    assert!(can_invite(&space(true), &someone(7, false)));
    assert!(!can_invite(&space(false), &someone(7, false)));
    let form = InviteForm { emails: "a@x.org".into() };
    let nothing = InviteForm { emails: "a".into() };
    assert_eq!(
        create(&space(false), &someone(7, false), true, &form),
        Err(InviteRefusal::NotAllowed)
    );
    assert_eq!(
        create(&space(true), &someone(7, false), false, &form),
        Err(InviteRefusal::TooMany)
    );
    assert_eq!(
        create(&space(true), &someone(7, false), true, &nothing),
        Err(InviteRefusal::NoAddress)
    );
    assert_eq!(
        create(&space(true), &someone(7, false), true, &form),
        Ok(vec!["a@x.org".to_string()])
    );
    assert_eq!(InviteRefusal::NotAllowed.status(), 403);
    assert_eq!(InviteRefusal::TooMany.status(), 200);
    assert_eq!(InviteRefusal::NotAllowed.message(Locale::Fr), "Not allowed.");
    assert_eq!(
        InviteRefusal::TooMany.message(Locale::En),
        "Too many invitations sent. Try again in a moment."
    );
    assert_eq!(InviteRefusal::NoAddress.message(Locale::Fr), "Aucune adresse email valide.");
}

fn invite(book: &mut Vec<Invitation>, id: u128, email: &str, token: &str, at: Timestamp) -> Option<String> {
    let members = vec!["u7@example.org".to_string()];
    invite_with(
        book,
        &space(true),
        &someone(7, false),
        &members,
        id,
        email,
        token,
        "https://here.example.org",
        at,
    )
}

fn account(tenant_id: u128, user: User) -> Account {
    Account { tenant_id, user, lang: "fr".into() }
}

/// Follows a link of a space with no members.
fn follow(
    book: &mut Vec<Invitation>,
    tenant_id: u128,
    token: &str,
    at: Timestamp,
) -> Result<Session, AcceptRefusal> {
    let mut accounts = Vec::new();
    let mut sessions = Vec::new();
    let query = AcceptQuery { token: token.into() };
    let r = accept(book, &mut accounts, &mut sessions, tenant_id, &query, 900, Locale::En, at);
    assert_eq!(accounts.len(), r.iter().count());
    assert_eq!(sessions.len(), r.iter().count());
    r
}

#[test]
fn a_link_lets_its_invitee_in_once() {
    let mut book = Vec::new();
    let link = invite(&mut book, 100, "eve.o_neil@x.org", "secret", t(0)).unwrap();
    assert_eq!(link, "https://here.example.org/invite/accept?token=secret");
    assert_eq!(book[0].expires_at, t(WEEK));
    assert_ne!(book[0].token_hash, "secret");
    assert_eq!(follow(&mut book, 1, "other", t(1)).unwrap_err(), AcceptRefusal::InvalidLink);
    assert_eq!(follow(&mut book, 2, "secret", t(1)).unwrap_err(), AcceptRefusal::InvalidLink);
    let mut accounts = vec![account(2, someone(5, true))];
    accounts[0].user.email = "eve.o_neil@x.org".into();
    let mut sessions = Vec::new();
    let query = AcceptQuery { token: "secret".into() };
    let session = accept(
        &mut book,
        &mut accounts,
        &mut sessions,
        1,
        &query,
        900,
        Locale::Fr,
        t(WEEK),
    )
    .unwrap();
    // The account in another space is none in this one.
    assert_eq!(accounts.len(), 2);
    assert_eq!(accounts[0].user.id, 5);
    let eve = &accounts[1];
    assert_eq!((eve.tenant_id, eve.user.id, eve.lang.as_str()), (1, 900, "fr"));
    assert_eq!(eve.user.email, "eve.o_neil@x.org");
    assert_eq!(eve.user.display_name, "eve o neil");
    assert!(!eve.user.is_admin);
    assert_eq!(eve.user.created_at, t(WEEK));
    assert_eq!(sessions, vec![session]);
    assert_eq!((session.tenant_id, session.user_id), (1, 900));
    assert_eq!(session.expires_at, t(WEEK + 30 * 86_400));
    assert_eq!(book[0].status, InviteStatus::Accepted);
    assert_eq!((book[0].accepted_by, book[0].accepted_at), (Some(900), Some(t(WEEK))));
    assert_eq!(follow(&mut book, 1, "secret", t(1)).unwrap_err(), AcceptRefusal::NoLongerValid);
    assert_eq!(book[0].accepted_by, Some(900));
    assert_eq!(HOME, "/today");
}

#[test]
fn an_earlier_account_is_left_alone() {
    let mut book = Vec::new();
    invite(&mut book, 100, "u8@example.org", "secret", t(0)).unwrap();
    let mut accounts = vec![account(1, someone(7, false)), account(1, someone(8, true))];
    let hash = hex_sha256("secret");
    let by = accept_hash(&mut book, &mut accounts, 1, &hash, 900, Locale::En, t(1)).unwrap();
    assert_eq!(by, 8);
    assert_eq!(accounts.len(), 2);
    assert!(accounts[1].user.is_admin);
    assert_eq!((accounts[1].user.display_name.as_str(), accounts[1].lang.as_str()), ("User 8", "fr"));
    assert_eq!(book[0].accepted_by, Some(8));
    assert_eq!(join(&mut accounts, 1, "new@x.org", 901, Locale::En, t(2)), 901);
    assert_eq!(join(&mut accounts, 1, "new@x.org", 902, Locale::En, t(3)), 901);
    assert_eq!(accounts.len(), 3);
    assert_eq!(accounts[2].lang, "en");
}

#[test]
fn overdue_links_let_nobody_in() {
    let mut book = Vec::new();
    invite(&mut book, 100, "eve@x.org", "secret", t(0)).unwrap();
    let late = Timestamp { secs: WEEK, nanos: 1 };
    assert_eq!(follow(&mut book, 1, "secret", late).unwrap_err(), AcceptRefusal::Expired);
    assert_eq!(book[0].status, InviteStatus::Expired);
    assert_eq!(book[0].accepted_by, None);
    assert_eq!(follow(&mut book, 1, "secret", t(1)).unwrap_err(), AcceptRefusal::NoLongerValid);
}

#[test]
fn inviting_again_renews_the_pending_invitation() {
    let mut book = Vec::new();
    invite(&mut book, 100, "eve@x.org", "first", t(0)).unwrap();
    invite(&mut book, 101, "eve@x.org", "second", t(50)).unwrap();
    assert_eq!(book.len(), 1);
    assert_eq!((book[0].id, book[0].expires_at, book[0].created_at), (100, t(50 + WEEK), t(50)));
    assert_eq!(follow(&mut book, 1, "first", t(60)).unwrap_err(), AcceptRefusal::InvalidLink);
    assert!(follow(&mut book, 1, "second", t(60)).is_ok());
    invite(&mut book, 102, "eve@x.org", "third", t(70)).unwrap();
    assert_eq!(book.len(), 2);
    assert_eq!(invite(&mut book, 103, "u7@example.org", "fourth", t(80)), None);
    assert_eq!(book.len(), 2);
}

#[test]
fn random_links_differ_and_work() {
    let mut book = Vec::new();
    let mut links = Vec::new();
    for (i, email) in ["a@x.org", "b@x.org"].into_iter().enumerate() {
        let link = invite_address(
            &mut book,
            &space(true),
            &someone(7, false),
            &vec![],
            i as u128,
            email,
            "https://h",
            t(0),
        );
        links.push(link.unwrap());
    }
    assert_ne!(links[0], links[1]);
    let prefix = "https://h/invite/accept?token=";
    let token = links[1].strip_prefix(prefix).unwrap();
    assert_eq!(token.len(), 43);
    assert!(follow(&mut book, 1, token, t(1)).is_ok());
    let used: Vec<&str> = book
        .iter()
        .filter(|i| i.accepted_by.is_some())
        .map(|i| i.email.as_str())
        .collect();
    assert_eq!(used, vec!["b@x.org"]);
}

#[test]
fn invitations_are_revoked_by_their_sender_or_an_admin() {
    let mut book = Vec::new();
    invite(&mut book, 100, "eve@x.org", "one", t(0)).unwrap();
    invite(&mut book, 101, "bob@x.org", "two", t(0)).unwrap();
    revoke(&mut book, 100, 1, &someone(8, false));
    revoke(&mut book, 100, 2, &someone(7, false));
    assert_eq!(book[0].status, InviteStatus::Pending);
    revoke(&mut book, 100, 1, &someone(7, false));
    assert_eq!(book[0].status, InviteStatus::Revoked);
    assert_eq!(book[1].status, InviteStatus::Pending);
    revoke(&mut book, 101, 1, &someone(8, true));
    assert_eq!(book[1].status, InviteStatus::Revoked);
    assert_eq!(follow(&mut book, 1, "one", t(1)).unwrap_err(), AcceptRefusal::NoLongerValid);
}

#[test]
fn cleanup_expires_what_is_overdue() {
    let mut book = Vec::new();
    invite(&mut book, 100, "eve@x.org", "one", t(0)).unwrap();
    invite(&mut book, 101, "bob@x.org", "two", t(10)).unwrap();
    expire_overdue(&mut book, t(WEEK + 5));
    assert_eq!(book[0].status, InviteStatus::Expired);
    assert_eq!(book[1].status, InviteStatus::Pending);
}

#[test]
fn refused_links_say_why() {
    assert_eq!(AcceptRefusal::InvalidLink.status(), 400);
    assert_eq!(AcceptRefusal::InvalidLink.message(Locale::En), "Invalid link.");
    assert_eq!(
        AcceptRefusal::NoLongerValid.message(Locale::Fr),
        "Cette invitation n'est plus valable."
    );
    assert_eq!(AcceptRefusal::Expired.message(Locale::En), "This invitation has expired.");
}

#[test]
fn a_hash_can_be_looked_up_directly() {
    let mut book = Vec::new();
    invite(&mut book, 100, "eve@x.org", "secret", t(0)).unwrap();
    let hash = hex_sha256("secret");
    assert_eq!(book[0].token_hash, hash);
    let mut accounts = Vec::new();
    let mut take = |hash: &str| accept_hash(&mut book, &mut accounts, 1, hash, 9, Locale::En, t(1));
    assert!(take("secret").is_err());
    assert_eq!(take(&hash), Ok(9));
}

#[test]
fn names_come_from_addresses() {
    assert_eq!(display_name("ann.lee_b@x.org"), "ann lee b");
    assert_eq!(display_name("plain"), "plain");
    assert_eq!(display_name("@x.org"), "");
    assert_eq!(accept_link("https://h", "a b"), "https://h/invite/accept?token=a b");
}

#[test]
fn requests_are_summed_up() {
    let all = vec![Fate::Sent, Fate::Failed, Fate::Sent, Fate::AlreadyMember];
    let sums = tally(&all);
    assert_eq!((sums.invited, sums.already, sums.failed), (2, 1, 1));
    assert_eq!(
        notice(sums, Locale::En),
        "2 invitation(s) sent, 1 already member(s), 1 failed."
    );
    assert_eq!(
        notice(sums, Locale::Fr),
        "2 invitation(s) envoyée(s), 1 déjà membre(s), 1 échec(s)."
    );
}

#[test]
fn the_members_screen_lists_pending_invitations() {
    let mut book = Vec::new();
    invite(&mut book, 100, "eve@x.org", "one", t(0)).unwrap();
    invite(&mut book, 101, "bob@x.org", "two", t(0)).unwrap();
    invite(&mut book, 102, "zoe@x.org", "three", t(9)).unwrap();
    invite(&mut book, 103, "max@x.org", "four", t(3)).unwrap();
    revoke(&mut book, 100, 1, &someone(7, false));
    let board = vec![LeaderboardRow {
        user_id: 7,
        display_name: "Ann".into(),
        points: 12,
        current_streak: 0,
        best_streak: 0,
    }];
    let members = vec![MemberRow { name: "Ann".into(), email: "a@x.org".into(), is_admin: true }];
    let view = render_members(
        &space(false),
        &someone(7, false),
        members,
        &book,
        &board,
        Some("done".into()),
        None,
    );
    assert_eq!((view.user_name.as_str(), view.total_points), ("User 7", 12));
    assert!(!view.can_invite && !view.is_admin);
    // Newest first.
    let ids: Vec<u128> = view.invites.iter().map(|i| i.id).collect();
    assert_eq!(ids, vec![102, 103, 101]);
    assert_eq!(view.invites[2].email, "bob@x.org");
    assert_eq!(view.invites[2].expires_label, "08/01/1970");
    assert_eq!((view.notice.as_deref(), view.error), (Some("done"), None));
    assert_eq!(view.members[0].email, "a@x.org");
}

#[test]
fn hashes_are_the_known_ones() {
    assert_eq!(
        hex_sha256("abc"),
        "ba7816bf8f01cfea414140de5dae2223b00361a396177a9cb410ff61f20015ad"
    );
    assert_eq!(to_hex(&vec![0, 15, 16, 255]), "000f10ff");
    assert_ne!(to_hex(&vec![1, 2]), to_hex(&vec![2, 1]));
}

#[test]
fn tokens_hold_thirty_two_bytes() {
    let raw = [250u8; 32];
    let engine = base64::engine::general_purpose::URL_SAFE_NO_PAD;
    assert_eq!(engine.decode(token_of(&raw)).unwrap(), raw.to_vec());
    let token = random_token();
    assert_eq!(token.len(), 43);
    assert_eq!(engine.decode(&token).unwrap().len(), 32);
    assert_ne!(token, random_token());
}

#[test]
fn sessions_last_thirty_days() {
    let session = open_session(1, 7, t(100));
    assert_eq!((session.tenant_id, session.user_id), (1, 7));
    assert_eq!(session.expires_at, t(100 + 30 * 86_400));
    assert_ne!(session.id, open_session(1, 7, t(100)).id);
    assert_eq!((new_session_id() >> 76) & 0xf, 4);
    assert_eq!((new_session_id() >> 62) & 0x3, 2);
}

#[test]
fn signing_in_while_developing() {
    let mut members = vec![someone(7, false), someone(8, true)];
    let book = vec![
        Prediction {
            tenant_id: 1,
            user_id: 8,
            match_id: 1,
            home_score: 0,
            away_score: 0,
            points: Some(3),
            multiplier: 1,
        },
        Prediction {
            tenant_id: 2,
            user_id: 8,
            match_id: 1,
            home_score: 0,
            away_score: 0,
            points: Some(3),
            multiplier: 1,
        },
    ];
    assert_eq!(index(false, &members, &book, 1).unwrap_err(), DevRefusal::Disabled);
    assert!(are_points_showable(&members, &book, 1));
    let users = index(true, &members, &book, 1).unwrap();
    assert_eq!(users.len(), 2);
    assert_eq!((users[1].email.as_str(), users[1].points), ("u8@example.org", 3));
    assert_eq!((users[0].display_name.as_str(), users[0].points), ("User 7", 0));

    let q = LoginQuery { email: "  U8@Example.org ".into() };
    assert_eq!(login_email(&q), "u8@example.org");
    assert_eq!(login_as(false, 1, &mut members, &q, true, t(0)), Err(DevRefusal::Disabled));
    let nobody = LoginQuery { email: "x".into() };
    assert_eq!(login_as(true, 1, &mut members, &nobody, true, t(0)), Err(DevRefusal::UnknownUser));
    let session = login_as(true, 1, &mut members, &q, false, t(0)).unwrap();
    assert_eq!((session.tenant_id, session.user_id), (1, 8));
    assert_eq!(session.expires_at, t(30 * 86_400));
    assert!(!members[1].is_admin);
    assert_eq!(DevRefusal::Disabled.status(), 404);
    assert_eq!(DevRefusal::Disabled.message(), "Dev mode disabled.");
    assert_eq!(
        DevRefusal::UnknownUser.message(),
        "Utilisateur introuvable. Lance d'abord `cargo run -- seed`."
    );
}
