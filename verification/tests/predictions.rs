use lunatech_betting::bets::{
    card_anchor, find_own_bet, place_or_update, render_match_card, toggle_joker, BetForm, Member,
    Refusal,
};
use lunatech_betting::clock::Timestamp;
use lunatech_betting::i18n::Locale;
use lunatech_betting::import_bets::{after_import, detect_sources, import, Membership};
use lunatech_betting::models::{Match, Prediction, User};
use lunatech_betting::tenant::Tenant;

const WHO: Member = Member { tenant_id: 1, user_id: 7 };

fn t(secs: i64) -> Timestamp {
    Timestamp { secs, nanos: 0 }
}

fn game(id: i64, kickoff: i64, stage: Option<&str>) -> Match {
    Match {
        id,
        competition: "WC".into(),
        stage: stage.map(|s| s.to_string()),
        group_name: None,
        home_team: "A".into(),
        away_team: "B".into(),
        home_team_code: None,
        away_team_code: None,
        kickoff_at: t(kickoff),
        status: "TIMED".into(),
        home_score: None,
        away_score: None,
        pens_home: None,
        pens_away: None,
    }
}

fn form(home_score: i32, away_score: i32) -> BetForm {
    BetForm { home_score, away_score }
}

#[test]
fn placed_bets_are_read_back_and_updated() {
    let matches = vec![game(1, 100, None)];
    let mut book = Vec::new();
    assert_eq!(place_or_update(&mut book, &matches, WHO, 1, form(2, 1), t(50)), Ok(()));
    let mine = find_own_bet(&book, WHO, 1).unwrap();
    assert_eq!((mine.home_score, mine.away_score, mine.multiplier), (2, 1, 1));
    assert_eq!(mine.points, None);
    assert_eq!(toggle_joker(&mut book, &matches, WHO, true, 1, t(50)), Ok(()));
    assert_eq!(place_or_update(&mut book, &matches, WHO, 1, form(0, 30), t(99)), Ok(()));
    assert_eq!(book.len(), 1);
    assert_eq!((book[0].home_score, book[0].away_score, book[0].multiplier), (0, 30, 2));
    assert_eq!(find_own_bet(&book, Member { tenant_id: 2, user_id: 7 }, 1), None);
    assert_eq!(find_own_bet(&book, Member { tenant_id: 1, user_id: 8 }, 1), None);
}

#[test]
fn bad_bets_are_refused() {
    let mut matches = vec![game(1, 100, None)];
    let mut book = Vec::new();
    let mut place = |matches: &Vec<Match>, id, f, at| {
        let r = place_or_update(&mut book, matches, WHO, id, f, at);
        assert!(book.is_empty());
        r
    };
    assert_eq!(place(&matches, 1, form(-1, 0), t(50)), Err(Refusal::InvalidScore));
    assert_eq!(place(&matches, 1, form(0, 31), t(50)), Err(Refusal::InvalidScore));
    assert_eq!(place(&matches, 9, form(0, 31), t(50)), Err(Refusal::InvalidScore));
    assert_eq!(place(&matches, 9, form(1, 1), t(50)), Err(Refusal::MatchNotFound));
    assert_eq!(place(&matches, 1, form(1, 1), t(100)), Err(Refusal::BetsClosed));
    matches[0].status = "IN_PLAY".into();
    assert_eq!(place(&matches, 1, form(1, 1), t(50)), Err(Refusal::BetsClosed));
}

#[test]
fn jokers_move_within_their_phase() {
    let matches = vec![
        game(1, 100, Some("LAST_16")),
        game(2, 200, Some("LAST_16")),
        game(3, 300, Some("FINAL")),
    ];
    let mut book = Vec::new();
    for id in 1..4 {
        place_or_update(&mut book, &matches, WHO, id, form(1, 0), t(10)).unwrap();
    }
    let jokers = |book: &Vec<Prediction>| book.iter().map(|p| p.multiplier).collect::<Vec<i32>>();
    toggle_joker(&mut book, &matches, WHO, true, 1, t(10)).unwrap();
    toggle_joker(&mut book, &matches, WHO, true, 3, t(10)).unwrap();
    assert_eq!(jokers(&book), vec![2, 1, 2]);
    toggle_joker(&mut book, &matches, WHO, true, 2, t(10)).unwrap();
    assert_eq!(jokers(&book), vec![1, 2, 2]);
    toggle_joker(&mut book, &matches, WHO, true, 2, t(10)).unwrap();
    assert_eq!(jokers(&book), vec![1, 1, 2]);
}

#[test]
fn jokers_are_refused() {
    let matches = vec![game(1, 100, Some("LAST_16")), game(2, 200, Some("LAST_16"))];
    let mut book = Vec::new();
    place_or_update(&mut book, &matches, WHO, 1, form(1, 0), t(10)).unwrap();
    assert_eq!(
        toggle_joker(&mut book, &matches, WHO, false, 1, t(10)),
        Err(Refusal::JokersDisabled)
    );
    assert_eq!(
        toggle_joker(&mut book, &matches, WHO, true, 9, t(10)),
        Err(Refusal::MatchNotFound)
    );
    assert_eq!(
        toggle_joker(&mut book, &matches, WHO, true, 1, t(100)),
        Err(Refusal::MatchClosed)
    );
    assert_eq!(toggle_joker(&mut book, &matches, WHO, true, 2, t(10)), Err(Refusal::NoBet));
    toggle_joker(&mut book, &matches, WHO, true, 1, t(10)).unwrap();
    place_or_update(&mut book, &matches, WHO, 2, form(1, 0), t(10)).unwrap();
    assert_eq!(
        toggle_joker(&mut book, &matches, WHO, true, 2, t(150)),
        Err(Refusal::JokerLocked)
    );
    assert_eq!(book[0].multiplier, 2);
}

#[test]
fn refusals_say_why() {
    assert_eq!(Refusal::InvalidScore.status(), 400);
    assert_eq!(Refusal::InvalidScore.message(Locale::En), "Invalid score (0-30).");
    assert_eq!(Refusal::MatchNotFound.status(), 404);
    assert_eq!(Refusal::MatchNotFound.message(Locale::Fr), "Match introuvable.");
    assert_eq!(Refusal::BetsClosed.status(), 403);
    assert_eq!(Refusal::JokersDisabled.status(), 403);
    assert_eq!(Refusal::MatchClosed.status(), 403);
    assert_eq!(Refusal::NoBet.status(), 400);
    assert_eq!(Refusal::JokerLocked.status(), 409);
    assert_eq!(
        Refusal::JokerLocked.message(Locale::En),
        "Your joker for this phase is locked (its match has started)."
    );
}

#[test]
fn cards_show_the_bet() {
    let bet = Prediction {
        tenant_id: 1,
        user_id: 7,
        match_id: 1,
        home_score: 2,
        away_score: 1,
        points: Some(6),
        multiplier: 2,
    };
    let view = render_match_card(game(1, 100, None), Some(bet), true, t(50));
    assert!(view.open && !view.finished && view.is_joker && view.jokers_enabled);
    assert_eq!((view.bet_home, view.bet_away, view.points), (Some(2), Some(1), Some(6)));
    // Long after kickoff the card shows as finished, decided or not.
    let stuck = render_match_card(game(1, 100, None), None, false, t(100 + 5 * 3_600));
    assert!(!stuck.open && stuck.finished && !stuck.is_joker);
    assert_eq!(stuck.bet_home, None);
    assert_eq!(card_anchor(-12), "/matches#match--12");
    assert_eq!(card_anchor(410), "/matches#match-410");
}

fn space(id: u128, slug: &str, competition: &str) -> Tenant {
    Tenant {
        id,
        slug: slug.into(),
        name: slug.to_uppercase(),
        football_competition: competition.into(),
        members_can_invite: false,
        jokers_enabled: true,
        reminder_lead_minutes: 60,
    }
}

fn account(tenant_id: u128, user_id: u128, email: &str, slug: &str, competition: &str) -> Membership {
    Membership {
        tenant_id,
        user_id,
        email: email.into(),
        slug: slug.into(),
        name: slug.to_uppercase(),
        football_competition: competition.into(),
    }
}

fn ann() -> User {
    User {
        id: 7,
        email: "ann@example.org".into(),
        display_name: "Ann".into(),
        is_admin: false,
        created_at: t(0),
        stake_eur: None,
        stake_chosen_at: None,
        paid_at: None,
    }
}

fn placed(tenant_id: u128, user_id: u128, match_id: i64, home: i32) -> Prediction {
    Prediction {
        tenant_id,
        user_id,
        match_id,
        home_score: home,
        away_score: 0,
        points: Some(1),
        multiplier: 2,
    }
}

#[test]
fn predictions_are_copied_into_the_blanks() {
    let here = space(1, "here", "WC");
    let accounts = vec![
        account(1, 7, "ann@example.org", "here", "WC"),
        account(2, 70, "ann@example.org", "there", "WC"),
        account(3, 71, "ann@example.org", "elsewhere", "EC"),
        account(4, 72, "bob@example.org", "bobs", "WC"),
    ];
    let matches = vec![game(1, 100, None), game(2, 100, None), game(3, 10, None), game(4, 100, None)];
    let mut book = vec![
        placed(1, 7, 1, 5),
        placed(2, 70, 1, 1),
        placed(2, 70, 2, 2),
        placed(2, 70, 3, 3),
        placed(2, 70, 4, 4),
        placed(3, 71, 2, 9),
        placed(4, 72, 2, 9),
    ];
    let offers = detect_sources(&accounts, &here, &ann(), &book, &matches, t(50));
    assert_eq!(offers.len(), 1);
    assert_eq!((offers[0].slug.as_str(), offers[0].name.as_str()), ("there", "THERE"));
    assert_eq!(offers[0].count, 2);
    for slug in ["here", "elsewhere", "bobs", "nowhere"] {
        assert_eq!(import(&mut book, &accounts, slug, &here, &ann(), &matches, t(50)), 0);
    }
    let before = book.clone();
    assert_eq!(import(&mut book, &accounts, "there", &here, &ann(), &matches, t(50)), 2);
    assert_eq!(book[..7], before[..]);
    assert_eq!(book[7], Prediction { points: None, multiplier: 1, ..placed(1, 7, 2, 2) });
    assert_eq!(book[8], Prediction { points: None, multiplier: 1, ..placed(1, 7, 4, 4) });
    assert_eq!(import(&mut book, &accounts, "there", &here, &ann(), &matches, t(50)), 0);
    assert!(detect_sources(&accounts, &here, &ann(), &book, &matches, t(50)).is_empty());
    assert_eq!(after_import(2), "/matches?imported=2");
}
