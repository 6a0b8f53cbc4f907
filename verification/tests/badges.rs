use std::collections::HashSet;

use lunatech_betting::achievements::{
    def, earned_by_user, earned_codes, evaluate_all, load_catalog, qualified, take_unseen, Earned,
    Achievement, Player, POINT_TIERS, STREAK_TIERS,
};
use lunatech_betting::clock::Timestamp;
use lunatech_betting::i18n::Locale;
use lunatech_betting::leaderboard::LeaderboardRow;
use lunatech_betting::models::{Match, Prediction, User};
use lunatech_betting::notifications::badges::{
    init_badge_notifications, send_badge_unlocks, stamp, BadgeRow,
};
use lunatech_betting::profile::{me, progress};

#[test]
fn catalogue_codes_are_unique() {
    let mut seen = HashSet::new();
    for b in load_catalog() {
        assert!(seen.insert(b.code), "duplicate code {}", b.code);
    }
}

#[test]
fn point_and_streak_tiers_have_catalogue_entries() {
    for t in POINT_TIERS {
        assert!(def(&format!("pts_{t}")).is_some());
    }
    for t in STREAK_TIERS {
        assert!(def(&format!("streak_{t}")).is_some());
    }
}

#[test]
fn badges_are_described_in_both_languages() {
    let d = def("marathon").unwrap();
    assert_eq!(d.name(Locale::Fr), "Marathonien");
    assert_eq!(d.name(Locale::En), "Marathoner");
    assert_eq!(d.desc(Locale::En), "Bet on every match of a full phase.");
    assert_eq!(d.icon_path(), "/static/badges/marathon.svg");
    assert!(def("nope").is_none());
    assert_eq!(load_catalog().len(), 8);
}

fn game(id: i64, day: i64, stage: &str) -> Match {
    Match {
        id,
        competition: "WC".into(),
        stage: Some(stage.into()),
        group_name: None,
        home_team: "A".into(),
        away_team: "B".into(),
        home_team_code: None,
        away_team_code: None,
        kickoff_at: Timestamp { secs: day * 86_400 + 50_000, nanos: 0 },
        status: "FINISHED".into(),
        home_score: Some(1),
        away_score: Some(0),
        pens_home: None,
        pens_away: None,
    }
}

fn bet(user_id: u128, match_id: i64, points: Option<i32>) -> Prediction {
    Prediction {
        tenant_id: 1,
        user_id,
        match_id,
        home_score: 1,
        away_score: 0,
        points,
        multiplier: 1,
    }
}

fn player(id: u128, best_streak: i32) -> Player {
    Player { tenant_id: 1, id, best_streak }
}

#[test]
fn badges_follow_the_bets() {
    let matches = vec![game(1, 3, "LAST_16"), game(2, 3, "LAST_16"), game(3, 4, "FINAL")];
    let all = vec![bet(7, 1, Some(3)), bet(7, 2, Some(6)), bet(7, 3, Some(1))];
    assert_eq!(
        qualified(player(7, 5), &all, &matches),
        vec!["first_exact", "perfect_day", "streak_5", "marathon"]
    );
    // One miss on the day, and the day is not perfect.
    let missed = vec![bet(7, 1, Some(3)), bet(7, 2, Some(1))];
    assert_eq!(qualified(player(7, 4), &missed, &matches), vec!["first_exact", "marathon"]);
    // A single match is no perfect day, and half a stage is no marathon.
    let single = vec![bet(7, 1, Some(3))];
    assert_eq!(qualified(player(7, 0), &single, &matches), vec!["first_exact"]);
    assert_eq!(qualified(player(8, 10), &all, &matches), vec!["streak_5", "streak_10"]);
    assert_eq!(qualified(player(8, 0), &vec![], &matches), Vec::<String>::new());
}

#[test]
fn milestones_are_reached_at_their_value() {
    let matches = vec![game(1, 3, "FINAL")];
    let at = |n: i32| qualified(player(7, 0), &vec![bet(7, 1, Some(n - 2)), bet(7, 9, Some(2))], &matches);
    assert_eq!(at(49), vec!["first_exact"]);
    assert_eq!(at(50), vec!["first_exact", "pts_50"]);
    assert_eq!(at(100), vec!["first_exact", "pts_50", "pts_100"]);
    assert_eq!(at(250), vec!["first_exact", "pts_50", "pts_100", "pts_250"]);
}

#[test]
fn a_joker_counts_as_an_exact_score() {
    let matches = vec![game(1, 3, "FINAL")];
    let joker = vec![bet(7, 1, Some(6))];
    assert_eq!(qualified(player(7, 0), &joker, &matches), vec!["first_exact"]);
    let outcome = vec![bet(7, 1, Some(2))];
    assert_eq!(qualified(player(7, 0), &outcome, &matches), Vec::<String>::new());
}

#[test]
fn badges_are_given_once() {
    let matches = vec![game(1, 3, "FINAL")];
    let bets = vec![bet(7, 1, Some(3)), bet(8, 1, Some(1))];
    let players = vec![player(7, 5), player(8, 0)];
    let at = |secs| Timestamp { secs, nanos: 0 };
    // A badge whose rule no longer holds stays, with all that is known of it.
    let mut given = vec![Achievement {
        tenant_id: 1,
        user_id: 7,
        code: "marathon".into(),
        earned_at: at(1),
        seen: true,
        notified_at: Some(at(2)),
    }];
    evaluate_all(&mut given, &players, &bets, &matches, at(50));
    let codes: Vec<(u128, &str)> = given.iter().map(|g| (g.user_id, g.code.as_str())).collect();
    assert_eq!(codes, vec![(7, "marathon"), (7, "first_exact"), (7, "streak_5")]);
    assert_eq!((given[0].earned_at, given[0].seen, given[0].notified_at), (at(1), true, Some(at(2))));
    assert_eq!((given[1].earned_at, given[1].seen, given[1].notified_at), (at(50), false, None));
    evaluate_all(&mut given, &players, &bets, &matches, at(60));
    assert_eq!(given.len(), 3);
    assert_eq!(given[2].earned_at, at(50));
    // A player listed twice is given a badge once.
    let mut none = Vec::new();
    evaluate_all(&mut none, &vec![player(7, 5), player(7, 5)], &bets, &matches, at(60));
    assert_eq!(none.len(), 2);
    let by_user = earned_by_user(&given);
    assert_eq!(by_user[&7], vec!["first_exact", "streak_5", "marathon"]);
    assert!(!by_user.contains_key(&8));
}

#[test]
fn codes_come_in_catalogue_order() {
    let rows = vec!["marathon".to_string(), "old".to_string(), "first_exact".to_string()];
    assert_eq!(earned_codes(&rows), vec!["first_exact", "marathon"]);
    let mut earned = vec![
        Earned { code: "marathon".into(), seen: false },
        Earned { code: "pts_50".into(), seen: true },
        Earned { code: "first_exact".into(), seen: false },
    ];
    assert_eq!(take_unseen(&mut earned), vec!["first_exact", "marathon"]);
    assert_eq!(take_unseen(&mut earned), Vec::<String>::new());
}

fn someone(id: u128) -> User {
    User {
        id,
        email: "ann@example.org".into(),
        display_name: "Ann".into(),
        is_admin: false,
        created_at: Timestamp { secs: 0, nanos: 0 },
        stake_eur: None,
        stake_chosen_at: None,
        paid_at: None,
    }
}

#[test]
fn the_profile_shows_progress_for_what_is_missing() {
    let board = vec![LeaderboardRow {
        user_id: 7,
        display_name: "Ann".into(),
        points: 120,
        current_streak: 2,
        best_streak: 6,
    }];
    let mut rows = vec![
        Earned { code: "streak_5".into(), seen: false },
        Earned { code: "pts_50".into(), seen: true },
        Earned { code: "pts_100".into(), seen: true },
    ];
    let view = me(&someone(7), &board, &mut rows, Locale::En);
    assert_eq!((view.total_points, view.current_streak, view.best_streak), (120, 2, 6));
    assert_eq!((view.earned_count, view.total_badges), (3, 8));
    assert_eq!(view.unlocked, vec!["On fire"]);
    let progress_of = |name: &str| {
        view.badges.iter().find(|b| b.name == name).unwrap().progress.clone()
    };
    assert_eq!(progress_of("250 club").as_deref(), Some("120 / 250"));
    assert_eq!(progress_of("White hot").as_deref(), Some("6 / 10"));
    assert_eq!(progress_of("100 club"), None);
    assert_eq!(progress_of("Marathoner"), None);
    assert!(view.badges.iter().find(|b| b.name == "On fire").unwrap().earned);
    let again = me(&someone(7), &board, &mut rows, Locale::Fr);
    assert!(again.unlocked.is_empty());
    assert_eq!(again.badges[0].name, "Premier sans faute");
}

#[test]
fn progress_stops_at_the_milestone() {
    assert_eq!(progress("pts_50", 70, 0).as_deref(), Some("50 / 50"));
    assert_eq!(progress("pts_50", -1, 0).as_deref(), Some("-1 / 50"));
    assert_eq!(progress("streak_5", 0, 3).as_deref(), Some("3 / 5"));
    assert_eq!(progress("first_exact", 0, 3), None);
}

fn held(user_id: u128, code: &str, notified: bool) -> BadgeRow {
    BadgeRow {
        tenant_id: 1,
        user_id,
        email: format!("u{user_id}@example.org"),
        lang: if user_id == 7 { "fr".into() } else { "de".into() },
        code: code.into(),
        earned_at: Timestamp { secs: 5, nanos: 0 },
        notified,
    }
}

#[test]
fn starting_up_announces_nothing_of_the_past() {
    let mut recorded = vec!["pts_50".to_string()];
    let mut rows = vec![held(7, "pts_50", false), held(7, "marathon", false), held(7, "new", false)];
    init_badge_notifications(&mut recorded, &mut rows);
    assert_eq!(recorded.len(), 8);
    assert_eq!(recorded[0], "pts_50");
    assert_eq!(recorded[1], "first_exact");
    let notified: Vec<bool> = rows.iter().map(|r| r.notified).collect();
    assert_eq!(notified, vec![false, true, false]);
    init_badge_notifications(&mut recorded, &mut rows);
    assert_eq!(recorded.len(), 8);
    assert_eq!(rows.iter().filter(|r| r.notified).count(), 1);
}

#[test]
fn one_mail_tells_all_fresh_badges() {
    let mut rows = vec![
        held(7, "first_exact", false),
        held(7, "marathon", false),
        held(7, "unheard_of", false),
        held(8, "pts_50", false),
        held(9, "unheard_of", false),
        held(9, "pts_100", true),
    ];
    rows.push(BadgeRow { tenant_id: 2, ..held(10, "pts_50", false) });
    let mails = send_badge_unlocks(&rows, 1);
    assert_eq!(mails.len(), 2);
    assert_eq!((mails[0].user_id, mails[0].loc), (7, Locale::Fr));
    assert_eq!(mails[0].codes, vec!["first_exact", "marathon"]);
    assert_eq!(mails[0].badges[1].name, "Marathonien");
    assert_eq!(mails[0].badges[1].icon_path, "/static/badges/marathon.svg");
    assert_eq!((mails[1].user_id, mails[1].loc), (8, Locale::En));
    assert_eq!(mails[1].badges[0].desc, "Reach 50 total points.");
    // What was told is stamped, the unknown badge is not, and nobody is told twice.
    stamp(&mut rows, 1, &mails[0]);
    let left = send_badge_unlocks(&rows, 1);
    assert_eq!(left.len(), 1);
    assert_eq!(left[0].user_id, 8);
    stamp(&mut rows, 1, &mails[1]);
    assert!(send_badge_unlocks(&rows, 1).is_empty());
    assert!(!rows[2].notified);
}

#[test]
fn badges_are_told_in_the_order_they_were_earned() {
    let earned = |user_id, code, secs| BadgeRow {
        earned_at: Timestamp { secs, nanos: 0 },
        ..held(user_id, code, false)
    };
    let rows = vec![
        earned(8, "marathon", 9),
        earned(7, "pts_100", 4),
        earned(8, "pts_50", 1),
        earned(7, "pts_50", 2),
        earned(8, "first_exact", 5),
    ];
    let mails = send_badge_unlocks(&rows, 1);
    assert_eq!(mails.len(), 2);
    assert_eq!(mails[0].codes, vec!["pts_50", "pts_100"]);
    assert_eq!((mails[1].user_id, mails[1].codes.len()), (8, 3));
    assert_eq!(mails[1].codes, vec!["pts_50", "first_exact", "marathon"]);
}
