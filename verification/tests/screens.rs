use chrono::{DateTime, NaiveDate, Utc};
use lunatech_betting::bets::Member;
use lunatech_betting::clock::{present, Day, Timestamp};
use lunatech_betting::i18n::Locale;
use lunatech_betting::leaderboard::{points_for, streaks_for, Highlight, LeaderboardRow};
use lunatech_betting::matchday::{cest_date, window};
use lunatech_betting::models::{Match, Prediction, User};
use lunatech_betting::ordering::{order_by_mark, order_by_time, Mark};
use lunatech_betting::schedule::{
    any_match_active, chosen_day, command, daily_mails, digest_day, is_stale_signup, mails_at_hour,
    next_delay, preview_day, Command, DailyMails,
};
use lunatech_betting::tenant::Tenant;
use lunatech_betting::text::{chars_of, holds, replace, split, str_eq, to_decimal, trim, Cut};
use lunatech_betting::today::{
    build_celebration, highlight_day, is_tellable, match_fragment, page, show_highlight,
    standings, FragmentQuery, Outcome,
};

const HOUR: i64 = 3_600;
const DAY: i64 = 86_400;

fn t(secs: i64) -> Timestamp {
    Timestamp { secs, nanos: 0 }
}

fn at(text: &str) -> Timestamp {
    let d: DateTime<Utc> = text.parse().unwrap();
    t(d.timestamp())
}

fn day(y: i32, m: u32, d: u32) -> Day {
    Day { num: NaiveDate::from_ymd_opt(y, m, d).unwrap().to_epoch_days() }
}

fn game(id: i64, kickoff: Timestamp, status: &str) -> Match {
    Match {
        id,
        competition: "WC".into(),
        stage: None,
        group_name: None,
        home_team: format!("H{id}"),
        away_team: format!("A{id}"),
        home_team_code: None,
        away_team_code: None,
        kickoff_at: kickoff,
        status: status.into(),
        home_score: None,
        away_score: None,
        pens_home: None,
        pens_away: None,
    }
}

fn row(user_id: u128, points: i64) -> LeaderboardRow {
    LeaderboardRow {
        user_id,
        display_name: format!("P{user_id}"),
        points,
        current_streak: 2,
        best_streak: 4,
    }
}

fn ann() -> User {
    User {
        id: 7,
        email: "ann@example.org".into(),
        display_name: "Ann".into(),
        is_admin: true,
        created_at: t(0),
        stake_eur: None,
        stake_chosen_at: None,
        paid_at: None,
    }
}

fn space() -> Tenant {
    Tenant {
        id: 1,
        slug: "here".into(),
        name: "Here".into(),
        football_competition: "WC".into(),
        members_can_invite: false,
        jokers_enabled: true,
        reminder_lead_minutes: 60,
    }
}

#[test]
fn matchdays_run_into_the_next_morning() {
    let (start, end) = window(day(2026, 6, 11));
    assert_eq!(start, at("2026-06-11T13:00:00Z"));
    assert_eq!(end, at("2026-06-12T06:00:00Z"));
    assert_eq!(cest_date(at("2026-06-11T21:59:59Z")), day(2026, 6, 11));
    assert_eq!(cest_date(at("2026-06-11T22:00:00Z")), day(2026, 6, 12));
    assert_eq!(at("1969-12-31T23:59:59Z").date(), day(1969, 12, 31));
}

#[test]
fn the_screen_parts_today_from_yesterday() {
    let now = at("2026-06-12T10:00:00Z");
    let matches = vec![
        game(1, at("2026-06-12T20:00:00Z"), "TIMED"),
        game(2, at("2026-06-12T13:00:00Z"), "TIMED"),
        game(3, at("2026-06-12T04:00:00Z"), "IN_PLAY"),
        game(4, at("2026-06-11T19:00:00Z"), "FINISHED"),
        game(5, at("2026-06-12T08:00:00Z"), "TIMED"),
        game(6, at("2026-06-13T06:00:00Z"), "TIMED"),
    ];
    let book = vec![Prediction {
        tenant_id: 1,
        user_id: 7,
        match_id: 4,
        home_score: 2,
        away_score: 1,
        points: Some(6),
        multiplier: 2,
    }];
    let board = vec![row(9, 20), row(7, 12)];
    let view = page(&space(), &ann(), &matches, &book, &board, now);
    let today: Vec<i64> = view.today.iter().map(|v| v.m.id).collect();
    let results: Vec<i64> = view.results.iter().map(|v| v.m.id).collect();
    assert_eq!(today, vec![2, 1]);
    assert_eq!(results, vec![4, 3]);
    assert!(view.today[0].open);
    assert_eq!((view.results[0].bet_home, view.results[0].points), (Some(2), Some(6)));
    assert!(view.results[0].is_joker);
    // Six hours after kickoff a game can no longer be on.
    assert!(view.results[1].finished);
    assert_eq!((view.today_label.as_str(), view.yest_label.as_str()), ("12/06", "11/06"));
    assert_eq!((view.total_points, view.current_streak, view.best_streak), (12, 2, 4));
    assert!(view.is_admin);
    assert_eq!(view.user_name, "Ann");
    assert!(view.standings[1].is_me && !view.standings[0].is_me);
    assert_eq!((view.standings[1].rank, view.standings[1].points), (2, 12));
}

#[test]
fn the_ranking_stops_at_ten() {
    let board: Vec<LeaderboardRow> = (1..15).map(|i| row(i, 9)).collect();
    let lines = standings(&board, 3);
    assert_eq!(lines.len(), 10);
    assert_eq!((lines[2].is_me, lines[2].name.as_str(), lines[2].current_streak), (true, "P3", 2));
    assert!(standings(&vec![], 3).is_empty());
    assert_eq!(points_for(&board, 99), 0);
    assert_eq!(streaks_for(&board, 99), (0, 0));
    assert_eq!(points_for(&vec![row(1, (1 << 32) + 5)], 1), 5);
}

#[test]
fn single_cards_are_found_by_id() {
    let who = Member { tenant_id: 1, user_id: 7 };
    let matches = vec![game(4, t(100), "TIMED")];
    let q = FragmentQuery { date_only: true };
    let card = match_fragment(&matches, &vec![], who, true, 4, q, t(50)).unwrap();
    assert!(card.date_only && card.v.open && card.v.jokers_enabled);
    assert_eq!(card.v.m.home_team, "H4");
    assert!(match_fragment(&matches, &vec![], who, true, 5, q, t(50)).is_none());
}

#[test]
fn the_best_player_is_of_the_day_before() {
    assert_eq!(highlight_day(at("2026-06-12T00:30:00Z")), Some(day(2026, 6, 11)));
    let best = Highlight { user_id: 7, display_name: "Ann".into(), points: 9 };
    let shown = show_highlight(best, "/a.svg".into(), 7);
    assert!(shown.is_me);
    assert_eq!((shown.name.as_str(), shown.points, shown.avatar.as_str()), ("Ann", 9, "/a.svg"));
}

fn outcome(home: &str, kickoff: i64, points: Option<i32>, seen: bool) -> Outcome {
    Outcome {
        home_team: home.into(),
        away_team: "B".into(),
        kickoff_at: t(kickoff),
        points,
        seen,
    }
}

#[test]
fn wins_are_celebrated_once() {
    let mut rows = vec![
        outcome("Late", 9, Some(1), false),
        outcome("<Early>", 3, Some(6), false),
        outcome("Lost", 1, Some(0), false),
        outcome("Seen", 1, Some(3), true),
        outcome("Open", 1, None, false),
    ];
    assert!(is_tellable(&rows));
    let text = build_celebration(&mut rows, Locale::En).unwrap();
    assert!(!text.contains('<'));
    assert!(text.contains("\\u003cEarly>"));
    let v: serde_json::Value = serde_json::from_str(&text).unwrap();
    assert_eq!(v["mode"], "individual");
    let wins = v["wins"].as_array().unwrap();
    assert_eq!(wins.len(), 2);
    assert_eq!(wins[0]["label"], "<Early> - B");
    assert_eq!(wins[0]["points"], 6);
    assert_eq!(wins[0]["level"], "exact");
    assert_eq!(wins[0]["message"], "Exact score! +3");
    assert_eq!(wins[1]["label"], "Late - B");
    assert_eq!(wins[1]["level"], "outcome");
    assert_eq!(wins[1]["message"], "Nice! +1");
    let seen: Vec<bool> = rows.iter().map(|r| r.seen).collect();
    assert_eq!(seen, vec![true, true, true, true, false]);
    assert!(build_celebration(&mut rows, Locale::En).is_none());
}

#[test]
fn many_wins_are_added_up() {
    let four = |loc| {
        let mut rows: Vec<Outcome> =
            [3, 1, 6, 1].iter().map(|p| outcome("A", 1, Some(*p), false)).collect();
        build_celebration(&mut rows, loc).unwrap()
    };
    let v: serde_json::Value = serde_json::from_str(&four(Locale::En)).unwrap();
    assert_eq!(v["mode"], "aggregate");
    assert_eq!(v["count"], 4);
    assert_eq!(v["points"], 11);
    assert_eq!(v["message"], "4 winning picks, +11 pts");
    let v: serde_json::Value = serde_json::from_str(&four(Locale::Fr)).unwrap();
    assert_eq!(v["message"], "4 pronos gagnés, +11 pts");
    let three: Vec<Outcome> = (0..3).map(|_| outcome("A", 1, Some(i32::MAX), false)).collect();
    assert!(is_tellable(&three));
    let many: Vec<Outcome> = (0..4).map(|_| outcome("A", 1, Some(i32::MAX), false)).collect();
    assert!(!is_tellable(&many));
}

#[test]
fn polling_is_fast_around_a_match() {
    let now = t(10 * HOUR);
    let active = |kickoff: i64, status: &str| any_match_active(&vec![game(1, t(kickoff), status)], now);
    assert!(active(0, "IN_PLAY"));
    assert!(active(99 * HOUR, "PAUSED"));
    assert!(active(10 * HOUR + 600, "TIMED"));
    assert!(!active(10 * HOUR + 601, "TIMED"));
    assert!(active(7 * HOUR, "SCHEDULED"));
    assert!(!active(7 * HOUR - 1, "SCHEDULED"));
    assert!(!active(10 * HOUR, "FINISHED"));
    assert!(!any_match_active(&vec![], now));
    assert_eq!(next_delay(Some(true)), 60);
    assert_eq!(next_delay(Some(false)), 600);
    assert_eq!(next_delay(None), 60);
}

#[test]
fn daily_mails_go_by_the_clock_of_amsterdam() {
    // 06:30 UTC is 08:30 in Amsterdam in June, and 07:30 in January.
    let june = at("2026-06-12T06:30:00Z");
    let january = at("2026-01-12T06:30:00Z");
    let both = DailyMails {
        results_of: Some(day(2026, 6, 11)),
        matches_of: Some(day(2026, 6, 12)),
    };
    assert_eq!(daily_mails(june, 8, 8), both);
    assert_eq!(daily_mails(june, 9, 9), DailyMails { results_of: None, matches_of: None });
    assert_eq!(daily_mails(january, 8, 7).results_of, None);
    assert_eq!(daily_mails(january, 8, 7).matches_of, Some(day(2026, 1, 12)));
    assert_eq!(mails_at_hour(day(2026, 6, 12), 8, 8, 9), DailyMails { matches_of: None, ..both });
}

#[test]
fn commands_are_read_from_the_first_argument() {
    assert_eq!(command(None), Command::Serve);
    assert_eq!(command(Some("gen-vapid")), Command::GenVapid);
    assert_eq!(command(Some("seed")), Command::Seed);
    assert_eq!(command(Some("notify")), Command::Notify);
    assert_eq!(command(Some("live-score")), Command::LiveScore);
    assert_eq!(command(Some("rank-alerts")), Command::RankAlerts);
    assert_eq!(command(Some("daily-digest")), Command::DailyDigest);
    assert_eq!(command(Some("today-matches")), Command::TodayMatches);
    assert_eq!(command(Some("recompute-streaks")), Command::RecomputeStreaks);
    assert_eq!(command(Some("Seed")), Command::Serve);
}

#[test]
fn days_are_read_from_the_second_argument() {
    let now = at("2026-06-12T01:00:00Z");
    assert_eq!(digest_day(None, now), day(2026, 6, 11));
    assert_eq!(digest_day(Some(" 2026-07-19 "), now), day(2026, 7, 19));
    assert_eq!(digest_day(Some("tomorrow"), now), day(2026, 6, 11));
    assert_eq!(preview_day(None, now), day(2026, 6, 12));
    assert_eq!(preview_day(Some("2026-02-30"), now), day(2026, 6, 12));
    assert_eq!(preview_day(Some("2026-02-28"), now), day(2026, 2, 28));
    assert_eq!(chosen_day(None, day(2026, 1, 1)), day(2026, 1, 1));
}

#[test]
fn signups_are_dropped_a_day_after_they_ran_out() {
    assert!(!is_stale_signup(t(0), false, t(DAY)));
    assert!(is_stale_signup(t(0), false, t(DAY + 1)));
    assert!(!is_stale_signup(t(0), true, t(9 * DAY)));
}

#[test]
fn the_present_is_now() {
    let before = Utc::now().timestamp();
    let now = present();
    assert!(before <= now.secs && now.secs <= Utc::now().timestamp());
    assert!(now.nanos < 1_000_000_000);
}

#[test]
fn days_have_labels() {
    assert_eq!(day(2026, 6, 1).label(), "01/06/2026");
    assert_eq!(day(2026, 6, 1).brief(), "01/06");
    assert_eq!(day(2026, 6, 1).pred(), Some(day(2026, 5, 31)));
    assert_eq!(Day { num: -96_465_292 }.pred(), None);
    assert_eq!(Day { num: -96_465_292 }.label().len(), "01/01/-262143".len());
    assert_eq!(Day { num: 95_026_236 }.brief(), "31/12");
}

#[test]
fn languages_have_codes() {
    assert_eq!(Locale::from_code("fr"), Some(Locale::Fr));
    assert_eq!(Locale::from_code("FR"), None);
    assert_eq!(Locale::of_user("de"), Locale::En);
    assert_eq!(Locale::default(), Locale::En);
    for loc in [Locale::Fr, Locale::En] {
        assert_eq!(Locale::from_code(loc.code()), Some(loc));
    }
}

#[test]
fn texts_are_cut_and_mended() {
    assert!(str_eq("é", "é") && !str_eq("é", "e") && !str_eq("a", "ab"));
    assert_eq!(trim(" \u{a0}a b\n"), "a b");
    // White space is what `char::is_whitespace` says it is, and nothing else.
    let blank: Vec<u32> =
        (0..0x11_0000).filter(|n| char::from_u32(*n).is_some_and(|c| c.is_whitespace())).collect();
    assert_eq!(blank.len(), 25);
    for n in blank {
        let c = char::from_u32(n).unwrap();
        assert_eq!(trim(&format!("{c}a{c}")), "a");
        assert!(
            (0x9..=0xd).contains(&n)
                || (0x2000..=0x200a).contains(&n)
                || [0x20, 0x85, 0xa0, 0x1680, 0x2028, 0x2029, 0x202f, 0x205f, 0x3000].contains(&n)
        );
    }
    assert_eq!(trim(" \t"), "");
    let parts: Vec<String> = split("a,b; c", Cut::Entry).iter().map(|p| p.iter().collect()).collect();
    assert_eq!(parts, vec!["a", "b", "", "c"]);
    assert_eq!(split("", Cut::At).len(), 1);
    assert_eq!(split("a b@c", Cut::Blank).len(), 2);
    assert_eq!(replace("a.b.", '.', "--"), "a--b--");
    assert_eq!(to_decimal(i64::MIN), "-9223372036854775808");
    assert_eq!(to_decimal(0), "0");
    assert_eq!(to_decimal(1_203), "1203");
    assert!(holds(&chars_of("a@b"), '@') && !holds(&chars_of("ab"), '@'));
}

#[test]
fn times_are_ordered_stably() {
    let times = vec![t(5), t(3), Timestamp { secs: 3, nanos: 1 }, t(3), t(1)];
    assert_eq!(order_by_time(&times), vec![4, 1, 3, 2, 0]);
    let mark = |group, secs| Mark { group, at: t(secs) };
    let marks = vec![mark(2, 1), mark(1, 9), mark(2, 0), mark(1, 3)];
    assert_eq!(order_by_mark(&marks), vec![3, 1, 2, 0]);
}
