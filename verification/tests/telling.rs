use lunatech_betting::clock::{amsterdam_clock, Day, Timestamp};
use lunatech_betting::i18n::Locale;
use lunatech_betting::leaderboard::{Highlight, LeaderboardRow};
use lunatech_betting::models::{Match, Prediction};
use lunatech_betting::notifications::digests::{
    day_points, digest_for_tenant, is_day_tellable, mark_sent, send_daily_digest, send_today_matches,
    today_matches_for_tenant, DigestPlan, ScorePair, Sent,
};
use lunatech_betting::notifications::live_scores::{
    live_score_for_tenant, send_live_score_updates, standings_line, title, ScoreCandidate,
    ScoreEvent,
};
use lunatech_betting::notifications::ranks::{
    climb_message, rebase_ranks, send_rank_alerts, RankPrefs,
};
use lunatech_betting::notifications::reminders::{
    channel_message, channel_payload, context_line, mark_reminded, send_for_tenant,
    send_match_reminders, FirstReminder, Reminded,
};
use lunatech_betting::notifications::{payload, to_prune, Attempt, Contact, Push, SendOutcome};
use lunatech_betting::tenant::Tenant;

const HOUR: i64 = 3_600;
const DAY: i64 = 86_400;

fn t(secs: i64) -> Timestamp {
    Timestamp { secs, nanos: 0 }
}

fn space() -> Tenant {
    Tenant {
        id: 1,
        slug: "here".into(),
        name: "Here".into(),
        football_competition: "WC".into(),
        members_can_invite: false,
        jokers_enabled: true,
        reminder_lead_minutes: 60,
    }
}

fn game(id: i64, kickoff: i64, status: &str) -> Match {
    Match {
        id,
        competition: "WC".into(),
        stage: None,
        group_name: Some("Group A".into()),
        home_team: format!("H{id}"),
        away_team: format!("A{id}"),
        home_team_code: None,
        away_team_code: None,
        kickoff_at: t(kickoff),
        status: status.into(),
        home_score: None,
        away_score: None,
        pens_home: None,
        pens_away: None,
    }
}

fn contact(user_id: u128, lang: &str, notify_push: bool) -> Contact {
    Contact { user_id, email: format!("u{user_id}@x.org"), lang: lang.into(), notify_push }
}

fn bet(user_id: u128, match_id: i64, points: Option<i32>) -> Prediction {
    Prediction {
        tenant_id: 1,
        user_id,
        match_id,
        home_score: 2,
        away_score: 1,
        points,
        multiplier: 1,
    }
}

fn row(user_id: u128, points: i64) -> LeaderboardRow {
    LeaderboardRow {
        user_id,
        display_name: format!("P{user_id}"),
        points,
        current_streak: 0,
        best_streak: 0,
    }
}

#[test]
fn payloads_are_json() {
    let push = Push {
        user_id: 7,
        title: "A \"B\"".into(),
        body: "line\nbreak".into(),
        url: "https://h".into(),
    };
    let v: serde_json::Value = serde_json::from_str(&payload(&push)).unwrap();
    assert_eq!(v["title"], "A \"B\"");
    assert_eq!(v["body"], "line\nbreak");
    assert_eq!(v["url"], "https://h");
    assert_eq!(v.as_object().unwrap().len(), 3);
}

#[test]
fn only_gone_subscriptions_are_dropped() {
    let attempt = |subscription, outcome| Attempt { subscription, outcome };
    let attempts = vec![
        attempt(1, SendOutcome::Delivered),
        attempt(2, SendOutcome::Gone),
        attempt(3, SendOutcome::Skipped),
        attempt(4, SendOutcome::Failed),
        attempt(5, SendOutcome::Gone),
    ];
    assert_eq!(to_prune(&attempts), vec![2, 5]);
}

#[test]
fn reminders_go_out_once_within_the_lead() {
    let matches = vec![
        game(1, 2 * HOUR, "TIMED"),
        game(2, 2 * HOUR - 1, "SCHEDULED"),
        game(3, 2 * HOUR + 1, "TIMED"),
        game(4, HOUR, "TIMED"),
        game(5, 2 * HOUR - 2, "POSTPONED"),
        game(6, 2 * HOUR - 3, "TIMED"),
    ];
    let entry = |match_id| Reminded { tenant_id: 1, match_id };
    let first = |match_id, reminded_at| FirstReminder { match_id, reminded_at };
    // What another space was reminded of does not count.
    let mut log = vec![entry(6), Reminded { tenant_id: 2, match_id: 1 }];
    let mut firsts = vec![first(1, Some(t(5))), first(2, None), first(3, None)];
    let due = send_match_reminders(&space(), &matches, &log, t(HOUR));
    assert_eq!(due, vec![1, 0]);
    for i in due {
        mark_reminded(&mut log, &mut firsts, entry(matches[i].id), t(HOUR));
    }
    mark_reminded(&mut log, &mut firsts, entry(2), t(HOUR + 1));
    assert_eq!(log.len(), 4);
    assert_eq!(firsts, vec![first(1, Some(t(5))), first(2, Some(t(HOUR))), first(3, None)]);
    assert!(send_match_reminders(&space(), &matches, &log, t(HOUR)).is_empty());
    let other = Tenant { id: 2, ..space() };
    assert_eq!(send_match_reminders(&other, &matches, &log, t(HOUR)), vec![5, 1]);
}

#[test]
fn those_who_bet_are_left_alone() {
    let contacts = vec![contact(7, "fr", true), contact(8, "en", false), contact(9, "??", true)];
    let book = vec![bet(7, 2, None), bet(8, 1, None)];
    let sent = send_for_tenant(&space(), &game(1, 100, "TIMED"), &contacts, &book, "https://h");
    assert_eq!(sent.len(), 2);
    assert_eq!((sent[0].email.as_str(), sent[0].loc), ("u7@x.org", Locale::Fr));
    assert_eq!((sent[0].home.as_str(), sent[0].away.as_str()), ("H1", "A1"));
    // A hundred seconds into 1970.
    assert_eq!(sent[0].kickoff_local, "01:01 CET");
    let push = sent[0].push.as_ref().unwrap();
    assert_eq!(push.title, "H1 - A1");
    assert_eq!(push.body, "Coup d'envoi bientôt et tu n'as pas encore parié !");
    assert_eq!(push.url, "https://h/matches");
    assert_eq!(sent[1].loc, Locale::En);
    assert_eq!(
        sent[1].push.as_ref().unwrap().body,
        "Kick-off soon and you haven't bet yet!"
    );
    let quiet = send_for_tenant(
        &space(),
        &game(1, 100, "TIMED"),
        &vec![contact(5, "en", false)],
        &book,
        "https://h",
    );
    assert!(quiet[0].push.is_none());
    let summer = game(1, 1_781_204_400, "TIMED");
    let told = send_for_tenant(&space(), &summer, &contacts, &book, "https://h");
    assert_eq!(told[1].kickoff_local, "21:00 CEST");
}

#[test]
fn channels_are_told_of_the_kickoff() {
    assert_eq!(context_line(Some("FINAL"), Some("A")), " (FINAL - A)");
    assert_eq!(context_line(None, Some("A")), " (A)");
    assert_eq!(context_line(Some("FINAL"), None), " (FINAL)");
    assert_eq!(context_line(None, None), "");
    assert_eq!(context_line(Some(""), None), "");
    // 2026-06-11 19:00 UTC is 21:00 in Amsterdam.
    let m = game(1, 1_781_204_400, "TIMED");
    let text = ":soccer: *H1* vs *A1* (Group A) commence à 21:00 CEST (dans <60 min).\n\
                Pariez maintenant : https://h/matches";
    assert_eq!(channel_message(&space(), &m, "https://h"), text);
    let v: serde_json::Value =
        serde_json::from_str(&channel_payload(&space(), &m, "https://h")).unwrap();
    assert_eq!(v["text"], text);
    // In winter the clock is one hour ahead of UTC.
    assert_eq!(amsterdam_clock(t(0)), "01:00 CET");
}

#[test]
fn clocks_run_to_the_ends_of_the_calendar() {
    let first = -96_465_292 * DAY;
    let last = 95_026_237 * DAY - 1;
    assert_eq!(amsterdam_clock(t(last)).len(), "00:59 CET".len());
    assert_eq!(amsterdam_clock(t(first)).len(), "00:19 LMT".len());
}

fn prefs(user_id: u128, notify_push: bool, lang: &str, last_rank: Option<i32>) -> RankPrefs {
    RankPrefs { user_id, notify_push, lang: lang.into(), last_rank }
}

#[test]
fn climbs_are_told_once() {
    let board = vec![row(7, 30), row(8, 20), row(9, 10), row(10, 5), row(11, 0), row(12, 9)];
    let mut all = vec![
        prefs(7, true, "fr", Some(2)),
        prefs(8, true, "en", Some(3)),
        prefs(9, false, "en", Some(9)),
        prefs(10, true, "en", None),
        prefs(11, true, "en", Some(9)),
        prefs(13, true, "en", Some(9)),
    ];
    let pushes = send_rank_alerts(&board, &all, "Here", "https://h");
    assert_eq!(pushes.len(), 2);
    assert_eq!((pushes[0].user_id, pushes[0].title.as_str()), (7, "Here"));
    assert_eq!(pushes[0].body, "Tu prends la tête du classement ! 👑");
    assert_eq!(pushes[0].url, "https://h/leaderboard");
    assert_eq!(pushes[1].body, "You climbed to #2 on the leaderboard! 🎉");
    rebase_ranks(&mut all, &board);
    let ranks: Vec<Option<i32>> = all.iter().map(|p| p.last_rank).collect();
    assert_eq!(ranks, vec![Some(1), Some(2), Some(3), Some(4), Some(5), Some(9)]);
    assert!(send_rank_alerts(&board, &all, "Here", "https://h").is_empty());
    // Dropping is silent.
    let turned = vec![row(8, 40), row(7, 30)];
    let told = send_rank_alerts(&turned, &all, "Here", "https://h");
    assert_eq!(told.len(), 1);
    assert_eq!(told[0].user_id, 8);
    assert_eq!(climb_message(3, Locale::Fr), "Tu grimpes à la 3e place du classement ! 🎉");
    assert_eq!(climb_message(1, Locale::En), "You're now top of the leaderboard! 👑");
}

#[test]
fn the_first_run_alerts_nobody() {
    let board = vec![row(7, 30), row(8, 20)];
    let all = vec![prefs(7, true, "fr", None), prefs(8, true, "en", None)];
    assert!(send_rank_alerts(&board, &all, "Here", "https://h").is_empty());
}

fn live(
    id: i64,
    status: &str,
    now: (Option<i32>, Option<i32>),
    told: (Option<i32>, Option<i32>, Option<&str>),
) -> ScoreCandidate {
    ScoreCandidate {
        id,
        home_team: "France".into(),
        away_team: "Spain".into(),
        kickoff_at: t(10 * HOUR),
        home_score: now.0,
        away_score: now.1,
        status: status.into(),
        last_pushed_home: told.0,
        last_pushed_away: told.1,
        last_pushed_status: told.2.map(|s| s.to_string()),
    }
}

fn events(c: ScoreCandidate, at: i64) -> Vec<ScoreEvent> {
    assert!(c.is_countable());
    let mut all = vec![c];
    let out = send_live_score_updates(&mut all, t(at));
    assert!(send_live_score_updates(&mut all, t(at)).is_empty());
    out
}

#[test]
fn goals_and_final_whistles_are_told() {
    let at = 11 * HOUR;
    let goal = events(live(1, "IN_PLAY", (Some(1), Some(0)), (Some(0), Some(0), Some("IN_PLAY"))), at);
    assert_eq!(goal.len(), 1);
    assert_eq!((goal[0].home, goal[0].away), (1, 0));
    assert!(!goal[0].is_final && !goal[0].is_disallowed);
    assert_eq!(title(&goal[0], Locale::En), "⚽ Goal! France 1-0 Spain");
    assert_eq!(title(&goal[0], Locale::Fr), "⚽ But ! France 1-0 Spain");

    let end = events(live(1, "FINISHED", (Some(1), Some(0)), (Some(1), Some(0), Some("IN_PLAY"))), at);
    assert!(end[0].is_final);
    assert_eq!(title(&end[0], Locale::En), "🏁 Final score: France 1-0 Spain");
    assert_eq!(title(&end[0], Locale::Fr), "🏁 Score final : France 1-0 Spain");

    let var = events(live(1, "IN_PLAY", (Some(4), Some(0)), (Some(5), Some(0), Some("IN_PLAY"))), at);
    assert!(var[0].is_disallowed && !var[0].is_final);
    assert_eq!(title(&var[0], Locale::En), "🚫 Goal disallowed: France 4-0 Spain");
    assert_eq!(title(&var[0], Locale::Fr), "🚫 But refusé : France 4-0 Spain");

    let both = events(live(1, "FINISHED", (Some(4), Some(0)), (Some(5), Some(0), Some("IN_PLAY"))), at);
    assert_eq!(title(&both[0], Locale::En), "🏁 Final score: France 4-0 Spain");
}

#[test]
fn the_rest_is_silent() {
    let at = 11 * HOUR;
    let none = (None, None, None);
    // Never told of before.
    assert!(events(live(1, "FINISHED", (Some(4), Some(0)), none), at).is_empty());
    // The first 0-0.
    assert!(events(live(1, "IN_PLAY", (Some(0), Some(0)), (None, None, Some("TIMED"))), at).is_empty());
    // Half time.
    let told = (Some(1), Some(0), Some("IN_PLAY"));
    assert!(events(live(1, "PAUSED", (Some(1), Some(0)), told), at).is_empty());
    // A score that went missing.
    assert!(events(live(1, "IN_PLAY", (None, Some(0)), told), at).is_empty());
    // Long after kickoff, unless the match is still on.
    let late = 16 * HOUR + 1;
    let finished = (Some(1), Some(0), Some("FINISHED"));
    assert!(events(live(1, "FINISHED", (Some(2), Some(0)), finished), late).is_empty());
    assert_eq!(events(live(1, "FINISHED", (Some(2), Some(0)), finished), late - 1).len(), 1);
    assert_eq!(events(live(1, "PAUSED", (Some(2), Some(0)), told), late).len(), 1);
}

#[test]
fn totals_must_add_up() {
    let max = Some(i32::MAX);
    assert!(!live(1, "IN_PLAY", (max, Some(1)), (None, None, None)).is_countable());
    assert!(!live(1, "IN_PLAY", (None, None), (max, max, None)).is_countable());
    assert!(live(1, "IN_PLAY", (max, Some(0)), (None, None, None)).is_countable());
}

#[test]
fn live_pushes_carry_the_top_five() {
    let board = vec![row(1, 9), row(2, 8), row(3, 7), row(4, 6), row(5, 5), row(6, 4)];
    let line = "1. P1 9 · 2. P2 8 · 3. P3 7 · 4. P4 6 · 5. P5 5";
    assert_eq!(standings_line(&board), line);
    assert_eq!(standings_line(&vec![row(1, -2)]), "1. P1 -2");
    assert_eq!(standings_line(&vec![]), "");
    let ev = |home| ScoreEvent {
        home_team: "France".into(),
        away_team: "Spain".into(),
        home,
        away: 0,
        is_final: false,
        is_disallowed: false,
    };
    let contacts = vec![contact(7, "fr", true), contact(8, "en", false), contact(9, "en", true)];
    let pushes = live_score_for_tenant(&vec![ev(1), ev(2)], &contacts, &board, "https://h");
    let to: Vec<u128> = pushes.iter().map(|p| p.user_id).collect();
    assert_eq!(to, vec![7, 9, 7, 9]);
    assert_eq!(pushes[0].body, format!("Classement: {line}"));
    assert_eq!(pushes[1].body, format!("Standings: {line}"));
    assert_eq!(pushes[3].title, "⚽ Goal! France 2-0 Spain");
    assert_eq!(pushes[3].url, "https://h/leaderboard");
    assert!(live_score_for_tenant(&vec![ev(1)], &vec![], &board, "https://h").is_empty());
}

fn result(id: i64, kickoff: i64) -> Match {
    let mut m = game(id, kickoff, "FINISHED");
    m.home_score = Some(2);
    m.away_score = Some(1);
    m
}

#[test]
fn results_wait_for_the_last_game() {
    let day = Day { num: 100 };
    let start = 100 * DAY + 13 * HOUR;
    let end = 101 * DAY + 6 * HOUR;
    let mut matches = vec![
        result(1, end - HOUR),
        result(2, start),
        result(3, start - 1),
        result(4, end),
        game(5, end - 2 * HOUR, "IN_PLAY"),
    ];
    let plan = |matches: &Vec<Match>, at, force| send_daily_digest(day, matches, t(at), force);
    assert!(matches!(plan(&matches, end, false), DigestPlan::Defer));
    assert!(matches!(plan(&matches, end + 4 * HOUR - 1, false), DigestPlan::Defer));
    match plan(&matches, end + 4 * HOUR, false) {
        DigestPlan::Send(results) => {
            let homes: Vec<&str> = results.iter().map(|r| r.home.as_str()).collect();
            assert_eq!(homes, vec!["H2", "H1"]);
            assert_eq!((results[0].home_score, results[0].away_score), (2, 1));
            assert_eq!(results[0].group.as_deref(), Some("Group A"));
        }
        other => panic!("{other:?}"),
    }
    assert!(matches!(plan(&matches, end, true), DigestPlan::Send(_)));
    // A game that has not kicked off does not hold the results up.
    matches[4].kickoff_at = t(end - 1);
    assert!(matches!(plan(&matches, end - 2, false), DigestPlan::Send(_)));
    assert!(matches!(plan(&vec![], end, false), DigestPlan::Skip));
}

#[test]
fn digests_go_to_all_on_the_board_once() {
    let entry = Sent { tenant_id: 1, day: Day { num: 100 } };
    let noon = 100 * DAY + 15 * HOUR;
    let matches = vec![result(1, noon), result(2, noon), result(3, noon - 5 * HOUR)];
    let mut book = vec![bet(7, 1, Some(3)), bet(7, 2, Some(1)), bet(7, 3, Some(6)), bet(8, 1, None)];
    book.push(Prediction { tenant_id: 2, ..bet(7, 1, Some(50)) });
    assert_eq!(day_points(&book, 1, 7, &matches, entry.day), 4);
    assert_eq!(day_points(&book, 1, 8, &matches, entry.day), 0);
    let mut board: Vec<LeaderboardRow> = (1..12).map(|i| row(i, 50 - i as i64)).collect();
    board[1].user_id = 7;
    let contacts = vec![contact(7, "fr", true), contact(11, "en", false)];
    let mut log = Vec::new();
    assert!(is_day_tellable(&book, 1, &board, &matches, entry.day));
    let best = Some(Highlight { user_id: 8, display_name: "Bob".into(), points: 9 });
    let mails =
        digest_for_tenant(entry, &log, &board, &contacts, &best, &book, &matches, false).unwrap();
    let named = mails[2].best.as_ref().unwrap();
    assert_eq!((named.name.as_str(), named.points), ("Bob", 9));
    let to: Vec<u128> = mails.iter().map(|m| m.user_id).collect();
    assert_eq!(to, vec![7, 7, 11]);
    assert_eq!((mails[0].rank, mails[0].my_points, mails[0].total_points), (2, 4, 48));
    assert_eq!((mails[0].loc, mails[0].email.as_str()), (Locale::Fr, "u7@x.org"));
    assert_eq!(mails[0].day_label, "11/04/1970");
    assert_eq!(mails[2].rank, 11);
    assert_eq!(mails[2].standings.len(), 10);
    assert!(mails[0].standings[1].is_me && !mails[0].standings[0].is_me);
    assert_eq!((mails[2].standings[9].rank, mails[2].standings[9].points), (10, 40));
    mark_sent(&mut log, entry);
    mark_sent(&mut log, entry);
    assert_eq!(log.len(), 1);
    assert!(digest_for_tenant(entry, &log, &board, &contacts, &None, &book, &matches, false).is_none());
    let again =
        digest_for_tenant(entry, &log, &board, &contacts, &None, &book, &matches, true).unwrap();
    assert!(again[0].best.is_none());
    assert!(digest_for_tenant(entry, &vec![], &vec![], &contacts, &None, &book, &matches, true).is_none());
}

#[test]
fn the_day_is_announced_with_everyones_bets() {
    let day = Day { num: 20_615 };
    let entry = Sent { tenant_id: 1, day };
    let evening = 20_615 * DAY + 19 * HOUR;
    let matches = vec![game(1, evening + HOUR, "TIMED"), game(2, evening, "TIMED"), game(3, 0, "TIMED")];
    let slate = send_today_matches(day, &matches);
    assert_eq!(slate, vec![1, 0]);
    let contacts = vec![contact(7, "fr", true), contact(8, "en", true)];
    let book = vec![bet(7, 1, None)];
    let mut log = Vec::new();
    let mails =
        today_matches_for_tenant(entry, &log, &contacts, &slate, &matches, &book, false).unwrap();
    assert_eq!(mails.len(), 2);
    assert_eq!((mails[0].email.as_str(), mails[0].loc), ("u7@x.org", Locale::Fr));
    assert_eq!(mails[0].day_label, Day { num: 20_615 }.label());
    assert_eq!(mails[0].matches[0].home, "H2");
    assert_eq!(mails[0].matches[0].kickoff_local, "21:00 CEST");
    assert_eq!(mails[0].matches[0].bet, None);
    assert_eq!(mails[0].matches[1].bet, Some(ScorePair { home: 2, away: 1 }));
    assert_eq!(mails[1].matches[1].bet, None);
    mark_sent(&mut log, entry);
    assert!(today_matches_for_tenant(entry, &log, &contacts, &slate, &matches, &book, false).is_none());
    assert!(today_matches_for_tenant(entry, &log, &contacts, &slate, &matches, &book, true).is_some());
    assert!(today_matches_for_tenant(entry, &vec![], &vec![], &slate, &matches, &book, true).is_none());
    assert!(send_today_matches(Day { num: 3 }, &matches).is_empty());
}
