use lunatech_betting::clock::Timestamp;
use lunatech_betting::football_data::{
    competitions, feed_url, merge, sum_parts, sync_one_competition, ApiCompetition, ApiMatch,
    ApiScore, ApiScorePart, ApiTeam, StoredMatch,
};
use lunatech_betting::models::{Match, Prediction};
use lunatech_betting::scoring::{
    compute_points, is_rescorable, match_outcome, points_computable, recompute_all,
};
use serde_json::Value;

fn number(v: &Value) -> Option<i32> {
    v.as_i64().map(|n| n as i32)
}

fn part(v: &Value) -> Option<ApiScorePart> {
    if v.is_null() {
        return None;
    }
    Some(ApiScorePart { home: number(&v["home"]), away: number(&v["away"]) })
}

fn decode(json: &str) -> ApiScore {
    let v: Value = serde_json::from_str(json).unwrap();
    ApiScore {
        duration: v["duration"].as_str().map(|s| s.to_string()),
        full_time: part(&v["fullTime"]).unwrap(),
        regular_time: part(&v["regularTime"]),
        extra_time: part(&v["extraTime"]),
        penalties: part(&v["penalties"]),
    }
}

fn settled(json: &str) -> (Option<i32>, Option<i32>) {
    decode(json).settled_score()
}

fn score_bet(json: &str, bet_home: i32, bet_away: i32) -> i32 {
    let (actual_home, actual_away) = settled(json);
    compute_points(bet_home, bet_away, actual_home.unwrap(), actual_away.unwrap(), None)
}

// England 1-1 Switzerland a.e.t., won 5-3 on pens. fullTime reads 6-4.
#[test]
fn shootout_after_a_draw_settles_at_the_120_minute_draw() {
    let json = r#"{
        "winner": "HOME_TEAM", "duration": "PENALTY_SHOOTOUT",
        "fullTime": { "home": 6, "away": 4 },
        "regularTime": { "home": 1, "away": 1 },
        "extraTime": { "home": 0, "away": 0 },
        "penalties": { "home": 5, "away": 3 }
    }"#;
    assert_eq!(settled(json), (Some(1), Some(1)));
}

#[test]
fn shootout_after_a_draw_scores_the_120_minute_draw() {
    let json = r#"{
        "winner": "HOME_TEAM", "duration": "PENALTY_SHOOTOUT",
        "fullTime": { "home": 6, "away": 4 },
        "regularTime": { "home": 1, "away": 1 },
        "extraTime": { "home": 0, "away": 0 },
        "penalties": { "home": 5, "away": 3 }
    }"#;
    assert_eq!(score_bet(json, 1, 1), 3);
    assert_eq!(score_bet(json, 2, 2), 1);
    assert_eq!(score_bet(json, 2, 1), 0);
}

// Portugal 0-0 Slovenia a.e.t., won 3-0 on pens. fullTime reads 3-0, which
// would wrongly grade a correct draw guess as a home win.
#[test]
fn goalless_shootout_settles_at_nil_nil_not_the_penalty_count() {
    let json = r#"{
        "winner": "HOME_TEAM", "duration": "PENALTY_SHOOTOUT",
        "fullTime": { "home": 3, "away": 0 },
        "regularTime": { "home": 0, "away": 0 },
        "extraTime": { "home": 0, "away": 0 },
        "penalties": { "home": 3, "away": 0 }
    }"#;
    assert_eq!(settled(json), (Some(0), Some(0)));
}

#[test]
fn goalless_shootout_scores_the_nil_nil_not_the_penalty_count() {
    let json = r#"{
        "winner": "HOME_TEAM", "duration": "PENALTY_SHOOTOUT",
        "fullTime": { "home": 3, "away": 0 },
        "regularTime": { "home": 0, "away": 0 },
        "extraTime": { "home": 0, "away": 0 },
        "penalties": { "home": 3, "away": 0 }
    }"#;
    assert_eq!(score_bet(json, 0, 0), 3);
    assert_eq!(score_bet(json, 1, 0), 0);
    assert_eq!(score_bet(json, 3, 0), 0);
}

#[test]
fn extra_time_winner_scores_the_full_time_score() {
    let json = r#"{
        "winner": "HOME_TEAM", "duration": "EXTRA_TIME",
        "fullTime": { "home": 2, "away": 1 },
        "regularTime": { "home": 1, "away": 1 },
        "extraTime": { "home": 1, "away": 0 }
    }"#;
    assert_eq!(score_bet(json, 2, 1), 3);
}

#[test]
fn regular_match_scores_the_full_time_score() {
    let json = r#"{
        "winner": "AWAY_TEAM", "duration": "REGULAR",
        "fullTime": { "home": 0, "away": 2 }
    }"#;
    assert_eq!(score_bet(json, 0, 2), 3);
    assert_eq!(score_bet(json, 0, 3), 1);
}

// A match decided in extra time (no shootout) already reports the 120' result in
// fullTime, so it is used as-is.
#[test]
fn extra_time_winner_uses_full_time() {
    let json = r#"{
        "winner": "HOME_TEAM", "duration": "EXTRA_TIME",
        "fullTime": { "home": 2, "away": 1 },
        "regularTime": { "home": 1, "away": 1 },
        "extraTime": { "home": 1, "away": 0 }
    }"#;
    assert_eq!(settled(json), (Some(2), Some(1)));
}

// A normal 90' match has no regularTime/extraTime breakdown; fullTime wins.
#[test]
fn regular_match_uses_full_time() {
    let json = r#"{
        "winner": "AWAY_TEAM", "duration": "REGULAR",
        "fullTime": { "home": 0, "away": 2 }
    }"#;
    assert_eq!(settled(json), (Some(0), Some(2)));
}

#[test]
fn exact_score_wins_three() {
    assert_eq!(compute_points(2, 1, 2, 1, None), 3);
}

#[test]
fn good_winner_one_point() {
    assert_eq!(compute_points(3, 0, 2, 1, None), 1);
}

#[test]
fn good_draw_one_point() {
    assert_eq!(compute_points(1, 1, 2, 2, None), 1);
}

#[test]
fn wrong_zero() {
    assert_eq!(compute_points(0, 2, 2, 1, None), 0);
}

#[test]
fn exact_after_extra_time_still_wins_three() {
    // 1-1 after extra time, won on penalties: the exact-score point targets the
    // on-pitch score, so a 1-1 prediction still scores three.
    assert_eq!(compute_points(1, 1, 1, 1, Some((4, 2))), 3);
}

#[test]
fn picking_the_shootout_winner_scores_the_outcome() {
    // 1-1, home advances on penalties. A home-win prediction takes the outcome
    // point; an away-win prediction gets nothing.
    assert_eq!(compute_points(2, 1, 1, 1, Some((4, 2))), 1);
    assert_eq!(compute_points(0, 1, 1, 1, Some((4, 2))), 0);
    // Away advances on penalties: now the away-win prediction scores.
    assert_eq!(compute_points(0, 1, 1, 1, Some((2, 4))), 1);
}

#[test]
fn a_draw_prediction_loses_a_shootout_game() {
    // The match had a winner, so a non-exact draw prediction scores zero even
    // though the pitch score was level.
    assert_eq!(compute_points(2, 2, 1, 1, Some((4, 2))), 0);
}

#[test]
fn outcomes_are_signs() {
    assert_eq!(match_outcome(2, 1, None), 1);
    assert_eq!(match_outcome(1, 1, None), 0);
    assert_eq!(match_outcome(0, 4, None), -1);
    assert_eq!(match_outcome(1, 1, Some((2, 4))), -1);
    assert_eq!(match_outcome(2, 1, Some((2, 4))), 1);
}

#[test]
fn scores_too_far_apart_are_not_computable() {
    assert!(points_computable(2, 1, 1, 1, Some((4, 2))));
    assert!(!points_computable(i32::MAX, -1, 1, 0, None));
    assert!(!points_computable(1, 0, i32::MIN, 1, None));
}

fn decided(id: i64, home: i32, away: i32) -> Match {
    Match {
        id,
        competition: "WC".into(),
        stage: None,
        group_name: None,
        home_team: "A".into(),
        away_team: "B".into(),
        home_team_code: None,
        away_team_code: None,
        kickoff_at: Timestamp { secs: 0, nanos: 0 },
        status: "FINISHED".into(),
        home_score: Some(home),
        away_score: Some(away),
        pens_home: None,
        pens_away: None,
    }
}

fn bet(match_id: i64, home: i32, away: i32, multiplier: i32) -> Prediction {
    Prediction {
        tenant_id: 1,
        user_id: 7,
        match_id,
        home_score: home,
        away_score: away,
        points: None,
        multiplier,
    }
}

#[test]
fn jokers_double_stored_points_and_scoring_twice_changes_nothing() {
    let mut matches = vec![decided(1, 2, 1), decided(2, 1, 1), decided(3, 0, 0)];
    matches[1].pens_home = Some(4);
    matches[1].pens_away = Some(2);
    matches[2].status = "IN_PLAY".into();
    let mut bets = vec![
        bet(1, 2, 1, 2),
        bet(1, 3, 0, 1),
        bet(2, 1, 0, 2),
        bet(3, 0, 0, 1),
        bet(9, 0, 0, 1),
    ];
    for p in &bets {
        assert!(is_rescorable(*p, &matches));
    }
    recompute_all(&mut bets, &matches);
    let points: Vec<Option<i32>> = bets.iter().map(|b| b.points).collect();
    assert_eq!(points, vec![Some(6), Some(1), Some(2), None, None]);
    let once = bets.clone();
    recompute_all(&mut bets, &matches);
    assert_eq!(bets, once);
    assert!(!is_rescorable(bet(1, 2, 1, i32::MAX), &matches));
}

#[test]
fn every_bet_that_can_be_placed_can_be_scored() {
    let mut matches = vec![decided(1, i32::MAX, 0)];
    matches[0].pens_home = Some(0);
    matches[0].pens_away = Some(i32::MAX);
    for (home, away) in [(0, 30), (30, 0), (0, 0), (30, 30)] {
        for multiplier in [1, 2] {
            let p = bet(1, home, away, multiplier);
            assert!(is_rescorable(p, &matches));
            let mut book = vec![p];
            recompute_all(&mut book, &matches);
            let base = compute_points(home, away, i32::MAX, 0, Some((0, i32::MAX)));
            assert_eq!(book, vec![Prediction { points: Some(multiplier * base), ..p }]);
        }
    }
}

#[test]
fn a_correction_rescores() {
    let mut bets = vec![bet(1, 2, 1, 1)];
    recompute_all(&mut bets, &vec![decided(1, 2, 1)]);
    assert_eq!(bets[0].points, Some(3));
    recompute_all(&mut bets, &vec![decided(1, 1, 1)]);
    assert_eq!(bets[0].points, Some(0));
}

#[test]
fn parts_add_up_when_one_is_missing() {
    assert_eq!(sum_parts(None, None), None);
    assert_eq!(sum_parts(Some(1), None), Some(1));
    assert_eq!(sum_parts(None, Some(2)), Some(2));
    assert_eq!(sum_parts(Some(1), Some(2)), Some(3));
}

fn report(id: i64, score: Option<ApiScore>) -> ApiMatch {
    ApiMatch {
        id,
        utc_date: Timestamp { secs: 500, nanos: 0 },
        status: "FINISHED".into(),
        stage: Some("FINAL".into()),
        group: None,
        competition: ApiCompetition { code: Some("WC".into()), name: None },
        home_team: ApiTeam { name: Some("France".into()), tla: Some("FRA".into()) },
        away_team: ApiTeam { name: None, tla: None },
        score,
    }
}

#[test]
fn reports_become_matches() {
    let json = r#"{
        "duration": "PENALTY_SHOOTOUT",
        "fullTime": { "home": 6, "away": 4 },
        "regularTime": { "home": 1, "away": 1 },
        "extraTime": { "home": 1, "away": 1 },
        "penalties": { "home": 5, "away": 3 }
    }"#;
    let r = report(4, Some(decode(json)));
    assert!(r.is_storable());
    let m = r.to_match("XX");
    assert_eq!(m.id, 4);
    assert_eq!(m.competition, "WC");
    assert_eq!(m.stage.as_deref(), Some("FINAL"));
    assert_eq!(m.home_team, "France");
    assert_eq!(m.away_team, "?");
    assert_eq!(m.home_team_code.as_deref(), Some("FRA"));
    assert_eq!((m.home_score, m.away_score), (Some(2), Some(2)));
    assert_eq!((m.pens_home, m.pens_away), (Some(5), Some(3)));
    let mut bare = report(5, None);
    bare.competition = ApiCompetition { code: None, name: None };
    let m = bare.to_match("XX");
    assert_eq!(m.competition, "XX");
    assert_eq!((m.home_score, m.away_score, m.pens_home), (None, None, None));
}

#[test]
fn scores_that_do_not_add_up_are_not_storable() {
    let mut score = decode(r#"{ "duration": "PENALTY_SHOOTOUT", "fullTime": {} }"#);
    assert_eq!(score.settled_score(), (None, None));
    score.regular_time = Some(ApiScorePart { home: Some(i32::MAX), away: Some(0) });
    score.extra_time = Some(ApiScorePart { home: Some(1), away: Some(0) });
    assert!(!score.is_settleable());
    assert!(!report(1, Some(score)).is_storable());
}

#[test]
fn locked_matches_keep_their_outcome() {
    let mut by_hand = decided(4, 1, 0);
    by_hand.home_team = "Old name".into();
    let mut stored = vec![
        StoredMatch { m: by_hand, score_locked: true },
        StoredMatch { m: decided(5, 9, 9), score_locked: false },
        StoredMatch { m: decided(8, 3, 2), score_locked: false },
    ];
    let full = r#"{ "duration": "REGULAR", "fullTime": { "home": 2, "away": 0 } }"#;
    let reports = vec![
        report(4, Some(decode(full))),
        report(5, Some(decode(full))),
        report(6, Some(decode(full))),
    ];
    assert_eq!(sync_one_competition(&mut stored, &reports, "WC"), 3);
    assert_eq!(stored.len(), 4);
    assert_eq!(stored[0].m.home_team, "France");
    assert_eq!((stored[0].m.home_score, stored[0].m.away_score), (Some(1), Some(0)));
    assert!(stored[0].score_locked);
    assert_eq!((stored[1].m.home_score, stored[1].m.away_score), (Some(2), Some(0)));
    assert_eq!((stored[2].m.home_score, stored[2].m.away_score), (Some(3), Some(2)));
    assert_eq!(stored[3].m.id, 6);
    assert!(!stored[3].score_locked);
    assert_eq!(sync_one_competition(&mut stored, &reports, "WC"), 3);
    assert_eq!(stored.len(), 4);
    let kept = merge(decided(1, 1, 0), true, decided(1, 0, 2));
    assert_eq!((kept.home_score, kept.away_score), (Some(1), Some(0)));
}

#[test]
fn each_competition_is_asked_for_once() {
    let followed = vec!["WC".to_string(), "EC".to_string(), "WC".to_string()];
    assert_eq!(competitions(&followed), vec!["WC".to_string(), "EC".to_string()]);
    assert_eq!(
        feed_url("WC"),
        "https://api.football-data.org/v4/competitions/WC/matches"
    );
}
