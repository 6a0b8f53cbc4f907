use chrono::{DateTime, Duration, Utc};
use lunatech_betting::clock::Timestamp;
use lunatech_betting::i18n::Locale;
use lunatech_betting::models::{
    abbreviate, betting_open, betting_open_at, has_kicked_off, order_by_kickoff, stage_label_for,
    team_code, Match, STAGE_ORDER,
};

fn stamp(t: DateTime<Utc>) -> Timestamp {
    Timestamp { secs: t.timestamp(), nanos: t.timestamp_subsec_nanos() }
}

fn at(kickoff: DateTime<Utc>, status: &str, score: Option<(i32, i32)>) -> Match {
    Match {
        id: 1,
        competition: "World Cup".into(),
        stage: None,
        group_name: None,
        home_team: "A".into(),
        away_team: "B".into(),
        home_team_code: None,
        away_team_code: None,
        kickoff_at: stamp(kickoff),
        status: status.into(),
        home_score: score.map(|s| s.0),
        away_score: score.map(|s| s.1),
        pens_home: None,
        pens_away: None,
    }
}

#[test]
fn finished_match_is_concluded() {
    let m = at(Utc::now() - Duration::hours(2), "FINISHED", Some((1, 0)));
    assert!(m.has_final_result());
    assert!(m.is_concluded());
    assert!(!m.is_open_for_bets());
}

#[test]
fn penalty_score_renders_only_when_present() {
    let mut m = at(Utc::now() - Duration::hours(2), "FINISHED", Some((1, 1)));
    assert_eq!(m.penalty_score(), None);
    m.pens_home = Some(4);
    m.pens_away = Some(2);
    assert_eq!(m.penalty_score().as_deref(), Some("4-2"));
    // A half-populated shootout (shouldn't happen) renders nothing.
    m.pens_away = None;
    assert_eq!(m.penalty_score(), None);
}

#[test]
fn live_match_is_not_concluded() {
    // Kicked off an hour ago, still in play: genuinely live, not concluded.
    let m = at(Utc::now() - Duration::hours(1), "IN_PLAY", Some((0, 0)));
    assert!(!m.has_final_result());
    assert!(!m.is_long_over());
    assert!(!m.is_concluded());
}

#[test]
fn stuck_match_long_after_kickoff_is_concluded() {
    // The feed never moved it off IN_PLAY, but it kicked off long ago: it can no
    // longer be live, so it must not render as "in progress".
    let m = at(Utc::now() - Duration::hours(10), "IN_PLAY", Some((2, 1)));
    assert!(!m.has_final_result());
    assert!(m.is_long_over());
    assert!(m.is_concluded());
}

#[test]
fn awarded_walkover_long_after_kickoff_is_concluded() {
    let m = at(Utc::now() - Duration::hours(10), "AWARDED", Some((3, 0)));
    assert!(!m.has_final_result());
    assert!(m.is_concluded());
}

#[test]
fn future_match_is_open_and_not_concluded() {
    let m = at(Utc::now() + Duration::hours(3), "TIMED", None);
    assert!(m.is_open_for_bets());
    assert!(!m.is_long_over());
    assert!(!m.is_concluded());
}

#[test]
fn future_scheduled_match_is_open() {
    let m = at(Utc::now() + Duration::hours(3), "SCHEDULED", None);
    assert!(m.is_open_for_bets());
}

#[test]
fn future_match_with_unexpected_status_is_still_open() {
    // The feed reports an upcoming match with something other than
    // SCHEDULED/TIMED. Betting must stay open: kickoff is still ahead.
    for status in ["POSTPONED", "CANCELLED", "SOMETHING_NEW", ""] {
        let m = at(Utc::now() + Duration::hours(3), status, None);
        assert!(m.is_open_for_bets(), "expected open for status {status:?}");
        assert!(!m.is_concluded(), "expected not concluded for status {status:?}");
    }
}

#[test]
fn started_match_is_not_open_even_before_listed_kickoff() {
    // Contradictory feed data (status says live, kickoff still ahead): keep
    // betting closed so nobody bets after play has started.
    let m = at(Utc::now() + Duration::hours(1), "IN_PLAY", Some((0, 0)));
    assert!(!m.is_open_for_bets());
}

#[test]
fn past_kickoff_is_never_open() {
    let m = at(Utc::now() - Duration::minutes(5), "TIMED", None);
    assert!(!m.is_open_for_bets());
}

#[test]
fn team_code_prefers_the_feed_code() {
    assert_eq!(team_code(Some("RSA"), "South Africa"), "RSA");
    assert_eq!(team_code(Some("can"), "Canada"), "CAN");
}

#[test]
fn team_code_falls_back_to_an_abbreviation() {
    // Missing or blank feed code: derive something rather than show "---".
    assert_eq!(team_code(None, "Canada"), "CAN");
    assert_eq!(team_code(Some(""), "Canada"), "CAN");
    assert_eq!(team_code(Some("  "), "South Africa"), "SA");
}

#[test]
fn abbreviate_handles_words_and_connectors() {
    assert_eq!(abbreviate("Canada"), "CAN");
    assert_eq!(abbreviate("South Africa"), "SA");
    assert_eq!(abbreviate("Bosnia and Herzegovina"), "BH");
    assert_eq!(abbreviate("Trinidad and Tobago"), "TT");
    assert_eq!(abbreviate("?"), "?");
    assert_eq!(abbreviate(""), "?");
}

#[test]
fn match_code_helpers_use_team_names_when_codes_missing() {
    let mut m = at(Utc::now() + Duration::hours(2), "TIMED", None);
    m.home_team = "Canada".into();
    m.away_team = "South Africa".into();
    m.home_team_code = None;
    m.away_team_code = None;
    assert_eq!(m.home_code(), "CAN");
    assert_eq!(m.away_code(), "SA");
}

#[test]
fn abbreviations_stop_at_three_letters() {
    assert_eq!(abbreviate("United States of America Virgin Islands"), "USA");
    assert_eq!(abbreviate("Ivory Coast"), "IC");
    assert_eq!(abbreviate("Korea"), "KOR");
    assert_eq!(abbreviate("The Netherlands"), "NET");
    assert_eq!(team_code(Some(" fra "), "France"), "FRA");
}

#[test]
fn started_statuses_are_the_seven_of_the_feed() {
    for status in [
        "IN_PLAY",
        "PAUSED",
        "EXTRA_TIME",
        "PENALTY_SHOOTOUT",
        "FINISHED",
        "AWARDED",
        "SUSPENDED",
    ] {
        assert!(has_kicked_off(status));
        assert!(!betting_open(stamp(Utc::now() + Duration::hours(3)), status));
    }
    for status in ["SCHEDULED", "TIMED", "POSTPONED", "in_play", ""] {
        assert!(!has_kicked_off(status));
        assert!(betting_open(stamp(Utc::now() + Duration::hours(3)), status));
    }
}

#[test]
fn bets_close_at_the_instant_of_kickoff() {
    let kickoff = Timestamp { secs: 1_000, nanos: 5 };
    assert!(betting_open_at(kickoff, "TIMED", Timestamp { secs: 1_000, nanos: 4 }));
    assert!(!betting_open_at(kickoff, "TIMED", kickoff));
    assert!(!betting_open_at(kickoff, "TIMED", Timestamp { secs: 1_001, nanos: 0 }));
}

#[test]
fn a_match_is_long_over_after_four_hours() {
    let mut m = at(Utc::now(), "IN_PLAY", None);
    m.kickoff_at = Timestamp { secs: 0, nanos: 0 };
    assert!(!m.is_long_over_at(Timestamp { secs: 4 * 3_600, nanos: 0 }));
    assert!(m.is_long_over_at(Timestamp { secs: 4 * 3_600, nanos: 1 }));
    assert!(m.is_concluded_at(Timestamp { secs: 4 * 3_600, nanos: 1 }));
}

#[test]
fn a_leap_second_counts() {
    // Kickoff in a leap second; four hours and a tenth of a second later.
    let day: DateTime<Utc> = "2016-12-31T15:00:59Z".parse().unwrap();
    let leap = DateTime::from_timestamp(day.timestamp(), 1_500_000_000).unwrap();
    let later = DateTime::from_timestamp(day.timestamp() + 4 * 3_600, 600_000_000).unwrap();
    assert!(later - leap > Duration::hours(4));
    let mut m = at(leap, "IN_PLAY", None);
    assert!(m.is_long_over_at(stamp(later)));
    assert!(m.is_concluded_at(stamp(later)));
    for (kickoff, now) in [
        (leap, later - Duration::milliseconds(100)),
        (leap, later - Duration::milliseconds(101)),
        (leap, leap + Duration::days(1)),
        (leap, DateTime::from_timestamp(day.timestamp() - 20, 0).unwrap()),
        (later, leap),
        (day - Duration::hours(4), leap),
        (day - Duration::hours(3), leap),
    ] {
        m.kickoff_at = stamp(kickoff);
        assert_eq!(m.is_long_over_at(stamp(now)), now - kickoff > Duration::hours(4));
    }
}

#[test]
fn connectors_and_white_space_keep_the_code() {
    assert_eq!(abbreviate("The Gambia"), "GAM");
    assert_eq!(abbreviate("Gambia"), "GAM");
    for w in ["and", "OF", "tHe", "&", "-", ""] {
        assert_eq!(abbreviate(&format!("South {w} Africa")), "SA");
        assert_eq!(abbreviate(&format!("{w} Canada\u{a0} {w}")), "CAN");
    }
    // In ASCII only letters and digits can be read; elsewhere letters can too.
    for n in 0u8..128 {
        let c = n as char;
        let read = abbreviate(&format!("x {c} y")) == format!("X{c}Y").to_uppercase();
        assert_eq!(read, c.is_ascii_alphanumeric(), "{n}");
    }
    assert_eq!(abbreviate("x é y"), "XÉY");
    assert_eq!(abbreviate("x – y"), "XY");
    assert_eq!(abbreviate("South\u{3000}\tAfrica"), "SA");
    // Some letters have more than one capital.
    assert_eq!(abbreviate("ßa"), "SSA");
    assert!(!team_code(Some("\u{2003}"), "- &").is_empty());
}

#[test]
fn a_result_needs_both_scores() {
    let mut m = at(Utc::now(), "FINISHED", None);
    assert!(!m.has_final_result());
    m.home_score = Some(1);
    assert!(!m.has_final_result());
    m.away_score = Some(0);
    assert!(m.has_final_result());
}

#[test]
fn stages_have_names_in_both_languages() {
    assert_eq!(stage_label_for("FINAL", Locale::Fr), "Finale");
    assert_eq!(stage_label_for("FINAL", Locale::En), "Final");
    assert_eq!(stage_label_for("PLAYOFFS", Locale::En), "PLAYOFFS");
    assert_eq!(STAGE_ORDER[0], "GROUP_STAGE");
    assert_eq!(STAGE_ORDER[6], "FINAL");
    let mut m = at(Utc::now(), "TIMED", None);
    assert_eq!(m.stage_label(Locale::Fr), None);
    m.stage = Some("FINAL".into());
    assert_eq!(m.stage_label(Locale::Fr), Some("Finale"));
}

#[test]
fn matches_are_ordered_by_kickoff() {
    let day = Utc::now();
    let late = at(day + Duration::hours(3), "TIMED", None);
    let early = at(day + Duration::hours(1), "TIMED", None);
    let early_too = at(day + Duration::hours(1), "TIMED", None);
    assert_eq!(order_by_kickoff(&vec![late, early, early_too]), vec![1, 2, 0]);
    assert_eq!(order_by_kickoff(&vec![]), Vec::<usize>::new());
}
