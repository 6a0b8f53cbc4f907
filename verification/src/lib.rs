//! Verified core of a football prediction game: scoring, badges, match states,
//! jokers, invitations, and what each notification says and who gets it.
pub mod achievements;
pub mod bets;
pub mod clock;
pub mod dev;
pub mod football_data;
pub mod i18n;
pub mod import_bets;
pub mod invitations;
pub mod json;
pub mod leaderboard;
pub mod matchday;
pub mod models;
pub mod notifications;
pub mod ordering;
pub mod profile;
pub mod schedule;
pub mod scoring;
pub mod tenant;
pub mod text;
pub mod today;
pub mod tokens;
