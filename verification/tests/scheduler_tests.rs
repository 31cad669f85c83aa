//! Cycle planning, escalation, rate-limit classification and jitter bounds.

use yoinker::parse::parse_i64;
use yoinker::scores::ScoreMap;
use yoinker::sleep::{cooldown_with_short_jitter, long_jitter, short_jitter};
use yoinker::stats::{Stats, StatsFlag};
use yoinker::strategy::BlueShellStrategy;
use yoinker::yoinker::{
    classify_yoink_response, initial_impatient_fire, next_impatient_fire, plan_cycle, CycleAction,
    YoinkError, YoinkOutcome,
};
use yoinker::{Config, COOLDOWN_TIME_MS};

fn table(pairs: &[(&str, u64)]) -> ScoreMap {
    let mut m = ScoreMap::new();
    for (k, v) in pairs {
        m.insert(k.to_string(), *v);
    }
    m
}

fn snapshot(holder: &str, pairs: &[(&str, u64)]) -> Stats {
    Stats {
        flag: StatsFlag {
            holder_id: holder.to_string(),
            holder_name: holder.to_string(),
            holder_platform: "farcaster".to_string(),
        },
        user_times: table(pairs),
        users: Vec::new(),
    }
}

fn config(self_id: &str) -> Config {
    Config {
        user_id: self_id.to_string(),
        cast_hash: "0xhash".to_string(),
        nn_api_key: "SECRET-REDACTED".to_string(),
        nn_signer_uuid: "SECRET-REDACTED".to_string(),
    }
}

#[test]
fn no_snapshot_means_a_blind_attempt() {
    let cfg = config("me");
    assert_eq!(
        plan_cycle(None, &cfg, 1_000, 2_000),
        CycleAction::Yoink { escalated: false }
    );
}

#[test]
fn holding_the_flag_means_holding_still() {
    let cfg = config("me");
    let stats = snapshot("me", &[("me", 100), ("A", 50)]);
    assert_eq!(
        plan_cycle(Some(&stats), &cfg, 9_999_999, 2_000),
        CycleAction::Hold
    );
}

#[test]
fn before_the_deadline_the_strategy_decides() {
    let cfg = config("me");
    let stats = snapshot("A", &[("A", 150), ("B", 50)]);
    assert_eq!(
        plan_cycle(Some(&stats), &cfg, 1_999, 2_000),
        CycleAction::ConsultStrategy
    );
    // the deadline itself has not passed yet
    assert_eq!(
        plan_cycle(Some(&stats), &cfg, 2_000, 2_000),
        CycleAction::ConsultStrategy
    );
}

#[test]
fn escalation_bypasses_a_waiting_strategy() {
    let cfg = config("me");
    // the holder is not the leader, so the strategy would wait...
    let stats = snapshot("B", &[("A", 150), ("B", 50)]);
    assert_eq!(BlueShellStrategy.should_yoink(&cfg, &stats), Ok(false));
    // ...but the impatience deadline has passed: the scheduler attempts the
    // action anyway, and marks it as escalated
    assert_eq!(
        plan_cycle(Some(&stats), &cfg, 2_001, 2_000),
        CycleAction::Yoink { escalated: true }
    );
}

#[test]
fn any_other_image_means_the_flag_was_seized() {
    let r = classify_yoink_response("/api/images/flag", None, 1_700_000_000_000, 600_000);
    assert_eq!(r, Ok(YoinkOutcome::Yoinked { sleep_ms: 600_000 }));
}

#[test]
fn rate_limit_waits_until_the_reported_time() {
    // until = 1700000000000 + 600000; now is 300000 ms before that
    let date = "1700000000000".to_string();
    let r = classify_yoink_response(
        "/api/images/ratelimit",
        Some(&date),
        1_700_000_300_000,
        600_000,
    );
    assert_eq!(r, Ok(YoinkOutcome::RateLimited { sleep_ms: 300_000 }));
}

#[test]
fn rate_limit_without_a_date_falls_back_to_the_cooldown() {
    let r = classify_yoink_response("/api/images/ratelimit", None, 1_700_000_000_000, 600_000);
    assert_eq!(r, Ok(YoinkOutcome::RateLimited { sleep_ms: 600_000 }));
}

#[test]
fn rate_limit_with_a_bad_date_fails() {
    let date = "soon".to_string();
    let r = classify_yoink_response(
        "/api/images/ratelimit",
        Some(&date),
        1_700_000_000_000,
        600_000,
    );
    assert_eq!(r, Err(YoinkError::RateLimitDateParse));
}

#[test]
fn rate_limit_in_the_past_is_an_inconsistency() {
    // now is already past until = 1700000000000 + 600000: sleeping a
    // non-positive duration would be wrong, so the call fails
    let date = "1700000000000".to_string();
    let r = classify_yoink_response(
        "/api/images/ratelimit",
        Some(&date),
        1_700_000_600_000,
        600_000,
    );
    assert_eq!(
        r,
        Err(YoinkError::RateLimitInPast {
            until_ms: 1_700_000_600_000,
            now_ms: 1_700_000_600_000
        })
    );
}

#[test]
fn parses_decimal_timestamps() {
    assert_eq!(parse_i64("1700000000000"), Some(1_700_000_000_000));
    assert_eq!(parse_i64("0"), Some(0));
    assert_eq!(parse_i64("-42"), Some(-42));
    assert_eq!(parse_i64("+7"), Some(7));
    assert_eq!(parse_i64("9223372036854775807"), Some(i64::MAX));
    assert_eq!(parse_i64("-9223372036854775808"), Some(i64::MIN));
}

#[test]
fn rejects_what_is_not_a_decimal_number() {
    assert_eq!(parse_i64(""), None);
    assert_eq!(parse_i64("-"), None);
    assert_eq!(parse_i64("+"), None);
    assert_eq!(parse_i64("12a"), None);
    assert_eq!(parse_i64(" 12"), None);
    assert_eq!(parse_i64("9223372036854775808"), None);
    assert_eq!(parse_i64("-9223372036854775809"), None);
    assert_eq!(parse_i64("184467440737095516160"), None);
}

#[test]
fn jitters_stay_inside_their_presets() {
    for _ in 0..100 {
        assert!(short_jitter() <= COOLDOWN_TIME_MS / 10);
        assert!(long_jitter() <= COOLDOWN_TIME_MS / 2);
        let c = cooldown_with_short_jitter();
        assert!(COOLDOWN_TIME_MS <= c && c <= COOLDOWN_TIME_MS + COOLDOWN_TIME_MS / 10);
    }
}

#[test]
fn the_deadline_moves_by_cooldown_and_jitter() {
    let now: u64 = 5_000_000;
    assert_eq!(initial_impatient_fire(now), now + 2 * COOLDOWN_TIME_MS);
    for _ in 0..100 {
        let after_win = next_impatient_fire(now, true);
        assert!(now + COOLDOWN_TIME_MS <= after_win);
        assert!(after_win <= now + COOLDOWN_TIME_MS + COOLDOWN_TIME_MS / 2);
        let after_limit = next_impatient_fire(now, false);
        assert!(now + COOLDOWN_TIME_MS <= after_limit);
        assert!(after_limit <= now + COOLDOWN_TIME_MS + COOLDOWN_TIME_MS / 10);
    }
}
