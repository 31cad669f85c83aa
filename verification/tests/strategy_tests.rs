//! The three strategies on concrete fixtures.

use yoinker::scores::ScoreMap;
use yoinker::stats::{Stats, StatsFlag};
use yoinker::strategy::{
    BlueShellStrategy, MostlyNiceStrategy, RedShellStrategy, StrategyError, YoinkStrategy,
};
use yoinker::{Config, State};

fn table(pairs: &[(&str, u64)]) -> ScoreMap {
    let mut m = ScoreMap::new();
    for (k, v) in pairs {
        m.insert(k.to_string(), *v);
    }
    m
}

fn snapshot(holder: &str, pairs: &[(&str, u64)]) -> Stats {
    Stats {
        flag: StatsFlag {
            holder_id: holder.to_string(),
            holder_name: holder.to_string(),
            holder_platform: "farcaster".to_string(),
        },
        user_times: table(pairs),
        users: Vec::new(),
    }
}

fn config(self_id: &str) -> Config {
    Config {
        user_id: self_id.to_string(),
        cast_hash: "0xhash".to_string(),
        nn_api_key: "SECRET-REDACTED".to_string(),
        nn_signer_uuid: "SECRET-REDACTED".to_string(),
    }
}

#[test]
fn target_leader_fires_on_the_leader() {
    let strategy = BlueShellStrategy;
    let cfg = config("me");
    let stats = snapshot("A", &[("A", 150), ("B", 50)]);
    assert_eq!(strategy.should_yoink(&cfg, &stats), Ok(true));
}

#[test]
fn target_leader_waits_for_others() {
    let strategy = BlueShellStrategy;
    let cfg = config("me");
    let stats = snapshot("B", &[("A", 150), ("B", 50)]);
    assert_eq!(strategy.should_yoink(&cfg, &stats), Ok(false));
}

#[test]
fn target_leader_excludes_self_and_pseudo() {
    let strategy = BlueShellStrategy;
    let cfg = config("me");
    // the agent itself and the platform account outscore everyone, yet the
    // best remaining candidate is still the target
    let stats = snapshot(
        "A",
        &[("me", 9000), ("platform:farcaster", 8000), ("A", 150), ("B", 50)],
    );
    assert_eq!(strategy.should_yoink(&cfg, &stats), Ok(true));
}

#[test]
fn target_leader_breaks_ties_by_identifier() {
    let strategy = BlueShellStrategy;
    let cfg = config("me");
    let stats = snapshot("aa", &[("aa", 100), ("ab", 100)]);
    assert_eq!(strategy.should_yoink(&cfg, &stats), Ok(true));
    let stats = snapshot("ab", &[("aa", 100), ("ab", 100)]);
    assert_eq!(strategy.should_yoink(&cfg, &stats), Ok(false));
}

#[test]
fn target_leader_needs_a_candidate() {
    let strategy = BlueShellStrategy;
    let cfg = config("me");
    let stats = snapshot("me", &[("me", 100), ("platform:farcaster", 50)]);
    assert_eq!(
        strategy.should_yoink(&cfg, &stats),
        Err(StrategyError::NoEligibleParticipants)
    );
}

#[test]
fn momentum_excluding_self_leaves_no_target() {
    // pushing S1 then S2 yields the delta {A: 50}; A is the agent itself,
    // so momentum has nobody to target and the strategy waits
    let mut state: State<12> = State::new();
    assert!(state.push_stats(snapshot("B", &[("A", 100), ("B", 50)])));
    assert!(state.push_stats(snapshot("B", &[("A", 150), ("B", 50)])));
    assert_eq!(state.diff().get("A"), Some(50));
    assert_eq!(state.diff().len(), 1);

    let strategy = RedShellStrategy::default();
    let cfg = config("A");
    let stats = state.back().unwrap();
    assert_eq!(
        strategy.should_yoink(&cfg, stats, state.diff()),
        Ok(false)
    );
}

#[test]
fn momentum_fires_on_the_top_mover() {
    let strategy = RedShellStrategy::default();
    let cfg = config("me");
    let stats = snapshot("A", &[("A", 200), ("B", 50)]);
    let diff = table(&[("A", 100), ("B", 10)]);
    // the delta is real (A grew by 100, not 200), so the single top mover
    // is the target
    assert_eq!(strategy.should_yoink(&cfg, &stats, &diff), Ok(true));
    let stats = snapshot("B", &[("A", 200), ("B", 50)]);
    assert_eq!(strategy.should_yoink(&cfg, &stats, &diff), Ok(false));
}

#[test]
fn momentum_falls_back_to_scores_while_degenerate() {
    let strategy = RedShellStrategy::default();
    let cfg = config("me");
    // right after the first snapshot the delta equals the scores: rank by
    // absolute score instead, targeting the top three
    let stats = snapshot("C", &[("A", 100), ("B", 50), ("C", 10), ("D", 5)]);
    let diff = table(&[("A", 100), ("B", 50), ("C", 10), ("D", 5)]);
    assert_eq!(strategy.should_yoink(&cfg, &stats, &diff), Ok(true));
    let stats = snapshot("D", &[("A", 100), ("B", 50), ("C", 10), ("D", 5)]);
    assert_eq!(strategy.should_yoink(&cfg, &stats, &diff), Ok(false));
}

#[test]
fn momentum_needs_a_delta() {
    let strategy = RedShellStrategy::default();
    let cfg = config("me");
    let stats = snapshot("A", &[("A", 100)]);
    assert_eq!(
        strategy.should_yoink(&cfg, &stats, &ScoreMap::new()),
        Err(StrategyError::NoEligibleParticipants)
    );
}

#[test]
fn considerate_spares_a_weak_holder_on_a_nice_roll() {
    let strategy = MostlyNiceStrategy::default();
    let cfg = config("me");
    let stats = snapshot("A", &[("A", 100), ("me", 500)]);
    // the holder is under the threshold and under the agent's own score
    assert!(!strategy.should_yoink(&cfg, &stats, 0));
    assert!(!strategy.should_yoink(&cfg, &stats, 75));
    // a roll past the nice chance is a jerk roll
    assert!(strategy.should_yoink(&cfg, &stats, 76));
}

#[test]
fn considerate_acts_on_strong_holders() {
    let strategy = MostlyNiceStrategy::new(50, 75);
    let cfg = config("me");
    // holder at or above the threshold: act on any roll
    let stats = snapshot("A", &[("A", 100), ("me", 500)]);
    assert!(strategy.should_yoink(&cfg, &stats, 0));
    // holder under the threshold but not under the agent's own score
    let strategy = MostlyNiceStrategy::new(1000, 75);
    let stats = snapshot("A", &[("A", 100), ("me", 90)]);
    assert!(strategy.should_yoink(&cfg, &stats, 0));
}

#[test]
fn one_entry_point_dispatches_all_variants() {
    let cfg = config("me");
    let stats = snapshot("A", &[("A", 150), ("B", 50)]);
    let diff = table(&[("A", 100)]);
    let blue = YoinkStrategy::BlueShell(BlueShellStrategy);
    let red = YoinkStrategy::RedShell(RedShellStrategy::default());
    let nice = YoinkStrategy::MostlyNice(MostlyNiceStrategy::default());
    assert_eq!(blue.should_yoink(&cfg, &stats, &diff, 0), Ok(true));
    assert_eq!(red.should_yoink(&cfg, &stats, &diff, 0), Ok(true));
    assert_eq!(nice.should_yoink(&cfg, &stats, &diff, 99), Ok(true));
}

#[test]
fn strategy_delays_stay_in_their_ranges() {
    let blue = BlueShellStrategy;
    let red = RedShellStrategy::default();
    let nice = MostlyNiceStrategy::default();
    for _ in 0..50 {
        assert!(blue.decision_delay_ms(true) <= 1000);
        let w = blue.decision_delay_ms(false);
        assert!((500..=2000).contains(&w));
        let f = red.decision_delay_ms(true);
        assert!((1000..=3000).contains(&f));
        assert_eq!(red.decision_delay_ms(false), 1000);
        assert!(nice.decision_delay_ms(true) <= 3000);
        let s = nice.decision_delay_ms(false);
        assert!((1000..=9999).contains(&s));
    }
}
