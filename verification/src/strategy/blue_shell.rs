//! Target the current leader: act only when the flag holder is the
//! candidate with the highest absolute score.

use crate::order::str_eq;
use crate::sleep::rand_in_range;
use crate::stats::Stats;
use crate::strategy::{eligible, find_leader, is_leader, lemma_leader_unique, StrategyError};
use crate::Config;
use vstd::prelude::*;

verus! {

/// Act exactly when the holder leads the absolute score ranking.
pub open spec fn blue_shell_decision(
    ut: Map<Seq<char>, u64>,
    self_id: Seq<char>,
    holder: Seq<char>,
) -> bool {
    is_leader(ut, self_id, holder)
}

/// Target the first-placed participant.
pub struct BlueShellStrategy;

impl BlueShellStrategy {
    /// Act exactly when the holder is the top-scored candidate, the agent
    /// itself and the pseudo-account excluded; fails when nobody at all is
    /// a candidate.
    pub fn should_yoink(&self, config: &Config, stats: &Stats) -> (r: Result<
        bool,
        StrategyError,
    >)
        requires
            stats.wf(),
        ensures
            match r {
                Ok(b) => (exists|k: Seq<char>|
                    eligible(stats.user_times@, config.user_id@, k)) && b == blue_shell_decision(
                    stats.user_times@,
                    config.user_id@,
                    stats.flag.holder_id@,
                ),
                Err(e) => e == StrategyError::NoEligibleParticipants && !(exists|k: Seq<char>|
                    eligible(stats.user_times@, config.user_id@, k)),
            },
    {
        match find_leader(&stats.user_times, config.user_id.as_str()) {
            None => Err(StrategyError::NoEligibleParticipants),
            Some(i) => {
                let leader_key = stats.user_times.key_at(i);
                let b = str_eq(leader_key.as_str(), stats.flag.holder_id.as_str());
                proof {
                    let lk = stats.user_times.kvs()[i as int].0;
                    assert(eligible(stats.user_times@, config.user_id@, lk));
                    if !b && is_leader(
                        stats.user_times@,
                        config.user_id@,
                        stats.flag.holder_id@,
                    ) {
                        lemma_leader_unique(
                            stats.user_times@,
                            config.user_id@,
                            stats.flag.holder_id@,
                            lk,
                        );
                    }
                }
                Ok(b)
            },
        }
    }

    /// How long to watch before returning the decision: a short jitter when
    /// firing, a longer one while waiting.
    pub fn decision_delay_ms(&self, decision: bool) -> (r: u64)
        ensures
            decision ==> r <= 1000,
            !decision ==> 500 <= r <= 2000,
    {
        if decision {
            rand_in_range(0, 1000)
        } else {
            rand_in_range(500, 2000)
        }
    }
}

} // verus!
