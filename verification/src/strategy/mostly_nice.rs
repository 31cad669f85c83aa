//! Mostly leave weak holders alone: when the holder's score is both under a
//! "freeloader" threshold and under the agent's own score, skip the attempt
//! with a configured probability; otherwise act.

use crate::sleep::rand_in_range;
use crate::stats::Stats;
use crate::Config;
use vstd::prelude::*;

verus! {

/// The score of `k` in `m`, participants never observed counting as zero.
pub open spec fn score_or_zero(m: Map<Seq<char>, u64>, k: Seq<char>) -> u64 {
    if m.contains_key(k) {
        m[k]
    } else {
        0
    }
}

/// Wait only when the holder scores under the threshold, under the agent
/// itself, and the random roll lands within the nice chance.
pub open spec fn mostly_nice_decision(
    ut: Map<Seq<char>, u64>,
    self_id: Seq<char>,
    holder: Seq<char>,
    threshold: u64,
    chance: u16,
    roll: u16,
) -> bool {
    !(score_or_zero(ut, holder) < threshold && score_or_zero(ut, holder) < score_or_zero(
        ut,
        self_id,
    ) && roll <= chance)
}

/// Usually act, but spare clearly weaker holders most of the time.
pub struct MostlyNiceStrategy {
    /// Holders scoring under this are considered too weak to target.
    pub jerk_threshold: u64,
    /// Chance, in percent points of a roll drawn from 0 to 99, of sparing
    /// such a holder.
    pub nice_chance: u16,
}

impl Default for MostlyNiceStrategy {
    /// The configuration the agent historically ran with: a six-hour score
    /// threshold and a three-in-four chance of being nice.
    fn default() -> (r: MostlyNiceStrategy)
        ensures
            r.jerk_threshold == 6 * 3600,
            r.nice_chance == 75,
    {
        MostlyNiceStrategy { jerk_threshold: 6 * 3600, nice_chance: 75 }
    }
}

impl MostlyNiceStrategy {
    pub fn new(jerk_threshold: u64, nice_chance: u16) -> (r: MostlyNiceStrategy)
        ensures
            r.jerk_threshold == jerk_threshold,
            r.nice_chance == nice_chance,
    {
        MostlyNiceStrategy { jerk_threshold, nice_chance }
    }

    /// Decide from the snapshot and a random roll; the same inputs always
    /// give the same decision.
    pub fn should_yoink(&self, config: &Config, stats: &Stats, roll: u16) -> (r: bool)
        requires
            stats.wf(),
        ensures
            r == mostly_nice_decision(
                stats.user_times@,
                config.user_id@,
                stats.flag.holder_id@,
                self.jerk_threshold,
                self.nice_chance,
                roll,
            ),
    {
        let holder_time = match stats.user_times.get(stats.flag.holder_id.as_str()) {
            Some(v) => v,
            None => 0,
        };
        let my_time = match stats.user_times.get(config.user_id.as_str()) {
            Some(v) => v,
            None => 0,
        };
        !(holder_time < self.jerk_threshold && holder_time < my_time && roll <= self.nice_chance)
    }

    /// How long to watch before returning the decision: a sizeable pause
    /// when sparing the holder, a short jitter before acting.
    pub fn decision_delay_ms(&self, decision: bool) -> (r: u64)
        ensures
            decision ==> r <= 3000,
            !decision ==> 1000 <= r <= 9999,
    {
        if decision {
            rand_in_range(0, 3000)
        } else {
            rand_in_range(1000, 9999)
        }
    }
}

} // verus!
