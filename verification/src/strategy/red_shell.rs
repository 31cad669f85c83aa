//! Target the participant with the most momentum: act when the holder is
//! among the top few candidates ranked by recent score growth.

use crate::order::str_eq;
use crate::scores::ScoreMap;
use crate::sleep::rand_in_range;
use crate::stats::Stats;
use crate::strategy::{
    count_outranking, eligible, find_leader, in_top, is_leader, lemma_leader_unique, StrategyError,
};
use crate::Config;
use vstd::prelude::*;

verus! {

/// No real delta yet: the growth recorded for the first-ranked candidate is
/// its whole absolute score, as right after the very first snapshot.
pub open spec fn degenerate_delta(
    ut: Map<Seq<char>, u64>,
    d: Map<Seq<char>, u64>,
    self_id: Seq<char>,
) -> bool {
    exists|b: Seq<char>| is_leader(d, self_id, b) && ut.contains_key(b) && ut[b] == d[b]
}

/// Act when the holder is among the top `kk` candidates by score growth.
/// While the delta is degenerate, rank by absolute score instead, with the
/// larger `fkk`. With no candidate in the delta there is nobody to target.
pub open spec fn red_shell_decision(
    ut: Map<Seq<char>, u64>,
    d: Map<Seq<char>, u64>,
    self_id: Seq<char>,
    holder: Seq<char>,
    kk: nat,
    fkk: nat,
) -> bool {
    if !(exists|c: Seq<char>| eligible(d, self_id, c)) {
        false
    } else if degenerate_delta(ut, d, self_id) {
        in_top(ut, self_id, holder, fkk)
    } else {
        in_top(d, self_id, holder, kk)
    }
}

/// Target the fastest recent movers.
pub struct RedShellStrategy {
    /// How many top movers are targets once a real delta exists.
    pub k: usize,
    /// How many top absolute scorers are targets while the delta is
    /// degenerate.
    pub fallback_k: usize,
}

impl Default for RedShellStrategy {
    /// Target the single top mover; the top three while no real delta
    /// exists yet.
    fn default() -> (r: RedShellStrategy)
        ensures
            r.k == 1,
            r.fallback_k == 3,
    {
        RedShellStrategy { k: 1, fallback_k: 3 }
    }
}

impl RedShellStrategy {
    pub fn new(k: usize, fallback_k: usize) -> (r: RedShellStrategy)
        ensures
            r.k == k,
            r.fallback_k == fallback_k,
    {
        RedShellStrategy { k, fallback_k }
    }

    /// Decide from the snapshot and the current delta; fails only when the
    /// delta table holds no participant at all.
    pub fn should_yoink(&self, config: &Config, stats: &Stats, user_times_diff: &ScoreMap) -> (r:
        Result<bool, StrategyError>)
        requires
            stats.wf(),
            user_times_diff.wf(),
        ensures
            match r {
                Ok(b) => user_times_diff@ != Map::<Seq<char>, u64>::empty() && b
                    == red_shell_decision(
                    stats.user_times@,
                    user_times_diff@,
                    config.user_id@,
                    stats.flag.holder_id@,
                    self.k as nat,
                    self.fallback_k as nat,
                ),
                Err(e) => e == StrategyError::NoEligibleParticipants && user_times_diff@ == Map::<
                    Seq<char>,
                    u64,
                >::empty(),
            },
    {
        if user_times_diff.len() == 0 {
            proof {
                user_times_diff.lemma_view_entries();
                assert(forall|k: Seq<char>| !user_times_diff@.contains_key(k));
                assert(user_times_diff@ =~= Map::<Seq<char>, u64>::empty());
            }
            return Err(StrategyError::NoEligibleParticipants);
        }
        proof {
            user_times_diff.lemma_view_entries();
            assert(user_times_diff@.contains_key(user_times_diff.kvs()[0].0));
            assert(user_times_diff@ != Map::<Seq<char>, u64>::empty());
        }
        match find_leader(user_times_diff, config.user_id.as_str()) {
            None => Ok(false),
            Some(i) => {
                let leader_key = user_times_diff.key_at(i);
                let leader_growth = user_times_diff.val_at(i);
                let degenerate = match stats.user_times.get(leader_key.as_str()) {
                    Some(t) => t == leader_growth,
                    None => false,
                };
                proof {
                    let lk = user_times_diff.kvs()[i as int].0;
                    assert(user_times_diff@[lk] == leader_growth);
                    if !degenerate && degenerate_delta(
                        stats.user_times@,
                        user_times_diff@,
                        config.user_id@,
                    ) {
                        let b = choose|b: Seq<char>|
                            is_leader(user_times_diff@, config.user_id@, b)
                                && stats.user_times@.contains_key(b) && stats.user_times@[b]
                                == user_times_diff@[b];
                        lemma_leader_unique(user_times_diff@, config.user_id@, b, lk);
                    }
                }
                let b = if degenerate {
                    holder_in_top(
                        &stats.user_times,
                        config.user_id.as_str(),
                        stats.flag.holder_id.as_str(),
                        self.fallback_k,
                    )
                } else {
                    holder_in_top(
                        user_times_diff,
                        config.user_id.as_str(),
                        stats.flag.holder_id.as_str(),
                        self.k,
                    )
                };
                Ok(b)
            },
        }
    }

    /// How long to watch before returning the decision: a jittered pause
    /// before firing, a fixed second while waiting.
    pub fn decision_delay_ms(&self, decision: bool) -> (r: u64)
        ensures
            decision ==> 1000 <= r <= 3000,
            !decision ==> r == 1000,
    {
        if decision {
            rand_in_range(1000, 3000)
        } else {
            1000
        }
    }
}

/// Whether `target` is among the first `kk` ranked candidates of `m`.
fn holder_in_top(m: &ScoreMap, self_id: &str, target: &str, kk: usize) -> (r: bool)
    requires
        m.wf(),
    ensures
        r == in_top(m@, self_id@, target@, kk as nat),
{
    if !m.contains_key(target) {
        return false;
    }
    if str_eq(target, self_id) || str_eq(target, "platform:farcaster") {
        return false;
    }
    let c = count_outranking(m, self_id, target);
    c < kk
}

} // verus!
