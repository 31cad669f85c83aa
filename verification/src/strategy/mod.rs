//! Strategies for playing the flag game: each decides, from the current
//! snapshot and the score delta, whether to seize the flag now or wait.
//!
//! Candidates are ranked by score with a deterministic tie-break: the
//! lexicographically earlier identifier wins. The agent itself and the
//! game's pseudo-account never count as candidates.

mod blue_shell;
mod mostly_nice;
mod red_shell;

use crate::order::{lemma_lex_connected, lemma_lex_irrefl, lemma_lex_trans, lex_lt, str_eq, str_lex_lt};
use crate::scores::ScoreMap;
use vstd::prelude::*;

pub use blue_shell::{blue_shell_decision, BlueShellStrategy};
pub use mostly_nice::{mostly_nice_decision, score_or_zero, MostlyNiceStrategy};
pub use red_shell::{degenerate_delta, red_shell_decision, RedShellStrategy};

verus! {

/// Why a strategy could not reach a decision this cycle.
#[derive(Clone, Copy, Debug, PartialEq, Eq, Structural)]
pub enum StrategyError {
    /// The table to rank holds no participant at all.
    NoEligibleParticipants,
}

/// The fixed, closed set of strategies; one is selected at startup.
pub enum YoinkStrategy {
    BlueShell(BlueShellStrategy),
    RedShell(RedShellStrategy),
    MostlyNice(MostlyNiceStrategy),
}

impl YoinkStrategy {
    /// The one decision entry point. The delta matters only to the momentum
    /// variant and the random roll only to the considerate one.
    pub fn should_yoink(
        &self,
        config: &crate::Config,
        stats: &crate::stats::Stats,
        user_times_diff: &ScoreMap,
        roll: u16,
    ) -> (r: Result<bool, StrategyError>)
        requires
            stats.wf(),
            user_times_diff.wf(),
        ensures
            match self {
                YoinkStrategy::BlueShell(_) => match r {
                    Ok(b) => (exists|k: Seq<char>|
                        eligible(stats.user_times@, config.user_id@, k)) && b
                        == blue_shell_decision(
                        stats.user_times@,
                        config.user_id@,
                        stats.flag.holder_id@,
                    ),
                    Err(e) => e == StrategyError::NoEligibleParticipants && !(exists|k: Seq<char>|
                        eligible(stats.user_times@, config.user_id@, k)),
                },
                YoinkStrategy::RedShell(s) => match r {
                    Ok(b) => user_times_diff@ != Map::<Seq<char>, u64>::empty() && b
                        == red_shell_decision(
                        stats.user_times@,
                        user_times_diff@,
                        config.user_id@,
                        stats.flag.holder_id@,
                        s.k as nat,
                        s.fallback_k as nat,
                    ),
                    Err(e) => e == StrategyError::NoEligibleParticipants && user_times_diff@
                        == Map::<Seq<char>, u64>::empty(),
                },
                YoinkStrategy::MostlyNice(s) => r == Ok::<bool, StrategyError>(
                    mostly_nice_decision(
                        stats.user_times@,
                        config.user_id@,
                        stats.flag.holder_id@,
                        s.jerk_threshold,
                        s.nice_chance,
                        roll,
                    ),
                ),
            },
    {
        match self {
            YoinkStrategy::BlueShell(s) => s.should_yoink(config, stats),
            YoinkStrategy::RedShell(s) => s.should_yoink(config, stats, user_times_diff),
            YoinkStrategy::MostlyNice(s) => Ok(s.should_yoink(config, stats, roll)),
        }
    }

    /// How long the chosen strategy watches before returning its decision.
    pub fn decision_delay_ms(&self, decision: bool) -> (r: u64)
        ensures
            match self {
                YoinkStrategy::BlueShell(_) => if decision {
                    r <= 1000
                } else {
                    500 <= r <= 2000
                },
                YoinkStrategy::RedShell(_) => if decision {
                    1000 <= r <= 3000
                } else {
                    r == 1000
                },
                YoinkStrategy::MostlyNice(_) => if decision {
                    r <= 3000
                } else {
                    1000 <= r <= 9999
                },
            },
    {
        match self {
            YoinkStrategy::BlueShell(s) => s.decision_delay_ms(decision),
            YoinkStrategy::RedShell(s) => s.decision_delay_ms(decision),
            YoinkStrategy::MostlyNice(s) => s.decision_delay_ms(decision),
        }
    }
}

/// The non-competing pseudo-account that aggregates platform scores.
pub open spec fn pseudo_id() -> Seq<char> {
    "platform:farcaster"@
}

/// Whether `k` is a candidate in table `m`: present, not this agent itself,
/// and not the pseudo-account.
pub open spec fn eligible(m: Map<Seq<char>, u64>, self_id: Seq<char>, k: Seq<char>) -> bool {
    m.contains_key(k) && k != self_id && k != pseudo_id()
}

/// Whether `a` is ranked strictly before `b` in table `m`: a strictly larger
/// score, or an equal score and a lexicographically earlier identifier.
pub open spec fn outranks(m: Map<Seq<char>, u64>, a: Seq<char>, b: Seq<char>) -> bool {
    m[a] > m[b] || (m[a] == m[b] && lex_lt(a, b))
}

/// The candidates ranked strictly before `b`.
pub open spec fn outranked_by_set(
    m: Map<Seq<char>, u64>,
    self_id: Seq<char>,
    b: Seq<char>,
) -> Set<Seq<char>> {
    m.dom().filter(|k: Seq<char>| eligible(m, self_id, k) && outranks(m, k, b))
}

/// Whether `b` is the first-ranked candidate of table `m`.
pub open spec fn is_leader(m: Map<Seq<char>, u64>, self_id: Seq<char>, b: Seq<char>) -> bool {
    eligible(m, self_id, b) && forall|k: Seq<char>| #[trigger]
        eligible(m, self_id, k) ==> !outranks(m, k, b)
}

/// Whether `b` is among the first `kk` ranked candidates of table `m`.
pub open spec fn in_top(
    m: Map<Seq<char>, u64>,
    self_id: Seq<char>,
    b: Seq<char>,
    kk: nat,
) -> bool {
    eligible(m, self_id, b) && outranked_by_set(m, self_id, b).len() < kk
}

/// The ranking is transitive.
pub proof fn lemma_outranks_trans(m: Map<Seq<char>, u64>, a: Seq<char>, b: Seq<char>, c: Seq<char>)
    requires
        outranks(m, a, b),
        outranks(m, b, c),
    ensures
        outranks(m, a, c),
{
    if m[a] == m[b] && m[b] == m[c] {
        lemma_lex_trans(a, b, c);
    }
}

/// Distinct identifiers are always ranked one before the other.
pub proof fn lemma_outranks_connected(m: Map<Seq<char>, u64>, a: Seq<char>, b: Seq<char>)
    requires
        a != b,
    ensures
        outranks(m, a, b) || outranks(m, b, a),
{
    if m[a] == m[b] {
        lemma_lex_connected(a, b);
    }
}

/// A table has at most one leader.
pub proof fn lemma_leader_unique(m: Map<Seq<char>, u64>, self_id: Seq<char>, a: Seq<char>, b: Seq<char>)
    requires
        is_leader(m, self_id, a),
        is_leader(m, self_id, b),
    ensures
        a == b,
{
    if a != b {
        lemma_outranks_connected(m, a, b);
    }
}

/// The index of the first-ranked candidate of `m`, if any candidate exists.
pub(crate) fn find_leader(m: &ScoreMap, self_id: &str) -> (r: Option<usize>)
    requires
        m.wf(),
    ensures
        match r {
            Some(i) => i < m.kvs().len() && is_leader(m@, self_id@, m.kvs()[i as int].0),
            None => forall|k: Seq<char>| !eligible(m@, self_id@, k),
        },
{
    proof {
        m.lemma_view_entries();
    }
    let n = m.len();
    let mut best: Option<usize> = None;
    let mut i: usize = 0;
    while i < n
        invariant
            m.wf(),
            n == m.kvs().len(),
            i <= n,
            forall|j: int|
                0 <= j < m.kvs().len() ==> m@.contains_key(#[trigger] m.kvs()[j].0)
                    && m@[m.kvs()[j].0] == m.kvs()[j].1,
            match best {
                Some(b) => b < i && eligible(m@, self_id@, m.kvs()[b as int].0) && forall|j: int|
                    0 <= j < i && eligible(m@, self_id@, #[trigger] m.kvs()[j].0) ==> !outranks(
                        m@,
                        m.kvs()[j].0,
                        m.kvs()[b as int].0,
                    ),
                None => forall|j: int|
                    0 <= j < i ==> !eligible(m@, self_id@, #[trigger] m.kvs()[j].0),
            },
        decreases n - i,
    {
        let key = m.key_at(i);
        let is_eligible = !str_eq(key.as_str(), self_id) && !str_eq(
            key.as_str(),
            "platform:farcaster",
        );
        if is_eligible {
            match best {
                None => {
                    proof {
                        let ghost ck = m.kvs()[i as int].0;
                        lemma_lex_irrefl(ck);
                        assert(!outranks(m@, ck, ck));
                        assert forall|j: int|
                            0 <= j < i + 1 && eligible(m@, self_id@, #[trigger] m.kvs()[j].0)
                            implies !outranks(m@, m.kvs()[j].0, ck) by {}
                    }
                    best = Some(i);
                },
                Some(b) => {
                    let bv = m.val_at(b);
                    let v = m.val_at(i);
                    let beats = v > bv || (v == bv && str_lex_lt(key.as_str(), m.key_at(b).as_str()));
                    if beats {
                        proof {
                            let ghost ck = m.kvs()[i as int].0;
                            let ghost bk = m.kvs()[b as int].0;
                            lemma_lex_irrefl(ck);
                            assert(outranks(m@, ck, bk));
                            assert forall|j: int|
                                0 <= j < i + 1 && eligible(m@, self_id@, #[trigger] m.kvs()[j].0)
                                implies !outranks(m@, m.kvs()[j].0, ck) by {
                                if j < i && outranks(m@, m.kvs()[j].0, ck) {
                                    lemma_outranks_trans(m@, m.kvs()[j].0, ck, bk);
                                }
                                if j == i {
                                    assert(!outranks(m@, ck, ck));
                                }
                            }
                        }
                        best = Some(i);
                    } else {
                        proof {
                            assert(!outranks(m@, m.kvs()[i as int].0, m.kvs()[b as int].0));
                        }
                    }
                },
            }
        }
        i += 1;
    }
    proof {
        match best {
            Some(b) => {
                assert forall|k: Seq<char>| eligible(m@, self_id@, k) implies !outranks(
                    m@,
                    k,
                    m.kvs()[b as int].0,
                ) by {
                    let j = choose|j: int| 0 <= j < m.kvs().len() && m.kvs()[j].0 == k;
                }
            },
            None => {
                assert forall|k: Seq<char>| !eligible(m@, self_id@, k) by {
                    if m@.contains_key(k) {
                        let j = choose|j: int| 0 <= j < m.kvs().len() && m.kvs()[j].0 == k;
                    }
                }
            },
        }
    }
    best
}

/// How many candidates are ranked strictly before `target` in `m`.
pub(crate) fn count_outranking(m: &ScoreMap, self_id: &str, target: &str) -> (r: usize)
    requires
        m.wf(),
        m@.contains_key(target@),
    ensures
        r == outranked_by_set(m@, self_id@, target@).len(),
{
    proof {
        m.lemma_view_entries();
    }
    let tv = match m.get(target) {
        Some(v) => v,
        None => 0,  // unreachable: the target is present
    };
    let n = m.len();
    let mut count: usize = 0;
    let mut i: usize = 0;
    let ghost mut seen: Set<Seq<char>> = Set::empty();
    while i < n
        invariant
            m.wf(),
            n == m.kvs().len(),
            i <= n,
            m@.contains_key(target@),
            tv == m@[target@],
            forall|j: int|
                0 <= j < m.kvs().len() ==> m@.contains_key(#[trigger] m.kvs()[j].0)
                    && m@[m.kvs()[j].0] == m.kvs()[j].1,
            seen.finite(),
            count == seen.len(),
            count <= i,
            forall|k: Seq<char>| #[trigger]
                seen.contains(k) <==> exists|j: int|
                    0 <= j < i && m.kvs()[j].0 == k && eligible(m@, self_id@, k) && outranks(
                        m@,
                        k,
                        target@,
                    ),
        decreases n - i,
    {
        let key = m.key_at(i);
        let is_eligible = !str_eq(key.as_str(), self_id) && !str_eq(
            key.as_str(),
            "platform:farcaster",
        );
        let v = m.val_at(i);
        let ghost k0 = m.kvs()[i as int].0;
        let counts = is_eligible && (v > tv || (v == tv && str_lex_lt(key.as_str(), target)));
        if counts {
            proof {
                assert(eligible(m@, self_id@, k0) && outranks(m@, k0, target@));
                // this key was not seen before: keys are unique
                if seen.contains(k0) {
                    let j = choose|j: int|
                        0 <= j < i && m.kvs()[j].0 == k0 && eligible(m@, self_id@, k0) && outranks(
                            m@,
                            k0,
                            target@,
                        );
                    assert(m.kvs()[j].0 != m.kvs()[i as int].0);
                }
                seen = seen.insert(k0);
            }
            count += 1;
        }
        proof {
            let ghost i1 = i as int + 1;
            assert forall|k: Seq<char>| #[trigger] seen.contains(k) implies exists|j: int|
                0 <= j < i1 && m.kvs()[j].0 == k && eligible(m@, self_id@, k) && outranks(
                    m@,
                    k,
                    target@,
                ) by {
                if counts && k == k0 {
                    assert(m.kvs()[i as int].0 == k);
                } else {
                    let j = choose|j: int|
                        0 <= j < i && m.kvs()[j].0 == k && eligible(m@, self_id@, k) && outranks(
                            m@,
                            k,
                            target@,
                        );
                }
            }
            assert forall|k: Seq<char>|
                (exists|j: int|
                    0 <= j < i1 && m.kvs()[j].0 == k && eligible(m@, self_id@, k) && outranks(
                        m@,
                        k,
                        target@,
                    )) implies #[trigger] seen.contains(k) by {
                let j = choose|j: int|
                    0 <= j < i1 && m.kvs()[j].0 == k && eligible(m@, self_id@, k) && outranks(
                        m@,
                        k,
                        target@,
                    );
                if j == i as int {
                    assert(k == k0);
                    assert(counts);
                }
            }
        }
        i += 1;
    }
    proof {
        assert(seen =~= outranked_by_set(m@, self_id@, target@)) by {
            assert forall|k: Seq<char>| #[trigger] outranked_by_set(m@, self_id@, target@).contains(
                k,
            ) implies seen.contains(k) by {
                let j = choose|j: int| 0 <= j < m.kvs().len() && m.kvs()[j].0 == k;
            }
        }
    }
    count
}

} // verus!
