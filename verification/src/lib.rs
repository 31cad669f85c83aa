//! Decision core of an agent for a flag-holding game: a rolling window of
//! score snapshots with its delta, strategies that decide act-or-wait, and
//! the scheduling rules that sequence observation, action and cooldown.

pub mod order;
pub mod parse;
pub mod scores;
pub mod sleep;
pub mod stats;
pub mod strategy;
pub mod yoinker;

use crate::scores::{spec_subtract, subtract_hashmaps, ScoreMap};
use crate::stats::Stats;
use vstd::prelude::*;

verus! {

/// Cooldown imposed by the game between two action attempts, in milliseconds.
pub const COOLDOWN_TIME_MS: u64 = 10 * 60 * 1000;

/// Application configuration: this agent's identity and the fixed payload of
/// the seize call.
#[derive(Clone)]
pub struct Config {
    pub user_id: String,
    pub cast_hash: String,
    pub nn_api_key: String,
    pub nn_signer_uuid: String,
}

/// Whether pushing snapshot `x` onto window `w` is a real change: the very
/// first snapshot always is, later ones only when the scores moved.
pub open spec fn push_changes(w: Seq<Stats>, x: Stats) -> bool {
    w.len() == 0 || w.last().user_times@ != x.user_times@
}

/// The window after pushing `x` onto `w` with capacity `n`: unchanged for a
/// no-op push, otherwise appended, evicting the oldest entry when full.
pub open spec fn pushed_window(w: Seq<Stats>, x: Stats, n: nat) -> Seq<Stats> {
    if !push_changes(w, x) {
        w
    } else if w.len() < n {
        w.push(x)
    } else {
        w.drop_first().push(x)
    }
}

/// The delta after pushing `x`: recomputed on a real change as the newest
/// scores minus the basis — the oldest window entry after the push, or an
/// empty table for the very first snapshot — and untouched otherwise.
pub open spec fn pushed_diff(
    w: Seq<Stats>,
    x: Stats,
    n: nat,
    d: Map<Seq<char>, u64>,
) -> Map<Seq<char>, u64> {
    if !push_changes(w, x) {
        d
    } else if w.len() == 0 {
        spec_subtract(x.user_times@, Map::<Seq<char>, u64>::empty())
    } else {
        spec_subtract(x.user_times@, pushed_window(w, x, n)[0].user_times@)
    }
}

/// The rolling window never grows beyond its capacity.
pub proof fn lemma_window_capacity(w: Seq<Stats>, x: Stats, n: nat)
    requires
        w.len() <= n,
        n >= 1,
    ensures
        pushed_window(w, x, n).len() <= n,
{
}

/// Pushing the snapshot that is already the newest is a no-op: it reports no
/// change and leaves window and delta alone. In particular a second push of
/// the same snapshot never does anything.
pub proof fn lemma_push_idempotent(w: Seq<Stats>, x: Stats, n: nat, d: Map<Seq<char>, u64>)
    requires
        n >= 1,
    ensures
        !push_changes(pushed_window(w, x, n), x),
        pushed_window(pushed_window(w, x, n), x, n) == pushed_window(w, x, n),
        pushed_diff(pushed_window(w, x, n), x, n, pushed_diff(w, x, n, d)) == pushed_diff(
            w,
            x,
            n,
            d,
        ),
{
    let w1 = pushed_window(w, x, n);
    if push_changes(w, x) {
        assert(w1.last() == x);
    }
}

/// The scheduler's view of the game: a rolling window of the last `N` real
/// snapshot changes and the score delta across that window.
#[derive(Clone)]
pub struct State<const N: usize> {
    stats: Vec<Stats>,
    diff: ScoreMap,
}

impl<const N: usize> State<N> {
    /// The snapshots currently held, oldest first.
    pub closed spec fn window(&self) -> Seq<Stats> {
        self.stats@
    }

    /// The delta table held between pushes.
    pub closed spec fn diff_table(&self) -> ScoreMap {
        self.diff
    }

    /// The delta as a mapping from participant to score growth.
    pub open spec fn diff_map(&self) -> Map<Seq<char>, u64> {
        self.diff_table()@
    }

    /// At most `N` snapshots, each well formed, and a well-formed delta.
    pub open spec fn wf(&self) -> bool {
        &&& self.window().len() <= N
    &&& forall|i: int| 0 <= i < self.window().len() ==> (#[trigger] self.window()[i]).wf()
    &&& self.diff_table().wf()
    }

    /// An empty window with an empty delta.
    pub fn new() -> (r: State<N>)
        ensures
            r.wf(),
            r.window() == Seq::<Stats>::empty(),
            r.diff_map() == Map::<Seq<char>, u64>::empty(),
    {
        let r = State { stats: Vec::new(), diff: ScoreMap::new() };
        proof {
            assert(r.window() =~= Seq::<Stats>::empty());
        }
        r
    }

    /// How many snapshots the window currently holds.
    pub fn len(&self) -> (r: usize)
        ensures
            r == self.window().len(),
    {
        self.stats.len()
    }

    /// The newest snapshot, if any has ever been pushed.
    pub fn back(&self) -> (r: Option<&Stats>)
        ensures
            match r {
                Some(s) => self.window().len() > 0 && *s == self.window().last(),
                None => self.window().len() == 0,
            },
    {
        let n = self.stats.len();
        if n == 0 {
            None
        } else {
            Some(&self.stats[n - 1])
        }
    }

    /// The oldest snapshot still in the window, if any.
    pub fn front(&self) -> (r: Option<&Stats>)
        ensures
            match r {
                Some(s) => self.window().len() > 0 && *s == self.window()[0],
                None => self.window().len() == 0,
            },
    {
        if self.stats.len() == 0 {
            None
        } else {
            Some(&self.stats[0])
        }
    }

    /// The current delta table.
    pub fn diff(&self) -> (r: &ScoreMap)
        ensures
            *r == self.diff_table(),
            r@ == self.diff_map(),
    {
        &self.diff
    }

    /// Record a fresh snapshot. A snapshot whose scores equal the newest
    /// entry's is skipped; otherwise it is appended (evicting the oldest
    /// entry of a full window) and the delta is recomputed against the
    /// oldest entry remaining, or against an empty table for the very first
    /// snapshot. Reports whether anything changed.
    pub fn push_stats(&mut self, stats: Stats) -> (changed: bool)
        requires
            old(self).wf(),
            stats.wf(),
            N >= 1,
        ensures
            final(self).wf(),
            changed == push_changes(old(self).window(), stats),
            final(self).window() == pushed_window(old(self).window(), stats, N as nat),
            final(self).diff_map() == pushed_diff(
                old(self).window(),
                stats,
                N as nat,
                old(self).diff_map(),
            ),
            !changed ==> *final(self) == *old(self),
    {
        let n0 = self.stats.len();
        let changed = if n0 == 0 {
            true
        } else {
            !self.stats[n0 - 1].user_times.same_scores(&stats.user_times)
        };
        if !changed {
            return false;
        }
        let ghost w0 = self.window();
        if self.stats.len() == N {
            self.stats.remove(0);
            proof {
                assert(self.stats@ =~= w0.drop_first());
            }
        }
        self.stats.push(stats);
        proof {
            assert(self.window() =~= pushed_window(w0, stats, N as nat));
            assert(forall|i: int|
                0 <= i < self.window().len() ==> (#[trigger] self.window()[i]).wf());
        }
        let n1 = self.stats.len();
        if n0 == 0 {
            let empty = ScoreMap::new();
            self.diff = subtract_hashmaps(&self.stats[n1 - 1].user_times, &empty);
        } else {
            let d = subtract_hashmaps(&self.stats[n1 - 1].user_times, &self.stats[0].user_times);
            self.diff = d;
        }
        proof {
            assert(self.window()[self.window().len() - 1] == stats);
        }
        true
    }
}

} // verus!
