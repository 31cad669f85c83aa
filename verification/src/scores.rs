//! Score tables: a finite mapping from participant identifiers to
//! non-negative integer scores, and the difference of two such tables.
//!
//! The table is stored as a vector of pairs with pairwise distinct keys; its
//! mathematical value is the `Map` from identifier characters to score.

use crate::order::str_eq;
use vstd::prelude::*;

verus! {

/// The mapping described by a sequence of key/value pairs, later entries
/// overriding earlier ones (well-formed tables have no duplicates).
pub open spec fn map_of(s: Seq<(Seq<char>, u64)>) -> Map<Seq<char>, u64>
    decreases s.len(),
{
    if s.len() == 0 {
        Map::empty()
    } else {
        map_of(s.drop_last()).insert(s.last().0, s.last().1)
    }
}

/// Pairwise distinct keys.
pub open spec fn unique_keys(s: Seq<(Seq<char>, u64)>) -> bool {
    forall|i: int, j: int| 0 <= i < j < s.len() ==> s[i].0 != s[j].0
}

/// A key is in the mapping exactly when some entry carries it.
pub proof fn lemma_map_of_contains(s: Seq<(Seq<char>, u64)>, k: Seq<char>)
    ensures
        map_of(s).contains_key(k) <==> exists|i: int| 0 <= i < s.len() && s[i].0 == k,
    decreases s.len(),
{
    if s.len() > 0 {
        lemma_map_of_contains(s.drop_last(), k);
        if s.last().0 == k {
            assert(s[s.len() - 1].0 == k);
        } else if map_of(s).contains_key(k) {
            let i = choose|i: int| 0 <= i < s.drop_last().len() && s.drop_last()[i].0 == k;
            assert(s[i].0 == k);
        } else if exists|i: int| 0 <= i < s.len() && s[i].0 == k {
            let i = choose|i: int| 0 <= i < s.len() && s[i].0 == k;
            assert(i < s.len() - 1);
            assert(s.drop_last()[i].0 == k);
        }
    }
}

/// With distinct keys, each entry's key maps to that entry's value.
pub proof fn lemma_map_of_index(s: Seq<(Seq<char>, u64)>, i: int)
    requires
        unique_keys(s),
        0 <= i < s.len(),
    ensures
        map_of(s).contains_key(s[i].0),
        map_of(s)[s[i].0] == s[i].1,
    decreases s.len(),
{
    if i == s.len() - 1 {
    } else {
        assert(s.drop_last()[i] == s[i]);
        lemma_map_of_index(s.drop_last(), i);
        assert(s[i].0 != s[s.len() - 1].0);
    }
}

/// A table of scores, one entry per participant.
#[derive(Clone)]
pub struct ScoreMap {
    entries: Vec<(String, u64)>,
}

impl View for ScoreMap {
    type V = Map<Seq<char>, u64>;

    closed spec fn view(&self) -> Map<Seq<char>, u64> {
        map_of(self.kvs())
    }
}

impl ScoreMap {
    /// The stored entries, as (identifier characters, score) pairs in order.
    pub closed spec fn kvs(&self) -> Seq<(Seq<char>, u64)> {
        self.entries@.map_values(|p: (String, u64)| (p.0@, p.1))
    }

    /// Every participant appears at most once.
    pub open spec fn wf(&self) -> bool {
        unique_keys(self.kvs())
    }

    /// The keys of the view are the keys of the entries, with their values.
    pub proof fn lemma_view_entries(&self)
        requires
            self.wf(),
        ensures
            forall|k: Seq<char>|
                self@.contains_key(k) <==> exists|i: int| 0 <= i < self.kvs().len()
                    && self.kvs()[i].0 == k,
            forall|i: int|
                0 <= i < self.kvs().len() ==> self@.contains_key(#[trigger] self.kvs()[i].0)
                    && self@[self.kvs()[i].0] == self.kvs()[i].1,
    {
        assert forall|k: Seq<char>|
            self@.contains_key(k) <==> exists|i: int| 0 <= i < self.kvs().len()
                && self.kvs()[i].0 == k by {
            lemma_map_of_contains(self.kvs(), k);
        }
        assert forall|i: int| 0 <= i < self.kvs().len() implies self@.contains_key(
            #[trigger] self.kvs()[i].0,
        ) && self@[self.kvs()[i].0] == self.kvs()[i].1 by {
            lemma_map_of_index(self.kvs(), i);
        }
    }

    /// An empty table.
    pub fn new() -> (r: ScoreMap)
        ensures
            r.wf(),
            r@ == Map::<Seq<char>, u64>::empty(),
            r.kvs() == Seq::<(Seq<char>, u64)>::empty(),
    {
        let r = ScoreMap { entries: Vec::new() };
        proof {
            assert(r.kvs() =~= Seq::<(Seq<char>, u64)>::empty());
        }
        r
    }

    /// The number of participants in the table.
    pub fn len(&self) -> (r: usize)
        ensures
            r == self.kvs().len(),
    {
        self.entries.len()
    }

    /// The identifier stored at position `i`.
    pub fn key_at(&self, i: usize) -> (r: &String)
        requires
            i < self.kvs().len(),
        ensures
            r@ == self.kvs()[i as int].0,
    {
        &self.entries[i].0
    }

    /// The score stored at position `i`.
    pub fn val_at(&self, i: usize) -> (r: u64)
        requires
            i < self.kvs().len(),
        ensures
            r == self.kvs()[i as int].1,
    {
        self.entries[i].1
    }

    /// The score of `key`, if the participant is present.
    pub fn get(&self, key: &str) -> (r: Option<u64>)
        requires
            self.wf(),
        ensures
            r == if self@.contains_key(key@) {
                Some(self@[key@])
            } else {
                None::<u64>
            },
    {
        proof {
            self.lemma_view_entries();
        }
        let n = self.entries.len();
        let mut i: usize = 0;
        while i < n
            invariant
                self.wf(),
                n == self.kvs().len(),
                i <= n,
                forall|j: int| 0 <= j < i ==> self.kvs()[j].0 != key@,
            decreases n - i,
        {
            if str_eq(self.entries[i].0.as_str(), key) {
                proof {
                    lemma_map_of_index(self.kvs(), i as int);
                }
                return Some(self.entries[i].1);
            }
            i += 1;
        }
        proof {
            lemma_map_of_contains(self.kvs(), key@);
        }
        None
    }

    /// Whether `key` is present in the table.
    pub fn contains_key(&self, key: &str) -> (r: bool)
        requires
            self.wf(),
        ensures
            r == self@.contains_key(key@),
    {
        self.get(key).is_some()
    }

    /// Set the score of `key`, adding the participant if absent.
    pub fn insert(&mut self, key: String, value: u64)
        requires
            old(self).wf(),
        ensures
            final(self).wf(),
            final(self)@ == old(self)@.insert(key@, value),
    {
        let n = self.entries.len();
        let mut i: usize = 0;
        while i < n
            invariant
                self == old(self),
                self.wf(),
                n == self.kvs().len(),
                i <= n,
                forall|j: int| 0 <= j < i ==> self.kvs()[j].0 != key@,
            decreases n - i,
        {
            if str_eq(self.entries[i].0.as_str(), key.as_str()) {
                let ghost s0 = self.kvs();
                let slot = vstd::std_specs::vec::vec_index_mut(&mut self.entries, i);
                *slot = (key, value);
                proof {
                    assert(self.kvs() =~= s0.update(i as int, (key@, value)));
                    lemma_map_of_update(s0, i as int, (key@, value));
                }
                return;
            }
            i += 1;
        }
        let ghost s0 = self.kvs();
        self.entries.push((key, value));
        proof {
            assert(self.kvs() =~= s0.push((key@, value)));
            lemma_map_of_push(s0, (key@, value));
            assert forall|a: int, b: int|
                0 <= a < b < self.kvs().len() implies self.kvs()[a].0 != self.kvs()[b].0 by {
                if b == self.kvs().len() - 1 {
                    assert(s0[a].0 != key@);
                } else {
                    assert(s0[a].0 != s0[b].0);
                }
            }
        }
    }

    /// Whether two tables assign the same score to the same participants.
    pub fn same_scores(&self, other: &ScoreMap) -> (r: bool)
        requires
            self.wf(),
            other.wf(),
        ensures
            r == (self@ == other@),
    {
        let ab = self.covered_by(other);
        let ba = other.covered_by(self);
        proof {
            self.lemma_view_entries();
            other.lemma_view_entries();
            if ab && ba {
                assert(self@ =~= other@);
            } else if !ab {
                let t = choose|t: int|
                    0 <= t < self.kvs().len() && !(other@.contains_key(self.kvs()[t].0)
                        && other@[self.kvs()[t].0] == self.kvs()[t].1);
                assert(self@.contains_key(self.kvs()[t].0));
                assert(self@[self.kvs()[t].0] == self.kvs()[t].1);
                assert(self@ != other@);
            } else {
                let t = choose|t: int|
                    0 <= t < other.kvs().len() && !(self@.contains_key(other.kvs()[t].0)
                        && self@[other.kvs()[t].0] == other.kvs()[t].1);
                assert(other@.contains_key(other.kvs()[t].0));
                assert(other@[other.kvs()[t].0] == other.kvs()[t].1);
                assert(self@ != other@);
            }
        }
        ab && ba
    }

    /// Whether every entry of `self` is present in `other` with the same value.
    fn covered_by(&self, other: &ScoreMap) -> (r: bool)
        requires
            self.wf(),
            other.wf(),
        ensures
            r == forall|i: int|
                0 <= i < self.kvs().len() ==> other@.contains_key(#[trigger] self.kvs()[i].0)
                    && other@[self.kvs()[i].0] == self.kvs()[i].1,
    {
        let n = self.entries.len();
        let mut i: usize = 0;
        while i < n
            invariant
                self.wf(),
                other.wf(),
                n == self.kvs().len(),
                i <= n,
                forall|j: int|
                    0 <= j < i ==> other@.contains_key(#[trigger] self.kvs()[j].0)
                        && other@[self.kvs()[j].0] == self.kvs()[j].1,
            decreases n - i,
        {
            proof {
                assert(self.kvs()[i as int].0 == self.entries@[i as int].0@);
            }
            match other.get(self.entries[i].0.as_str()) {
                Some(v) => {
                    if v != self.entries[i].1 {
                        proof {
                            let t = i as int;
                            assert(other@[self.kvs()[t].0] != self.kvs()[t].1);
                            assert(!(other@.contains_key(self.kvs()[t].0)
                                && other@[self.kvs()[t].0] == self.kvs()[t].1));
                        }
                        return false;
                    }
                },
                None => {
                    proof {
                        let t = i as int;
                        assert(!other@.contains_key(self.kvs()[t].0));
                        assert(!(other@.contains_key(self.kvs()[t].0)
                            && other@[self.kvs()[t].0] == self.kvs()[t].1));
                    }
                    return false;
                },
            }
            i += 1;
        }
        true
    }
}

/// Appending an entry inserts its key.
proof fn lemma_map_of_push(s: Seq<(Seq<char>, u64)>, p: (Seq<char>, u64))
    ensures
        map_of(s.push(p)) == map_of(s).insert(p.0, p.1),
{
    assert(s.push(p).drop_last() =~= s);
    assert(s.push(p).last() == p);
}

/// Overwriting the entry that carries a key re-inserts that key.
proof fn lemma_map_of_update(s: Seq<(Seq<char>, u64)>, i: int, p: (Seq<char>, u64))
    requires
        unique_keys(s),
        0 <= i < s.len(),
        s[i].0 == p.0,
    ensures
        unique_keys(s.update(i, p)),
        map_of(s.update(i, p)) == map_of(s).insert(p.0, p.1),
{
    let s2 = s.update(i, p);
    assert(forall|j: int| 0 <= j < s.len() ==> s2[j].0 == s[j].0);
    assert(unique_keys(s2));
    assert forall|k: Seq<char>| #[trigger] map_of(s2).contains_key(k)
        == map_of(s).insert(p.0, p.1).contains_key(k) by {
        lemma_map_of_contains(s, k);
        lemma_map_of_contains(s2, k);
        if k == p.0 {
            assert(s2[i].0 == k);
        }
    }
    assert forall|k: Seq<char>| map_of(s2).contains_key(k) implies #[trigger] map_of(s2)[k]
        == map_of(s).insert(p.0, p.1)[k] by {
        lemma_map_of_contains(s2, k);
        let j = choose|j: int| 0 <= j < s2.len() && s2[j].0 == k;
        lemma_map_of_index(s2, j);
        if j == i {
            assert(map_of(s2)[k] == p.1);
        } else {
            assert(s2[j] == s[j]);
            lemma_map_of_index(s, j);
            assert(k != p.0);
        }
    }
    assert(map_of(s2) =~= map_of(s).insert(p.0, p.1));
}

/// The score change of participant `k` between two tables; a participant
/// missing from the older table counts as starting from zero.
pub open spec fn diff_at(
    newer: Map<Seq<char>, u64>,
    older: Map<Seq<char>, u64>,
    k: Seq<char>,
) -> int {
    newer[k] - if older.contains_key(k) {
        older[k] as int
    } else {
        0
    }
}

/// The difference of two score tables: participants of the newer table whose
/// score grew, each with the growth; keys only in the older table are ignored.
pub open spec fn spec_subtract(
    newer: Map<Seq<char>, u64>,
    older: Map<Seq<char>, u64>,
) -> Map<Seq<char>, u64> {
    Map::new(
        |k: Seq<char>| newer.contains_key(k) && diff_at(newer, older, k) > 0,
        |k: Seq<char>| diff_at(newer, older, k) as u64,
    )
}

/// A table restricted to its strictly positive entries.
pub open spec fn positive_part(m: Map<Seq<char>, u64>) -> Map<Seq<char>, u64> {
    Map::new(|k: Seq<char>| m.contains_key(k) && m[k] > 0, |k: Seq<char>| m[k])
}

/// Every entry of a difference is strictly positive.
pub proof fn lemma_subtract_strictly_positive(
    newer: Map<Seq<char>, u64>,
    older: Map<Seq<char>, u64>,
)
    ensures
        forall|k: Seq<char>| #[trigger]
            spec_subtract(newer, older).contains_key(k) ==> spec_subtract(newer, older)[k] > 0,
{
}

/// Subtracting a table from itself leaves nothing.
pub proof fn lemma_subtract_self(m: Map<Seq<char>, u64>)
    ensures
        spec_subtract(m, m) == Map::<Seq<char>, u64>::empty(),
{
    assert(spec_subtract(m, m) =~= Map::<Seq<char>, u64>::empty());
}

/// With an empty basis the difference is the newer table, filtered to its
/// strictly positive entries.
pub proof fn lemma_subtract_empty_basis(m: Map<Seq<char>, u64>)
    ensures
        spec_subtract(m, Map::<Seq<char>, u64>::empty()) == positive_part(m),
{
    assert(spec_subtract(m, Map::<Seq<char>, u64>::empty()) =~= positive_part(m));
}

/// The difference of two score tables, as `spec_subtract` describes it.
pub fn subtract_hashmaps(newer: &ScoreMap, older: &ScoreMap) -> (r: ScoreMap)
    requires
        newer.wf(),
        older.wf(),
    ensures
        r.wf(),
        r@ == spec_subtract(newer@, older@),
{
    let mut out = ScoreMap::new();
    let n = newer.entries.len();
    let mut i: usize = 0;
    proof {
        newer.lemma_view_entries();
    }
    while i < n
        invariant
            newer.wf(),
            older.wf(),
            out.wf(),
            n == newer.kvs().len(),
            i <= n,
            forall|k: Seq<char>| #[trigger]
                out@.contains_key(k) <==> exists|j: int|
                    0 <= j < i && newer.kvs()[j].0 == k && diff_at(newer@, older@, k) > 0,
            forall|k: Seq<char>| #[trigger]
                out@.contains_key(k) ==> out@[k] == diff_at(newer@, older@, k) as u64,
            forall|t: int|
                0 <= t < out.kvs().len() ==> exists|j: int|
                    0 <= j < i && newer.kvs()[j].0 == #[trigger] out.kvs()[t].0,
            forall|j: int|
                0 <= j < newer.kvs().len() ==> newer@.contains_key(#[trigger] newer.kvs()[j].0)
                    && newer@[newer.kvs()[j].0] == newer.kvs()[j].1,
        decreases n - i,
    {
        let ghost m0 = out@;
        let key = &newer.entries[i].0;
        let v = newer.entries[i].1;
        let d: u64 = match older.get(key.as_str()) {
            Some(o) => {
                if v > o {
                    v - o
                } else {
                    0
                }
            },
            None => v,
        };
        proof {
            assert(newer.kvs()[i as int].0 == key@);
            assert(newer@[key@] == v);
            assert(d > 0 ==> d as int == diff_at(newer@, older@, key@));
            assert(d == 0 ==> diff_at(newer@, older@, key@) <= 0);
            // the key of this entry is new: keys are unique in `newer`
            assert forall|j: int| 0 <= j < i implies newer.kvs()[j].0 != key@ by {
                assert(newer.kvs()[j].0 != newer.kvs()[i as int].0);
            }
        }
        let ghost i1 = i as int + 1;
        let ghost k0 = key@;
        if d > 0 {
            let ghost s0 = out.kvs();
            proof {
                // the key is new to `out`: it only holds keys of earlier entries
                assert forall|t: int| 0 <= t < s0.len() implies s0[t].0 != k0 by {
                    let j = choose|j: int| 0 <= j < i && newer.kvs()[j].0 == s0[t].0;
                    assert(newer.kvs()[j].0 != newer.kvs()[i as int].0);
                }
            }
            out.entries.push((key.clone(), d));
            proof {
                assert(out.kvs() =~= s0.push((k0, d)));
                lemma_map_of_push(s0, (k0, d));
                assert forall|a: int, b: int|
                    0 <= a < b < out.kvs().len() implies out.kvs()[a].0 != out.kvs()[b].0 by {
                    if b == out.kvs().len() - 1 {
                        assert(s0[a].0 != k0);
                    } else {
                        assert(s0[a].0 != s0[b].0);
                    }
                }
                assert(out@ == m0.insert(k0, d));
            }
        }
        proof {
            if d == 0 {
                assert(out@ == m0);
            }
            assert forall|k: Seq<char>| #[trigger] out@.contains_key(k) implies exists|j: int|
                0 <= j < i1 && newer.kvs()[j].0 == k && diff_at(newer@, older@, k) > 0 by {
                if d > 0 && k == k0 {
                    assert((i as int) < i1 && newer.kvs()[i as int].0 == k
                        && diff_at(newer@, older@, k) > 0);
                } else {
                    assert(m0.contains_key(k));
                    let j = choose|j: int|
                        0 <= j < i && newer.kvs()[j].0 == k && diff_at(newer@, older@, k) > 0;
                    assert(0 <= j < i1 && newer.kvs()[j].0 == k
                        && diff_at(newer@, older@, k) > 0);
                }
            }
            assert forall|k: Seq<char>|
                (exists|j: int| 0 <= j < i1 && newer.kvs()[j].0 == k
                    && diff_at(newer@, older@, k) > 0) implies #[trigger] out@.contains_key(
                k,
            ) by {
                let j = choose|j: int|
                    0 <= j < i1 && newer.kvs()[j].0 == k && diff_at(newer@, older@, k) > 0;
                if j == i as int {
                    assert(k == k0);
                    assert(d as int == diff_at(newer@, older@, k));
                    assert(out@.contains_key(k));
                } else {
                    assert(m0.contains_key(k));
                    assert(out@.contains_key(k));
                }
            }
            assert forall|k: Seq<char>| #[trigger] out@.contains_key(k) implies out@[k]
                == diff_at(newer@, older@, k) as u64 by {
                if d > 0 && k == k0 {
                    assert(out@[k] == d);
                } else {
                    assert(m0.contains_key(k));
                    assert(out@[k] == m0[k]);
                }
            }
        }
        i += 1;
    }
    proof {
        assert(out@ =~= spec_subtract(newer@, older@)) by {
            assert forall|k: Seq<char>| #[trigger] spec_subtract(newer@, older@).contains_key(k)
                implies out@.contains_key(k) by {
                lemma_map_of_contains(newer.kvs(), k);
            }
        }
    }
    out
}

} // verus!
