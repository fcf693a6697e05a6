//! Generative sequencing: a first-order Markov chain over MIDI notes and
//! seeded pseudo-random sources.

use std::collections::HashMap;
use vstd::prelude::*;
use vstd::std_specs::hash::obeys_key_model;
use vstd::std_specs::iter::IteratorSpec;

verus! {

broadcast use vstd::std_specs::hash::group_hash_axioms;

/// How many neighbouring pairs `(a, b)` the first `n` notes of `s` hold.
pub open spec fn pair_count(s: Seq<u8>, n: int, a: u8, b: u8) -> nat
    decreases n,
{
    if n < 2 {
        0
    } else {
        pair_count(s, n - 1, a, b) + (if s[n - 2] == a && s[n - 1] == b {
            1nat
        } else {
            0nat
        })
    }
}

/// How many neighbouring pairs starting with `a` the first `n` notes of `s`
/// hold.
pub open spec fn from_count(s: Seq<u8>, n: int, a: u8) -> nat
    decreases n,
{
    if n < 2 {
        0
    } else {
        from_count(s, n - 1, a) + (if s[n - 2] == a {
            1nat
        } else {
            0nat
        })
    }
}

/// A first-order Markov chain over MIDI notes: how often each note followed
/// each other note in the training material.
pub struct MarkovChain {
    transitions: HashMap<u8, HashMap<u8, u32>>,
    totals: HashMap<u8, u32>,
}

impl MarkovChain {
    /// How often `b` followed `a`.
    pub closed spec fn count(&self, a: u8, b: u8) -> nat {
        if self.transitions@.contains_key(a) && self.transitions@[a]@.contains_key(b) {
            self.transitions@[a]@[b] as nat
        } else {
            0
        }
    }

    /// How often anything followed `a`.
    pub closed spec fn total(&self, a: u8) -> nat {
        if self.totals@.contains_key(a) {
            self.totals@[a] as nat
        } else {
            0
        }
    }

    /// Whether a total for `a` is kept.
    pub closed spec fn has_total(&self, a: u8) -> bool {
        self.totals@.contains_key(a)
    }

    /// Whether any transition from `a` was learned.
    pub closed spec fn knows(&self, a: u8) -> bool {
        self.transitions@.contains_key(a)
    }

    /// An untrained chain.
    pub fn new() -> (c: MarkovChain)
        ensures
            forall|a: u8, b: u8| #[trigger] c.count(a, b) == 0,
            forall|a: u8| #[trigger] c.total(a) == 0 && !c.knows(a),
    {
        MarkovChain { transitions: HashMap::new(), totals: HashMap::new() }
    }

    /// Count one more `a` followed by `b`.
    fn bump(&mut self, a: u8, b: u8)
        requires
            old(self).count(a, b) < u32::MAX,
            old(self).total(a) < u32::MAX,
        ensures
            forall|x: u8, y: u8| #[trigger] final(self).count(x, y) == old(self).count(x, y) + (if x == a && y == b {
                1nat
            } else {
                0nat
            }),
            forall|x: u8| #[trigger] final(self).total(x) == old(self).total(x) + (if x == a {
                1nat
            } else {
                0nat
            }),
            forall|x: u8| #[trigger] final(self).knows(x) == (old(self).knows(x) || x == a),
    {
        let mut inner = match self.transitions.remove(&a) {
            Some(m) => m,
            None => HashMap::new(),
        };
        let c = match inner.get(&b) {
            Some(v) => *v,
            None => 0,
        };
        inner.insert(b, c + 1);
        self.transitions.insert(a, inner);
        let t = match self.totals.get(&a) {
            Some(v) => *v,
            None => 0,
        };
        self.totals.insert(a, t + 1);
        proof {
            assert forall|x: u8, y: u8| #[trigger] self.count(x, y) == old(self).count(x, y) + (if x == a && y == b {
                1nat
            } else {
                0nat
            }) by {
                if x == a {
                    assert(self.transitions@[a]@ == inner@);
                }
            }
        }
    }

    /// Learn the transitions between neighbouring notes of `sequence`.
    pub fn train(&mut self, sequence: &[u8])
        requires
            forall|a: u8, b: u8| #[trigger] old(self).count(a, b) + sequence@.len() <= u32::MAX,
            forall|a: u8| #[trigger] old(self).total(a) + sequence@.len() <= u32::MAX,
        ensures
            forall|a: u8, b: u8| #[trigger] final(self).count(a, b) == old(self).count(a, b) + pair_count(
                sequence@,
                sequence@.len() as int,
                a,
                b,
            ),
            forall|a: u8| #[trigger] final(self).total(a) == old(self).total(a) + from_count(sequence@, sequence@.len() as int, a),
            forall|a: u8| #[trigger] final(self).knows(a) == (old(self).knows(a) || from_count(sequence@, sequence@.len() as int, a) > 0),
    {
        let n = sequence.len();
        if n < 2 {
            return;
        }
        let mut i: usize = 1;
        while i < n
            invariant
                1 <= i <= n,
                n == sequence@.len(),
                forall|a: u8, b: u8| #[trigger] self.count(a, b) == old(self).count(a, b) + pair_count(sequence@, i as int, a, b),
                forall|a: u8| #[trigger] self.total(a) == old(self).total(a) + from_count(sequence@, i as int, a),
                forall|a: u8| #[trigger] self.knows(a) == (old(self).knows(a) || from_count(sequence@, i as int, a) > 0),
                forall|a: u8, b: u8| #[trigger] old(self).count(a, b) + sequence@.len() <= u32::MAX,
                forall|a: u8| #[trigger] old(self).total(a) + sequence@.len() <= u32::MAX,
            decreases n - i,
        {
            let a = sequence[i - 1];
            let b = sequence[i];
            proof {
                lemma_counts_bounded(sequence@, i as int, a, b);
            }
            self.bump(a, b);
            i = i + 1;
        }
    }

    /// Forget everything learned.
    pub fn reset(&mut self)
        ensures
            forall|a: u8, b: u8| #[trigger] final(self).count(a, b) == 0,
            forall|a: u8| #[trigger] final(self).total(a) == 0 && !final(self).knows(a),
    {
        self.transitions.clear();
        self.totals.clear();
    }

    /// How often anything followed `a`, if anything did.
    pub fn total_of(&self, a: u8) -> (r: Option<u32>)
        ensures
            match r {
                Some(t) => self.total(a) == t,
                None => self.total(a) == 0,
            },
            r.is_some() == self.has_total(a),
    {
        match self.totals.get(&a) {
            Some(v) => Some(*v),
            None => None,
        }
    }

    /// The notes that followed `a`, each once with its count, in the map's
    /// own order; `None` when nothing was learned from `a`.
    pub fn transitions_from(&self, a: u8) -> (r: Option<Vec<(u8, u32)>>)
        ensures
            r.is_some() == self.knows(a),
            r.is_some() ==> forall|i: int| 0 <= i < r.unwrap()@.len() ==> self.count(a, (#[trigger] r.unwrap()@[i]).0) == r.unwrap()@[i].1,
            r.is_some() ==> forall|i: int, j: int|
                0 <= i < j < r.unwrap()@.len() ==> (#[trigger] r.unwrap()@[i]).0 != (#[trigger] r.unwrap()@[j]).0,
            r.is_some() ==> forall|b: u8| #[trigger] self.count(a, b) > 0 ==> lists_note(r.unwrap()@, b),
    {
        match self.transitions.get(&a) {
            None => None,
            Some(inner) => {
                let mut out: Vec<(u8, u32)> = Vec::new();
                let ghost sq = IteratorSpec::remaining(&vstd::std_specs::hash::spec_hash_map_iter(inner));
                for e in it: inner.iter()
                    invariant
                        obeys_key_model::<u8>(),
                        self.transitions@.contains_key(a),
                        self.transitions@[a] == *inner,
                        it.seq() == sq,
                        out@.len() == it.index(),
                        forall|i: int| 0 <= i < out@.len() ==> (#[trigger] out@[i]) == (*sq[i].0, *sq[i].1),
                    ensures
                        out@.len() == sq.len(),
                        forall|i: int| 0 <= i < out@.len() ==> (#[trigger] out@[i]) == (*sq[i].0, *sq[i].1),
                {
                    out.push((*e.0, *e.1));
                }
                proof {
                    assert(sq.len() == inner@.dom().len());
                    assert forall|i: int| 0 <= i < out@.len() implies self.count(a, (#[trigger] out@[i]).0) == out@[i].1 by {
                        assert(inner@.contains_key(*sq[i].0) && inner@[*sq[i].0] == *sq[i].1);
                    }
                    assert forall|i: int, j: int| 0 <= i < j < out@.len() implies (#[trigger] out@[i]).0 != (#[trigger] out@[j]).0 by {
                        assert(inner@.contains_key(*sq[i].0) && inner@[*sq[i].0] == *sq[i].1);
                        assert(inner@.contains_key(*sq[j].0) && inner@[*sq[j].0] == *sq[j].1);
                        if out@[i].0 == out@[j].0 {
                            assert(sq[i] == sq[j]);
                        }
                    }
                    assert forall|b: u8| #[trigger] self.count(a, b) > 0 implies exists|i: int| 0 <= i < out@.len() && (#[trigger] out@[i]).0 == b by {
                        assert(inner@.contains_key(b));
                        assert(sq.contains((&b, &inner@[b])));
                        let j = choose|j: int| 0 <= j < sq.len() && sq[j] == (&b, &inner@[b]);
                        assert(out@[j].0 == b);
                    }
                    assert(self.knows(a));
                }
                proof {
                    assert(forall|i: int| 0 <= i < out@.len() ==> self.count(a, (#[trigger] out@[i]).0) == out@[i].1);
                    assert(forall|i: int, j: int| 0 <= i < j < out@.len() ==> (#[trigger] out@[i]).0 != (#[trigger] out@[j]).0);
                    assert(forall|b: u8| #[trigger] self.count(a, b) > 0 ==> lists_note(out@, b));
                }
                Some(out)
            },
        }
    }
}

/// `v` has an entry for note `b`.
pub open spec fn lists_note(v: Seq<(u8, u32)>, b: u8) -> bool {
    exists|i: int| 0 <= i < v.len() && (#[trigger] v[i]).0 == b
}

proof fn lemma_counts_bounded(s: Seq<u8>, i: int, a: u8, b: u8)
    requires
        1 <= i < s.len(),
    ensures
        pair_count(s, i, a, b) <= i - 1,
        from_count(s, i, a) <= i - 1,
    decreases i,
{
    if i > 1 {
        lemma_counts_bounded(s, i - 1, a, b);
    }
}

/// The note picked for a roll of `pick`: the first target whose running
/// count total exceeds `pick`, else `current`.
pub open spec fn pick_spec(t: Seq<(u8, u32)>, pick: u32, current: u8, i: int, acc: int) -> u8
    decreases t.len() - i,
{
    if i >= t.len() {
        current
    } else if acc + t[i].1 > pick {
        t[i].0
    } else {
        pick_spec(t, pick, current, i + 1, acc + t[i].1)
    }
}

/// Sum of the counts of `t[..n]`.
pub open spec fn count_sum(t: Seq<(u8, u32)>, n: int) -> int
    decreases n,
{
    if n <= 0 {
        0
    } else {
        count_sum(t, n - 1) + t[n - 1].1
    }
}

/// Pick the next note from `targets` for a roll of `pick` in
/// `0..total`: walking the targets in order, the first whose running count
/// total exceeds `pick`; `current` when none does.
pub fn pick_target(targets: &[(u8, u32)], pick: u32, current: u8) -> (r: u8)
    requires
        count_sum(targets@, targets@.len() as int) <= u32::MAX,
    ensures
        r == pick_spec(targets@, pick, current, 0, 0),
{
    let mut acc: u32 = 0;
    let mut i: usize = 0;
    while i < targets.len()
        invariant
            i <= targets@.len(),
            acc == count_sum(targets@, i as int),
            count_sum(targets@, targets@.len() as int) <= u32::MAX,
            pick_spec(targets@, pick, current, 0, 0) == pick_spec(targets@, pick, current, i as int, acc as int),
        decreases targets@.len() - i,
    {
        proof {
            lemma_count_sum_mono(targets@, i as int + 1, targets@.len() as int);
        }
        acc = acc + targets[i].1;
        if acc > pick {
            return targets[i].0;
        }
        i = i + 1;
    }
    current
}

proof fn lemma_count_sum_mono(t: Seq<(u8, u32)>, i: int, j: int)
    requires
        0 <= i <= j <= t.len(),
    ensures
        count_sum(t, i) <= count_sum(t, j),
    decreases j,
{
    if j > i {
        lemma_count_sum_mono(t, i, j - 1);
    }
}

/// One step of the 64-bit linear congruential generator.
pub open spec fn lcg_step(s: u64) -> u64 {
    ((s as int * 6_364_136_223_846_793_005 + 1_442_695_040_888_963_407) % 0x1_0000_0000_0000_0000) as u64
}

/// Minimal linear congruential generator.
pub struct LcgRng {
    state: u64,
}

impl LcgRng {
    /// The generator's current state.
    pub closed spec fn state_spec(self) -> u64 {
        self.state
    }

    /// A generator whose state is the seed mixed with a fixed constant.
    pub fn new(seed: u64) -> (r: LcgRng)
        ensures
            r.state_spec() == seed ^ 0x6c62_272e_07bb_0142u64,
    {
        LcgRng { state: seed ^ 0x6c62_272e_07bb_0142 }
    }

    /// Advance the state (`state * 6364136223846793005 + 1442695040888963407`,
    /// wrapping) and return the new state.
    pub fn next_u64(&mut self) -> (r: u64)
        ensures
            r == lcg_step(old(self).state_spec()),
            final(self).state_spec() == r,
    {
        let m = self.state.wrapping_mul(6_364_136_223_846_793_005);
        let s = m.wrapping_add(1_442_695_040_888_963_407);
        proof {
            let x = old(self).state as int;
            let p = x * 6_364_136_223_846_793_005;
            assert(m == p % 0x1_0000_0000_0000_0000);
            assert(s == (m + 1_442_695_040_888_963_407) % 0x1_0000_0000_0000_0000);
            vstd::arithmetic::div_mod::lemma_add_mod_noop(p, 1_442_695_040_888_963_407, 0x1_0000_0000_0000_0000);
            vstd::arithmetic::div_mod::lemma_mod_twice(1_442_695_040_888_963_407, 0x1_0000_0000_0000_0000);
        }
        self.state = s;
        s
    }
}

/// Applies probability gating to a sequence.
pub struct StochasticGate {
    pub rng: LcgRng,
}

impl StochasticGate {
    /// A gate whose generator is seeded with `seed`.
    pub fn new(seed: u64) -> (g: StochasticGate)
        ensures
            g.rng.state_spec() == seed ^ 0x6c62_272e_07bb_0142u64,
    {
        StochasticGate { rng: LcgRng::new(seed) }
    }
}

} // verus!
