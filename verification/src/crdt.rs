//! Conflict-free replicated data types for collaborative editing.
//!
//! A grow-only set whose merge is set union, a Lamport clock for causal
//! ordering, a last-write-wins register ordered by Lamport timestamps, and
//! a log of operations kept in causal order for replay on reconnect.

use std::collections::HashSet;
use std::hash::Hash;
use vstd::prelude::*;
use vstd::std_specs::hash::obeys_key_model;
use vstd::std_specs::iter::IteratorSpec;

verus! {

broadcast use vstd::std_specs::hash::group_hash_axioms;

/// A grow-only CRDT set: elements can be added but never removed, and merging
/// two replicas is the set union.
pub struct GrowOnlySet<T: Eq + Hash + Clone> {
    elements: HashSet<T>,
}

impl<T: Eq + Hash + Clone> View for GrowOnlySet<T> {
    type V = Set<T>;

    closed spec fn view(&self) -> Set<T> {
        self.elements@
    }
}

/// Cloning a `T` gives back an equal value.
pub open spec fn clone_is_exact<T: Clone>() -> bool {
    forall|a: T, b: T| #[trigger] cloned(a, b) ==> a == b
}

/// `e` is a clone of some element of `src`.
pub open spec fn came_from<T: Clone>(src: Set<T>, e: T) -> bool {
    exists|o: T| src.contains(o) && #[trigger] cloned(o, e)
}

/// `s` holds a clone of `o`.
pub open spec fn kept_clone<T: Clone>(s: Set<T>, o: T) -> bool {
    exists|x: T| s.contains(x) && #[trigger] cloned(o, x)
}

impl<T: Eq + Hash + Clone> GrowOnlySet<T> {
    /// The empty set.
    pub fn new() -> (s: Self)
        ensures
            s@ == Set::<T>::empty(),
    {
        GrowOnlySet { elements: HashSet::new() }
    }

    /// Add an element.
    pub fn add(&mut self, v: T)
        ensures
            obeys_key_model::<T>() ==> final(self)@ == old(self)@.insert(v),
    {
        self.elements.insert(v);
    }

    /// Whether `v` is in the set.
    pub fn contains(&self, v: &T) -> (r: bool)
        ensures
            obeys_key_model::<T>() ==> r == self@.contains(*v),
    {
        self.elements.contains(v)
    }

    /// Merge another replica into this one: afterwards this set holds every
    /// element it held before and a clone of every element of `other`, and
    /// nothing else.
    pub fn merge(&mut self, other: &Self)
        requires
            obeys_key_model::<T>(),
        ensures
            old(self)@.subset_of(final(self)@),
            forall|e: T| #[trigger]
                final(self)@.contains(e) ==> (old(self)@.contains(e) || came_from(other@, e)),
            forall|o: T| #[trigger] other@.contains(o) ==> kept_clone(final(self)@, o),
            clone_is_exact::<T>() ==> final(self)@ == old(self)@.union(other@),
    {
        let ghost start = self@;
        let ghost src = other@;
        for e in it: other.elements.iter()
            invariant
                obeys_key_model::<T>(),
                it.seq().unref().to_set() == src,
                start.subset_of(self@),
                forall|x: T| #[trigger] self@.contains(x) ==> (start.contains(x) || came_from(src, x)),
                forall|i: int| 0 <= i < it.index() ==> kept_clone(self@, *#[trigger] it.seq()[i]),
                src == other@,
            ensures
                forall|o: T| #[trigger] src.contains(o) ==> kept_clone(self@, o),
        {
            let c = e.clone();
            let ghost i = it.index();
            proof {
                assert(it.seq().unref()[i] == *e);
                assert(src.contains(*e));
                assert(cloned(*e, c));
            }
            self.elements.insert(c);
            proof {
                assert(self@.contains(c));
                assert(kept_clone(self@, *e));
                assert forall|x: T| #[trigger] self@.contains(x) implies (start.contains(x) || came_from(src, x)) by {
                    if x == c {
                        assert(src.contains(*e) && cloned(*e, c));
                    }
                }
            }
        }
        proof {
            if clone_is_exact::<T>() {
                assert(self@ =~= start.union(src));
            }
        }
    }

    /// The elements, each once, in the set's own order.
    pub fn iter(&self) -> (r: std::collections::hash_set::Iter<'_, T>)
        ensures
            obeys_key_model::<T>() ==> IteratorSpec::remaining(&r).unref().to_set() == self@ && IteratorSpec::remaining(&r).no_duplicates(),
    {
        self.elements.iter()
    }

    /// Number of elements.
    pub fn len(&self) -> (r: usize)
        ensures
            obeys_key_model::<T>() ==> r == self@.len(),
    {
        self.elements.len()
    }

    /// Whether the set holds no element.
    pub fn is_empty(&self) -> (r: bool)
        ensures
            r == self@.is_empty(),
    {
        self.elements.is_empty()
    }
}

/// Logical clock for causal ordering of operations. Each site keeps its own
/// counter: a local operation ticks it, a received operation moves it past
/// both clocks. The site is named by the 128-bit value of its identifier.
#[derive(Debug, Clone, Copy, PartialEq, Eq, Structural)]
pub struct LamportClock {
    /// Site identifier (unique per peer).
    pub site_id: u128,
    /// Current logical time.
    pub time: u64,
}

impl LamportClock {
    /// A clock for `site_id` at time zero.
    pub fn new(site_id: u128) -> (c: LamportClock)
        ensures
            c.site_id == site_id,
            c.time == 0,
    {
        LamportClock { site_id, time: 0 }
    }

    /// Advance before sending an operation; returns the new time.
    pub fn tick(&mut self) -> (t: u64)
        requires
            old(self).time < u64::MAX,
        ensures
            final(self).time == old(self).time + 1,
            final(self).site_id == old(self).site_id,
            t == final(self).time,
    {
        self.time = self.time + 1;
        self.time
    }

    /// Advance on receiving an operation stamped `remote_time`: the clock
    /// becomes one past the later of the two.
    pub fn receive(&mut self, remote_time: u64)
        requires
            old(self).time < u64::MAX,
            remote_time < u64::MAX,
        ensures
            final(self).time == (if old(self).time >= remote_time {
                old(self).time
            } else {
                remote_time
            }) + 1,
            final(self).site_id == old(self).site_id,
    {
        let m = if self.time >= remote_time {
            self.time
        } else {
            remote_time
        };
        self.time = m + 1;
    }
}

/// A `(time, site)` pair; ordered by time, then by site, which makes the
/// order total across all peers.
#[derive(Debug, Clone, Copy, PartialEq, Eq, Structural)]
pub struct LamportTs {
    pub time: u64,
    pub site_id: u128,
}

impl LamportTs {
    /// `self` comes strictly after `other`.
    pub open spec fn after(self, other: LamportTs) -> bool {
        self.time > other.time || (self.time == other.time && self.site_id > other.site_id)
    }

    /// Whether `self` comes strictly after `other`.
    pub fn is_after(&self, other: &LamportTs) -> (r: bool)
        ensures
            r == self.after(*other),
    {
        self.time > other.time || (self.time == other.time && self.site_id > other.site_id)
    }
}

/// The later of two optional timestamps (a present one beats an absent one).
pub open spec fn later_ts(a: Option<LamportTs>, b: Option<LamportTs>) -> Option<LamportTs> {
    match (a, b) {
        (_, None) => a,
        (None, Some(_)) => b,
        (Some(x), Some(y)) => if y.after(x) {
            b
        } else {
            a
        },
    }
}

/// Merging last-write-wins registers settles on the same timestamp whichever
/// replica merges into which: the later of the two.
pub proof fn lemma_later_ts_commutes(a: Option<LamportTs>, b: Option<LamportTs>)
    ensures
        later_ts(a, b) == later_ts(b, a),
        later_ts(a, a) == a,
{
}

/// A register's `(value, timestamp)` after writing `v` stamped `ts`: the
/// write is kept when the register is empty or `ts` comes after the stored
/// timestamp.
pub open spec fn lww_step<T>(s: (Option<T>, Option<LamportTs>), v: T, ts: LamportTs) -> (Option<T>, Option<LamportTs>) {
    match s.1 {
        None => (Some(v), Some(ts)),
        Some(t) => if ts.after(t) {
            (Some(v), Some(ts))
        } else {
            s
        },
    }
}

/// An empty register's `(value, timestamp)` after the writes `ws[..k]`, in
/// order.
pub open spec fn lww_writes<T>(ws: Seq<(T, LamportTs)>, k: int) -> (Option<T>, Option<LamportTs>)
    decreases k,
{
    if k <= 0 {
        (None, None)
    } else {
        lww_step(lww_writes(ws, k - 1), ws[k - 1].0, ws[k - 1].1)
    }
}

/// The index of the first write among `ws[..k]` with the latest timestamp.
pub open spec fn latest_write<T>(ws: Seq<(T, LamportTs)>, k: int) -> int
    decreases k,
{
    if k <= 1 {
        0
    } else {
        let j = latest_write(ws, k - 1);
        if ws[k - 1].1.after(ws[j].1) {
            k - 1
        } else {
            j
        }
    }
}

/// After any writes to an empty register, it holds the write with the latest
/// timestamp (time, then site), the first one to reach it: no write's
/// timestamp comes after it and it comes after every earlier write's.
pub proof fn lemma_lww_keeps_latest<T>(ws: Seq<(T, LamportTs)>, k: int)
    requires
        1 <= k <= ws.len(),
    ensures
        0 <= latest_write(ws, k) < k,
        lww_writes(ws, k) == (Some(ws[latest_write(ws, k)].0), Some(ws[latest_write(ws, k)].1)),
        forall|i: int| 0 <= i < k ==> !(#[trigger] ws[i].1).after(ws[latest_write(ws, k)].1),
        forall|i: int| 0 <= i < latest_write(ws, k) ==> ws[latest_write(ws, k)].1.after((#[trigger] ws[i]).1),
    decreases k,
{
    if k > 1 {
        lemma_lww_keeps_latest(ws, k - 1);
        assert(lww_writes(ws, k) == lww_step(lww_writes(ws, k - 1), ws[k - 1].0, ws[k - 1].1));
    } else {
        assert(lww_writes(ws, 0) == (None::<T>, None::<LamportTs>));
        assert(lww_writes(ws, 1) == lww_step(lww_writes(ws, 0), ws[0].0, ws[0].1));
    }
}

/// Last-write-wins register: one value with the timestamp of its write. A
/// write with a later timestamp replaces it; others are ignored.
#[derive(Debug, Clone)]
pub struct LwwRegister<T: Clone> {
    value: Option<T>,
    ts: Option<LamportTs>,
}

impl<T: Clone> LwwRegister<T> {
    /// The current value, if any.
    pub closed spec fn value_spec(&self) -> Option<T> {
        self.value
    }

    /// The timestamp of the current value, if any.
    pub closed spec fn ts_spec(&self) -> Option<LamportTs> {
        self.ts
    }

    /// Both or neither are set.
    pub closed spec fn wf(&self) -> bool {
        self.value.is_some() == self.ts.is_some()
    }

    /// An empty register.
    pub fn new() -> (r: Self)
        ensures
            r.wf(),
            r.value_spec() == Option::<T>::None,
            r.ts_spec() == Option::<LamportTs>::None,
    {
        LwwRegister { value: None, ts: None }
    }

    /// Write `value` stamped `ts`; it is kept only if the register is empty or
    /// `ts` comes after the stored timestamp.
    pub fn set(&mut self, value: T, ts: LamportTs)
        requires
            old(self).wf(),
        ensures
            final(self).wf(),
            (match old(self).ts_spec() {
                None => true,
                Some(t) => ts.after(t),
            }) ==> final(self).value_spec() == Some(value) && final(self).ts_spec() == Some(ts),
            !(match old(self).ts_spec() {
                None => true,
                Some(t) => ts.after(t),
            }) ==> *final(self) == *old(self),
            (final(self).value_spec(), final(self).ts_spec()) == lww_step((old(self).value_spec(), old(self).ts_spec()), value, ts),
    {
        let newer = match &self.ts {
            None => true,
            Some(t) => ts.is_after(t),
        };
        if newer {
            self.value = Some(value);
            self.ts = Some(ts);
        }
    }

    /// The current value.
    pub fn get(&self) -> (r: Option<&T>)
        ensures
            r == match self.value_spec() {
                Some(v) => Some(&v),
                None => None,
            },
    {
        self.value.as_ref()
    }

    /// Merge another replica: its value is written here with its timestamp,
    /// so the later write wins.
    pub fn merge(&mut self, other: &Self)
        requires
            old(self).wf(),
            other.wf(),
        ensures
            final(self).wf(),
            final(self).ts_spec() == later_ts(old(self).ts_spec(), other.ts_spec()),
            (match (old(self).ts_spec(), other.ts_spec()) {
                (_, None) => *final(self) == *old(self),
                (None, Some(t)) => final(self).ts_spec() == Some(t) && cloned(other.value_spec().unwrap(), final(self).value_spec().unwrap()),
                (Some(a), Some(b)) => if b.after(a) {
                    final(self).ts_spec() == Some(b) && cloned(other.value_spec().unwrap(), final(self).value_spec().unwrap())
                } else {
                    *final(self) == *old(self)
                },
            }),
    {
        match (&other.value, &other.ts) {
            (Some(v), Some(t)) => {
                let c = v.clone();
                proof {
                    assert(cloned(*v, c));
                }
                self.set(c, *t);
            },
            _ => {},
        }
    }
}


/// One replicated operation: its id, the site that made it, its Lamport
/// time and what it does.
pub struct DeltaOp<P> {
    pub op_id: u128,
    pub site_id: u128,
    pub ts: u64,
    pub payload: P,
}

/// Where an operation sorts in a log: by Lamport time, then by site.
pub open spec fn op_key<P>(op: DeltaOp<P>) -> (u64, u128) {
    (op.ts, op.site_id)
}

/// Key `a` sorts before key `b`.
pub open spec fn key_before(a: (u64, u128), b: (u64, u128)) -> bool {
    a.0 < b.0 || (a.0 == b.0 && a.1 < b.1)
}

/// The operations are in strictly increasing key order (no key twice).
pub open spec fn causal_order<P>(s: Seq<DeltaOp<P>>) -> bool {
    forall|i: int, j: int| 0 <= i < j < s.len() ==> key_before(op_key(#[trigger] s[i]), op_key(#[trigger] s[j]))
}

/// How many operations of `s` sort before key `k` (counted from the back
/// while they do not).
pub open spec fn lower_bound<P>(s: Seq<DeltaOp<P>>, k: (u64, u128)) -> int
    decreases s.len(),
{
    if s.len() == 0 {
        0
    } else if key_before(op_key(s.last()), k) {
        s.len() as int
    } else {
        lower_bound(s.drop_last(), k)
    }
}

proof fn lemma_lower_bound<P>(s: Seq<DeltaOp<P>>, k: (u64, u128))
    requires
        causal_order(s),
    ensures
        0 <= lower_bound(s, k) <= s.len(),
        forall|j: int| 0 <= j < lower_bound(s, k) ==> key_before(op_key(#[trigger] s[j]), k),
        forall|j: int| lower_bound(s, k) <= j < s.len() ==> !key_before(op_key(#[trigger] s[j]), k),
    decreases s.len(),
{
    if s.len() > 0 {
        let d = s.drop_last();
        assert(causal_order(d)) by {
            assert forall|i: int, j: int| 0 <= i < j < d.len() implies key_before(op_key(#[trigger] d[i]), op_key(#[trigger] d[j])) by {
                assert(d[i] == s[i] && d[j] == s[j]);
            }
        }
        lemma_lower_bound(d, k);
        if key_before(op_key(s.last()), k) {
            assert forall|j: int| 0 <= j < s.len() implies key_before(op_key(#[trigger] s[j]), k) by {
                if j < s.len() - 1 {
                    assert(key_before(op_key(s[j]), op_key(s[s.len() - 1])));
                }
            }
        } else {
            assert forall|j: int| 0 <= j < lower_bound(s, k) implies key_before(op_key(#[trigger] s[j]), k) by {
                assert(d[j] == s[j]);
            }
            assert forall|j: int| lower_bound(s, k) <= j < s.len() implies !key_before(op_key(#[trigger] s[j]), k) by {
                if j < s.len() - 1 {
                    assert(d[j] == s[j]);
                }
            }
        }
    }
}

/// A log of operations in causal order (by Lamport time, then site), at
/// most one per key; used to replay history on reconnect.
pub struct OpLog<P> {
    ops: Vec<DeltaOp<P>>,
}

impl<P> View for OpLog<P> {
    type V = Seq<DeltaOp<P>>;

    closed spec fn view(&self) -> Seq<DeltaOp<P>> {
        self.ops@
    }
}

impl<P> OpLog<P> {
    /// The log is in causal order.
    pub closed spec fn wf(&self) -> bool {
        causal_order(self.ops@)
    }

    /// An empty log.
    pub fn new() -> (r: Self)
        ensures
            r.wf(),
            r@ == Seq::<DeltaOp<P>>::empty(),
    {
        OpLog { ops: Vec::new() }
    }

    /// Record an operation at its place in causal order; one with the key
    /// of a recorded operation takes its place.
    pub fn push(&mut self, op: DeltaOp<P>)
        requires
            old(self).wf(),
        ensures
            final(self).wf(),
            ({
                let i = lower_bound(old(self)@, op_key(op));
                if i < old(self)@.len() && op_key(old(self)@[i]) == op_key(op) {
                    final(self)@ == old(self)@.update(i, op)
                } else {
                    final(self)@ == old(self)@.insert(i, op)
                }
            }),
    {
        let ghost s = self.ops@;
        let ghost k = op_key(op);
        proof {
            assert(s.take(s.len() as int) =~= s);
        }
        let mut i = self.ops.len();
        while i > 0 && !(self.ops[i - 1].ts < op.ts || (self.ops[i - 1].ts == op.ts && self.ops[i - 1].site_id < op.site_id))
            invariant
                i <= s.len(),
                s == self.ops@,
                k == op_key(op),
                lower_bound(s, k) == lower_bound(s.take(i as int), k),
            decreases i,
        {
            proof {
                assert(s.take(i as int).drop_last() =~= s.take(i as int - 1));
            }
            i = i - 1;
        }
        proof {
            if i == 0 {
                assert(s.take(0).len() == 0);
            } else {
                assert(s.take(i as int).last() == s[i as int - 1]);
            }
            assert(lower_bound(s, k) == i);
            lemma_lower_bound(s, k);
        }
        if i < self.ops.len() && self.ops[i].ts == op.ts && self.ops[i].site_id == op.site_id {
            self.ops.set(i, op);
            proof {
                assert forall|a: int, b: int| 0 <= a < b < self.ops@.len() implies key_before(
                    op_key(#[trigger] self.ops@[a]),
                    op_key(#[trigger] self.ops@[b]),
                ) by {
                    if a == i {
                        assert(key_before(op_key(s[a]), op_key(s[b])));
                    } else if b == i {
                        assert(key_before(op_key(s[a]), op_key(s[b])));
                    }
                }
            }
        } else {
            self.ops.insert(i, op);
            proof {
                assert forall|a: int, b: int| 0 <= a < b < self.ops@.len() implies key_before(
                    op_key(#[trigger] self.ops@[a]),
                    op_key(#[trigger] self.ops@[b]),
                ) by {
                    if b < i {
                        assert(self.ops@[a] == s[a] && self.ops@[b] == s[b]);
                    } else if b == i {
                        assert(self.ops@[a] == s[a]);
                    } else if a == i {
                        assert(self.ops@[b] == s[b - 1]);
                        assert(!key_before(op_key(s[b - 1]), k));
                    } else if a < i {
                        assert(self.ops@[a] == s[a] && self.ops@[b] == s[b - 1]);
                        if b - 1 >= i {
                            assert(key_before(op_key(s[a]), k));
                            assert(!key_before(op_key(s[b - 1]), k));
                        }
                    } else {
                        assert(self.ops@[a] == s[a - 1] && self.ops@[b] == s[b - 1]);
                    }
                }
            }
        }
    }

    /// The operations in causal order.
    pub fn iter(&self) -> (r: &[DeltaOp<P>])
        ensures
            r@ == self@,
    {
        self.ops.as_slice()
    }

    /// The operations from key (`ts`, `site_id`) on, in causal order: what a
    /// site that has seen everything before needs to catch up.
    pub fn since(&self, ts: u64, site_id: u128) -> (r: Vec<&DeltaOp<P>>)
        requires
            self.wf(),
        ensures
            r@.map_values(|x: &DeltaOp<P>| *x) == self@.skip(lower_bound(self@, (ts, site_id))),
    {
        let ghost s = self.ops@;
        let ghost k = (ts, site_id);
        proof {
            assert(s.take(s.len() as int) =~= s);
        }
        let mut i = self.ops.len();
        while i > 0 && !(self.ops[i - 1].ts < ts || (self.ops[i - 1].ts == ts && self.ops[i - 1].site_id < site_id))
            invariant
                i <= s.len(),
                s == self.ops@,
                k == (ts, site_id),
                lower_bound(s, k) == lower_bound(s.take(i as int), k),
            decreases i,
        {
            proof {
                assert(s.take(i as int).drop_last() =~= s.take(i as int - 1));
            }
            i = i - 1;
        }
        proof {
            if i == 0 {
                assert(s.take(0).len() == 0);
            } else {
                assert(s.take(i as int).last() == s[i as int - 1]);
            }
            assert(lower_bound(s, k) == i);
        }
        let mut r: Vec<&DeltaOp<P>> = Vec::new();
        let mut j = i;
        while j < self.ops.len()
            invariant
                i <= j <= s.len(),
                s == self.ops@,
                r@.map_values(|x: &DeltaOp<P>| *x) == s.subrange(i as int, j as int),
            decreases s.len() - j,
        {
            let ghost rb = r@;
            r.push(&self.ops[j]);
            proof {
                assert(r@ == rb.push(&self.ops@[j as int]));
                assert(r@.map_values(|x: &DeltaOp<P>| *x) =~= rb.map_values(|x: &DeltaOp<P>| *x).push(s[j as int]));
                assert(r@.map_values(|x: &DeltaOp<P>| *x) =~= s.subrange(i as int, j as int + 1));
            }
            j = j + 1;
        }
        proof {
            assert(s.subrange(i as int, s.len() as int) =~= s.skip(i as int));
        }
        r
    }

    /// How many operations the log holds.
    pub fn len(&self) -> (r: usize)
        ensures
            r == self@.len(),
    {
        self.ops.len()
    }

    /// The log holds no operation.
    pub fn is_empty(&self) -> (r: bool)
        ensures
            r == (self@.len() == 0),
    {
        self.ops.len() == 0
    }
}

} // verus!
