//! Clip identity in an arrangement: every id is below the allocator and no
//! two clips share one, and every edit of the arrangement keeps it so.

use crate::arrangement::{
    clip_of, lane_replaced, no_clip_with_id, others_same, pushed_primary, valid_loc, ArrangementTrack, Clip,
};
use crate::rational::RationalTime;
use vstd::prelude::*;

verus! {

broadcast use vstd::seq_lib::group_seq_properties;

/// Every clip id is below `next`, and no two clips share an id.
pub open spec fn ids_fresh(tracks: Seq<ArrangementTrack>, next: u64) -> bool {
    &&& forall|t: int, l: int, c: int| valid_loc(tracks, t, l, c) ==> #[trigger] clip_of(tracks, t, l, c).id < next
    &&& forall|t1: int, l1: int, c1: int, t2: int, l2: int, c2: int|
        #![trigger clip_of(tracks, t1, l1, c1), clip_of(tracks, t2, l2, c2)]
        valid_loc(tracks, t1, l1, c1) && valid_loc(tracks, t2, l2, c2) && !(t1 == t2 && l1 == l2 && c1 == c2)
            ==> clip_of(tracks, t1, l1, c1).id != clip_of(tracks, t2, l2, c2).id
}

/// The clips of a lane have pairwise different ids.
pub open spec fn distinct_ids(s: Seq<Clip>) -> bool {
    forall|i: int, j: int| 0 <= i < s.len() && 0 <= j < s.len() && i != j ==> #[trigger] s[i].id != #[trigger] s[j].id
}

/// Every id in `n` is below `next2`, and each is either at least `next` or
/// the id of a clip of `o`.
pub open spec fn ids_from(o: Seq<Clip>, n: Seq<Clip>, next: u64, next2: u64) -> bool {
    forall|i: int|
        0 <= i < n.len() ==> #[trigger] n[i].id < next2 && (n[i].id >= next || exists|k: int| 0 <= k < o.len() && o[k].id == n[i].id)
}

/// Replacing the clips of one lane by clips with distinct ids, each new to
/// the arrangement or taken from the lane, keeps the ids fresh.
proof fn lemma_replace_lane(
    b: Seq<ArrangementTrack>,
    a: Seq<ArrangementTrack>,
    t: int,
    l: int,
    n: Seq<Clip>,
    next: u64,
    next2: u64,
)
    requires
        ids_fresh(b, next),
        next <= next2,
        0 <= t < b.len(),
        0 <= l < b[t].lanes@.len(),
        others_same(b, a, t),
        lane_replaced(b[t], a[t], l, n),
        distinct_ids(n),
        ids_from(b[t].lanes@[l].clips@, n, next, next2),
    ensures
        ids_fresh(a, next2),
{
    let o = b[t].lanes@[l].clips@;
    assert forall|t1: int, l1: int, c1: int| valid_loc(a, t1, l1, c1) implies #[trigger] clip_of(a, t1, l1, c1).id < next2 by {
        if t1 != t {
            assert(a[t1] == b[t1]);
            assert(valid_loc(b, t1, l1, c1));
            assert(clip_of(a, t1, l1, c1) == clip_of(b, t1, l1, c1));
        } else if l1 != l {
            assert(a[t].lanes@[l1] == b[t].lanes@[l1]);
            assert(valid_loc(b, t1, l1, c1));
            assert(clip_of(a, t1, l1, c1) == clip_of(b, t1, l1, c1));
        } else {
            assert(clip_of(a, t1, l1, c1) == n[c1]);
            assert(n[c1].id < next2);
        }
    }
    assert forall|t1: int, l1: int, c1: int, t2: int, l2: int, c2: int|
        valid_loc(a, t1, l1, c1) && valid_loc(a, t2, l2, c2) && !(t1 == t2 && l1 == l2 && c1 == c2) implies clip_of(
        a,
        t1,
        l1,
        c1,
    ).id != clip_of(a, t2, l2, c2).id by {
        let in1 = t1 == t && l1 == l;
        let in2 = t2 == t && l2 == l;
        if !in1 {
            if t1 != t {
                assert(a[t1] == b[t1]);
            } else {
                assert(a[t].lanes@[l1] == b[t].lanes@[l1]);
            }
            assert(valid_loc(b, t1, l1, c1) && clip_of(a, t1, l1, c1) == clip_of(b, t1, l1, c1));
        }
        if !in2 {
            if t2 != t {
                assert(a[t2] == b[t2]);
            } else {
                assert(a[t].lanes@[l2] == b[t].lanes@[l2]);
            }
            assert(valid_loc(b, t2, l2, c2) && clip_of(a, t2, l2, c2) == clip_of(b, t2, l2, c2));
        }
        if in1 && in2 {
            assert(clip_of(a, t1, l1, c1) == n[c1] && clip_of(a, t2, l2, c2) == n[c2]);
        } else if in1 {
            let x = n[c1];
            assert(clip_of(a, t1, l1, c1) == x);
            assert(clip_of(b, t2, l2, c2).id < next);
            if x.id < next {
                let k = choose|k: int| 0 <= k < o.len() && o[k].id == x.id;
                assert(clip_of(b, t, l, k) == o[k]);
                assert(clip_of(b, t, l, k).id != clip_of(b, t2, l2, c2).id);
            }
        } else if in2 {
            let x = n[c2];
            assert(clip_of(a, t2, l2, c2) == x);
            assert(clip_of(b, t1, l1, c1).id < next);
            if x.id < next {
                let k = choose|k: int| 0 <= k < o.len() && o[k].id == x.id;
                assert(clip_of(b, t, l, k) == o[k]);
                assert(clip_of(b, t, l, k).id != clip_of(b, t1, l1, c1).id);
            }
        } else {
            assert(clip_of(b, t1, l1, c1).id != clip_of(b, t2, l2, c2).id);
        }
    }
}

/// The clips of one lane of fresh tracks have distinct ids below `next`.
proof fn lemma_lane_distinct(b: Seq<ArrangementTrack>, t: int, l: int, next: u64)
    requires
        ids_fresh(b, next),
        0 <= t < b.len(),
        0 <= l < b[t].lanes@.len(),
    ensures
        distinct_ids(b[t].lanes@[l].clips@),
        forall|i: int| 0 <= i < b[t].lanes@[l].clips@.len() ==> #[trigger] b[t].lanes@[l].clips@[i].id < next,
{
    let o = b[t].lanes@[l].clips@;
    assert forall|i: int, j: int| 0 <= i < o.len() && 0 <= j < o.len() && i != j implies #[trigger] o[i].id != #[trigger] o[j].id by {
        assert(clip_of(b, t, l, i) == o[i] && clip_of(b, t, l, j) == o[j]);
    }
    assert forall|i: int| 0 <= i < o.len() implies #[trigger] o[i].id < next by {
        assert(clip_of(b, t, l, i) == o[i]);
    }
}

/// Adding a clip under the allocator's id keeps the ids fresh, the
/// allocator moving past it.
pub proof fn lemma_add_clip_keeps_ids_fresh(b: Seq<ArrangementTrack>, a: Seq<ArrangementTrack>, t: int, c: Clip, next: u64)
    requires
        ids_fresh(b, next),
        next < u64::MAX,
        0 <= t < b.len(),
        c.id == next,
        others_same(b, a, t),
        pushed_primary(b[t], a[t], c),
    ensures
        ids_fresh(a, (next + 1) as u64),
{
    if b[t].lanes@.len() > 0 {
        let o = b[t].lanes@[0].clips@;
        lemma_lane_distinct(b, t, 0, next);
        let n = o.push(c);
        assert(distinct_ids(n)) by {
            assert forall|i: int, j: int| 0 <= i < n.len() && 0 <= j < n.len() && i != j implies #[trigger] n[i].id != #[trigger] n[j].id by {
                if i < o.len() && j < o.len() {
                    assert(n[i] == o[i] && n[j] == o[j]);
                } else if i < o.len() {
                    assert(n[i] == o[i] && o[i].id < next);
                } else {
                    assert(n[j] == o[j] && o[j].id < next);
                }
            }
        }
        assert(ids_from(o, n, next, (next + 1) as u64)) by {
            assert forall|i: int| 0 <= i < n.len() implies #[trigger] n[i].id < next + 1 && (n[i].id >= next || exists|k: int|
                0 <= k < o.len() && o[k].id == n[i].id) by {
                if i < o.len() {
                    assert(n[i] == o[i]);
                }
            }
        }
        assert(lane_replaced(b[t], a[t], 0, n));
        lemma_replace_lane(b, a, t, 0, n, next, (next + 1) as u64);
    } else {
        // The track had no lane: it now holds one lane with just `c`.
        assert forall|t1: int, l1: int, c1: int| valid_loc(a, t1, l1, c1) implies #[trigger] clip_of(a, t1, l1, c1).id < next + 1 by {
            if t1 != t {
                assert(a[t1] == b[t1]);
                assert(valid_loc(b, t1, l1, c1));
                assert(clip_of(a, t1, l1, c1) == clip_of(b, t1, l1, c1));
            } else {
                assert(l1 == 0 && c1 == 0);
                assert(a[t].lanes@[0].clips@ == seq![c]);
                assert(clip_of(a, t1, l1, c1) == c);
            }
        }
        assert forall|t1: int, l1: int, c1: int, t2: int, l2: int, c2: int|
            valid_loc(a, t1, l1, c1) && valid_loc(a, t2, l2, c2) && !(t1 == t2 && l1 == l2 && c1 == c2) implies clip_of(
            a,
            t1,
            l1,
            c1,
        ).id != clip_of(a, t2, l2, c2).id by {
            if t1 != t {
                assert(a[t1] == b[t1]);
                assert(valid_loc(b, t1, l1, c1) && clip_of(a, t1, l1, c1) == clip_of(b, t1, l1, c1));
            }
            if t2 != t {
                assert(a[t2] == b[t2]);
                assert(valid_loc(b, t2, l2, c2) && clip_of(a, t2, l2, c2) == clip_of(b, t2, l2, c2));
            }
        }
    }
}

/// Removing every clip with one id from a lane keeps the ids fresh.
pub proof fn lemma_delete_keeps_ids_fresh(
    b: Seq<ArrangementTrack>,
    a: Seq<ArrangementTrack>,
    t: int,
    l: int,
    id: u64,
    next: u64,
)
    requires
        ids_fresh(b, next),
        0 <= t < b.len(),
        0 <= l < b[t].lanes@.len(),
        others_same(b, a, t),
        lane_replaced(b[t], a[t], l, b[t].lanes@[l].clips@.filter(|x: Clip| x.id != id)),
    ensures
        ids_fresh(a, next),
{
    let o = b[t].lanes@[l].clips@;
    lemma_lane_distinct(b, t, l, next);
    let n = without_id(o, id);
    lemma_filter_ids(o, id);
    assert(ids_from(o, n, next, next)) by {
        assert forall|i: int| 0 <= i < n.len() implies #[trigger] n[i].id < next && (n[i].id >= next || exists|k: int|
            0 <= k < o.len() && o[k].id == n[i].id) by {
            assert(o.contains(n[i]));
            let k = choose|k: int| 0 <= k < o.len() && o[k] == n[i];
            assert(o[k].id == n[i].id);
        }
    }
    lemma_replace_lane(b, a, t, l, n, next, next);
}

/// The clips of `o` without id `id`.
pub open spec fn without_id(o: Seq<Clip>, id: u64) -> Seq<Clip> {
    o.filter(|x: Clip| x.id != id)
}

/// Filtering a lane keeps its ids distinct, and keeps only its own clips.
proof fn lemma_filter_ids(o: Seq<Clip>, id: u64)
    requires
        distinct_ids(o),
    ensures
        distinct_ids(without_id(o, id)),
        forall|i: int| 0 <= i < without_id(o, id).len() ==> o.contains(#[trigger] without_id(o, id)[i]),
    decreases o.len(),
{
    let p = |x: Clip| x.id != id;
    let n = without_id(o, id);
    assert(n == o.filter(p));
    if o.len() == 0 {
        assert(n =~= Seq::<Clip>::empty()) by {
            reveal(Seq::filter);
        }
    } else {
        let o1 = o.drop_last();
        let e = o.last();
        assert(o =~= o1.push(e));
        assert(distinct_ids(o1)) by {
            assert forall|i: int, j: int| 0 <= i < o1.len() && 0 <= j < o1.len() && i != j implies #[trigger] o1[i].id != #[trigger] o1[j].id by {
                assert(o1[i] == o[i] && o1[j] == o[j]);
            }
        }
        lemma_filter_ids(o1, id);
        let n1 = without_id(o1, id);
        assert(n1 == o1.filter(p));
        o1.lemma_filter_push(e, p);
        assert(o1.push(e).filter(p) == n);
        assert forall|i: int| 0 <= i < n1.len() implies #[trigger] n1[i].id != e.id by {
            assert(o1.contains(n1[i]));
            let k = choose|k: int| 0 <= k < o1.len() && o1[k] == n1[i];
            assert(o[k] == o1[k]);
            assert(o[o.len() - 1] == e);
            assert(o[k].id != o[o.len() - 1].id);
        }
        if p(e) {
            assert(n == n1.push(e));
            assert forall|i: int, j: int| 0 <= i < n.len() && 0 <= j < n.len() && i != j implies #[trigger] n[i].id != #[trigger] n[j].id by {
                if i < n1.len() && j < n1.len() {
                    assert(n[i] == n1[i] && n[j] == n1[j]);
                } else if i < n1.len() {
                    assert(n[i] == n1[i] && n[j] == e);
                } else {
                    assert(n[j] == n1[j] && n[i] == e);
                }
            }
            assert forall|i: int| 0 <= i < n.len() implies o.contains(#[trigger] n[i]) by {
                if i < n1.len() {
                    assert(n[i] == n1[i] && o1.contains(n1[i]));
                    let k = choose|k: int| 0 <= k < o1.len() && o1[k] == n1[i];
                    assert(o[k] == o1[k]);
                } else {
                    assert(n[i] == e && o[o.len() - 1] == e);
                }
            }
        } else {
            assert(n == n1);
            assert forall|i: int| 0 <= i < n.len() implies o.contains(#[trigger] n[i]) by {
                assert(o1.contains(n1[i]));
                let k = choose|k: int| 0 <= k < o1.len() && o1[k] == n1[i];
                assert(o[k] == o1[k]);
            }
        }
    }
}

/// Copying a clip of a lane to its end under the allocator's id keeps the
/// ids fresh, the allocator moving past it.
pub proof fn lemma_duplicate_keeps_ids_fresh(
    b: Seq<ArrangementTrack>,
    a: Seq<ArrangementTrack>,
    t: int,
    l: int,
    copy: Clip,
    next: u64,
)
    requires
        ids_fresh(b, next),
        next < u64::MAX,
        0 <= t < b.len(),
        0 <= l < b[t].lanes@.len(),
        copy.id == next,
        others_same(b, a, t),
        lane_replaced(b[t], a[t], l, b[t].lanes@[l].clips@.push(copy)),
    ensures
        ids_fresh(a, (next + 1) as u64),
{
    let o = b[t].lanes@[l].clips@;
    lemma_lane_distinct(b, t, l, next);
    let n = o.push(copy);
    assert(distinct_ids(n)) by {
        assert forall|i: int, j: int| 0 <= i < n.len() && 0 <= j < n.len() && i != j implies #[trigger] n[i].id != #[trigger] n[j].id by {
            if i < o.len() && j < o.len() {
                assert(n[i] == o[i] && n[j] == o[j]);
            } else if i < o.len() {
                assert(n[i] == o[i] && o[i].id < next);
            } else {
                assert(n[j] == o[j] && o[j].id < next);
            }
        }
    }
    assert(ids_from(o, n, next, (next + 1) as u64)) by {
        assert forall|i: int| 0 <= i < n.len() implies #[trigger] n[i].id < next + 1 && (n[i].id >= next || exists|k: int|
            0 <= k < o.len() && o[k].id == n[i].id) by {
            if i < o.len() {
                assert(n[i] == o[i]);
            }
        }
    }
    lemma_replace_lane(b, a, t, l, n, next, (next + 1) as u64);
}

/// Splitting clip `c` of a lane, the right part taking the allocator's id
/// right after it, keeps the ids fresh, the allocator moving past it.
pub proof fn lemma_split_keeps_ids_fresh(
    b: Seq<ArrangementTrack>,
    a: Seq<ArrangementTrack>,
    t: int,
    l: int,
    c: int,
    left_len: RationalTime,
    right: Clip,
    next: u64,
)
    requires
        ids_fresh(b, next),
        next < u64::MAX,
        0 <= t < b.len(),
        0 <= l < b[t].lanes@.len(),
        0 <= c < b[t].lanes@[l].clips@.len(),
        right.id == next,
        others_same(b, a, t),
        lane_replaced(
            b[t],
            a[t],
            l,
            b[t].lanes@[l].clips@.update(c, Clip { length: left_len, ..b[t].lanes@[l].clips@[c] }).insert(c + 1, right),
        ),
    ensures
        ids_fresh(a, (next + 1) as u64),
{
    let o = b[t].lanes@[l].clips@;
    lemma_lane_distinct(b, t, l, next);
    let u = o.update(c, Clip { length: left_len, ..o[c] });
    let n = u.insert(c + 1, right);
    assert forall|i: int| 0 <= i < u.len() implies #[trigger] u[i].id == o[i].id by {}
    assert(distinct_ids(n)) by {
        assert forall|i: int, j: int| 0 <= i < n.len() && 0 <= j < n.len() && i != j implies #[trigger] n[i].id != #[trigger] n[j].id by {
            let oi = if i <= c { i } else { i - 1 };
            let oj = if j <= c { j } else { j - 1 };
            if i == c + 1 {
                assert(n[i] == right && n[j] == u[oj] && u[oj].id == o[oj].id && o[oj].id < next);
            } else if j == c + 1 {
                assert(n[j] == right && n[i] == u[oi] && u[oi].id == o[oi].id && o[oi].id < next);
            } else {
                assert(n[i] == u[oi] && n[j] == u[oj]);
                assert(u[oi].id == o[oi].id && u[oj].id == o[oj].id);
            }
        }
    }
    assert(ids_from(o, n, next, (next + 1) as u64)) by {
        assert forall|i: int| 0 <= i < n.len() implies #[trigger] n[i].id < next + 1 && (n[i].id >= next || exists|k: int|
            0 <= k < o.len() && o[k].id == n[i].id) by {
            if i != c + 1 {
                let oi = if i <= c { i } else { i - 1 };
                assert(n[i] == u[oi] && u[oi].id == o[oi].id);
            }
        }
    }
    lemma_replace_lane(b, a, t, l, n, next, (next + 1) as u64);
}

/// The id the allocator hands out is used by no clip, and the ids stay
/// fresh once it has moved past it.
pub proof fn lemma_allocated_id_is_new(tracks: Seq<ArrangementTrack>, next: u64)
    requires
        ids_fresh(tracks, next),
        next < u64::MAX,
    ensures
        no_clip_with_id(tracks, next),
        ids_fresh(tracks, (next + 1) as u64),
{
}

} // verus!
