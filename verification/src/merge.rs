//! Object-level three-way merge of project objects.
//!
//! Objects are identified by a 128-bit id. Given a common ancestor (`base`)
//! and two divergent versions (`ours`, `theirs`), the merge applies the
//! changes that do not collide and reports the rest as conflicts:
//! 1. only one side changed: take that side's version;
//! 2. both sides changed identically: take it;
//! 3. both sides changed differently: conflict;
//! 4. one side deleted and the other modified: conflict.
//!
//! Payloads are compared as canonical JSON text.

use vstd::prelude::*;

verus! {

/// A snapshot of one identified object; the payload is its JSON text.
#[derive(Debug)]
pub struct ObjectSnapshot {
    pub id: u128,
    pub kind: String,
    pub payload: String,
}

impl Clone for ObjectSnapshot {
    fn clone(&self) -> (r: Self)
        ensures
            r == *self,
    {
        ObjectSnapshot { id: self.id, kind: self.kind.clone(), payload: self.payload.clone() }
    }
}

impl ObjectSnapshot {
    /// A snapshot of object `id` of the given kind.
    pub fn new(id: u128, kind: String, payload: String) -> (r: ObjectSnapshot)
        ensures
            r.id == id,
            r.kind == kind,
            r.payload == payload,
    {
        ObjectSnapshot { id, kind, payload }
    }
}

/// Why an object could not be merged automatically.
#[derive(Debug, Clone, Copy, PartialEq, Eq, Structural)]
pub enum ConflictReason {
    /// Both sides modified the object with different values.
    BothModified,
    /// One side deleted the object while the other modified it.
    DeleteModifyConflict,
}

/// A conflict on one object, with the payload each version had.
#[derive(Debug)]
pub struct MergeConflict {
    pub id: u128,
    pub kind: String,
    pub base: Option<String>,
    pub ours: Option<String>,
    pub theirs: Option<String>,
    pub reason: ConflictReason,
}

/// Outcome of merging two divergent object sets.
#[derive(Debug)]
pub struct MergeResult {
    /// Objects merged without conflict.
    pub merged: Vec<ObjectSnapshot>,
    /// Objects that need a decision.
    pub conflicts: Vec<MergeConflict>,
}

/// What the merge does with one object.
pub enum Outcome {
    Take(ObjectSnapshot),
    Conflict(MergeConflict),
    Omit,
}

/// The payload of an optional snapshot.
pub open spec fn payload_of(s: Option<ObjectSnapshot>) -> Option<String> {
    match s {
        Some(x) => Some(x.payload),
        None => None,
    }
}

/// `s` is present and carries payload `p`.
pub open spec fn has_payload(s: Option<ObjectSnapshot>, p: Seq<char>) -> bool {
    s matches Some(x) && x.payload@ == p
}

/// The merge rule for one object, from its base, ours and theirs versions.
pub open spec fn outcome(id: u128, b: Option<ObjectSnapshot>, o: Option<ObjectSnapshot>, t: Option<ObjectSnapshot>) -> Outcome {
    match (o, t) {
        (Some(ov), Some(tv)) => if ov.payload@ == tv.payload@ || has_payload(b, tv.payload@) {
            Outcome::Take(ov)
        } else if has_payload(b, ov.payload@) {
            Outcome::Take(tv)
        } else {
            Outcome::Conflict(
                MergeConflict {
                    id,
                    kind: ov.kind,
                    base: payload_of(b),
                    ours: Some(ov.payload),
                    theirs: Some(tv.payload),
                    reason: ConflictReason::BothModified,
                },
            )
        },
        (Some(ov), None) => match b {
            None => Outcome::Take(ov),
            Some(bv) => if bv.payload@ == ov.payload@ {
                Outcome::Omit
            } else {
                Outcome::Conflict(
                    MergeConflict {
                        id,
                        kind: bv.kind,
                        base: Some(bv.payload),
                        ours: Some(ov.payload),
                        theirs: None,
                        reason: ConflictReason::DeleteModifyConflict,
                    },
                )
            },
        },
        (None, Some(tv)) => match b {
            None => Outcome::Take(tv),
            Some(bv) => if bv.payload@ == tv.payload@ {
                Outcome::Omit
            } else {
                Outcome::Conflict(
                    MergeConflict {
                        id,
                        kind: bv.kind,
                        base: Some(bv.payload),
                        ours: None,
                        theirs: Some(tv.payload),
                        reason: ConflictReason::DeleteModifyConflict,
                    },
                )
            },
        },
        (None, None) => Outcome::Omit,
    }
}

/// The last snapshot in `s[..n]` with this id (a later duplicate replaces an
/// earlier one).
pub open spec fn last_with(s: Seq<ObjectSnapshot>, n: int, id: u128) -> Option<ObjectSnapshot>
    decreases n,
{
    if n <= 0 {
        None
    } else if s[n - 1].id == id {
        Some(s[n - 1])
    } else {
        last_with(s, n - 1, id)
    }
}

/// The ids of `s[..n]` appended to `acc`, each once, in order of first
/// appearance.
pub open spec fn ids_from(acc: Seq<u128>, s: Seq<ObjectSnapshot>, n: int) -> Seq<u128>
    decreases n,
{
    if n <= 0 {
        acc
    } else {
        let prev = ids_from(acc, s, n - 1);
        if prev.contains(s[n - 1].id) {
            prev
        } else {
            prev.push(s[n - 1].id)
        }
    }
}

/// Every id of the three inputs, each once, in order of first appearance in
/// `base`, then `ours`, then `theirs`.
pub open spec fn all_ids(base: Seq<ObjectSnapshot>, ours: Seq<ObjectSnapshot>, theirs: Seq<ObjectSnapshot>) -> Seq<u128> {
    ids_from(ids_from(ids_from(Seq::empty(), base, base.len() as int), ours, ours.len() as int), theirs, theirs.len() as int)
}

/// The outcome for one id of the three inputs.
pub open spec fn outcome_for(base: Seq<ObjectSnapshot>, ours: Seq<ObjectSnapshot>, theirs: Seq<ObjectSnapshot>, id: u128) -> Outcome {
    outcome(id, last_with(base, base.len() as int, id), last_with(ours, ours.len() as int, id), last_with(theirs, theirs.len() as int, id))
}

/// The merged objects and the conflicts for the first `k` ids.
pub open spec fn merge_upto(base: Seq<ObjectSnapshot>, ours: Seq<ObjectSnapshot>, theirs: Seq<ObjectSnapshot>, ids: Seq<u128>, k: int) -> (Seq<ObjectSnapshot>, Seq<MergeConflict>)
    decreases k,
{
    if k <= 0 {
        (Seq::empty(), Seq::empty())
    } else {
        let prev = merge_upto(base, ours, theirs, ids, k - 1);
        match outcome_for(base, ours, theirs, ids[k - 1]) {
            Outcome::Take(s) => (prev.0.push(s), prev.1),
            Outcome::Conflict(c) => (prev.0, prev.1.push(c)),
            Outcome::Omit => prev,
        }
    }
}

/// When only one side changed an object, its version is taken; when both
/// made the same change, that version is taken; an object nobody touched is
/// kept as it was.
pub proof fn lemma_merge_rules(id: u128, b: ObjectSnapshot, o: ObjectSnapshot, t: ObjectSnapshot)
    ensures
        t.payload@ == b.payload@ ==> outcome(id, Some(b), Some(o), Some(t)) == Outcome::Take(o),
        o.payload@ == b.payload@ && t.payload@ != b.payload@ ==> outcome(id, Some(b), Some(o), Some(t))
            == Outcome::Take(t),
        o.payload@ == t.payload@ ==> outcome(id, Some(b), Some(o), Some(t)) == Outcome::Take(o),
        outcome(id, Some(b), Some(b), Some(b)) == Outcome::Take(b),
        outcome(id, Some(b), None, None) == Outcome::Omit,
{
}

/// The merge rule treats ours and theirs alike: swapping them gives the
/// same kind of outcome, the same payload when a version is taken, and the
/// same conflict with the two sides exchanged. In particular a version one
/// side deleted and the other left unchanged is dropped, whichever side
/// deleted it.
pub proof fn lemma_merge_symmetric(id: u128, b: Option<ObjectSnapshot>, o: Option<ObjectSnapshot>, t: Option<ObjectSnapshot>)
    ensures
        match (outcome(id, b, o, t), outcome(id, b, t, o)) {
            (Outcome::Omit, Outcome::Omit) => true,
            (Outcome::Take(x), Outcome::Take(y)) => x.payload@ == y.payload@,
            (Outcome::Conflict(c1), Outcome::Conflict(c2)) => {
                &&& c1.id == c2.id
                &&& c1.reason == c2.reason
                &&& c1.base == c2.base
                &&& c1.ours == c2.theirs
                &&& c1.theirs == c2.ours
            },
            _ => false,
        },
        b matches Some(bv) && t matches Some(tv) && tv.payload@ == bv.payload@ ==> outcome(id, b, None, t) == Outcome::Omit,
        b matches Some(bv) && o matches Some(ov) && ov.payload@ == bv.payload@ ==> outcome(id, b, o, None) == Outcome::Omit,
{
}

/// Merging three identical versions reports no conflict.
pub proof fn lemma_identical_versions_never_conflict(s: Seq<ObjectSnapshot>, ids: Seq<u128>, k: int)
    ensures
        merge_upto(s, s, s, ids, k).1 == Seq::<MergeConflict>::empty(),
    decreases k,
{
    if k > 0 {
        lemma_identical_versions_never_conflict(s, ids, k - 1);
    }
}

fn clone_opt_payload(s: Option<&ObjectSnapshot>) -> (r: Option<String>)
    ensures
        r == payload_of(
            match s {
                Some(x) => Some(*x),
                None => None,
            },
        ),
{
    match s {
        Some(x) => Some(x.payload.clone()),
        None => None,
    }
}

/// The last snapshot in `s` with this id.
fn find_last(s: &[ObjectSnapshot], id: u128) -> (r: Option<&ObjectSnapshot>)
    ensures
        match r {
            Some(x) => last_with(s@, s@.len() as int, id) == Some(*x),
            None => last_with(s@, s@.len() as int, id) == Option::<ObjectSnapshot>::None,
        },
{
    let mut i: usize = s.len();
    while i > 0
        invariant
            i <= s@.len(),
            forall|j: int| i <= j < s@.len() ==> s@[j].id != id,
            last_with(s@, s@.len() as int, id) == last_with(s@, i as int, id),
        decreases i,
    {
        if s[i - 1].id == id {
            return Some(&s[i - 1]);
        }
        proof {
            assert(last_with(s@, i as int, id) == last_with(s@, i - 1, id));
        }
        i = i - 1;
    }
    None
}

/// Append the ids of `s` not yet in `ids`, in order.
fn collect_ids(ids: &mut Vec<u128>, s: &[ObjectSnapshot])
    ensures
        final(ids)@ == ids_from(old(ids)@, s@, s@.len() as int),
{
    let ghost start = ids@;
    let mut i: usize = 0;
    while i < s.len()
        invariant
            i <= s@.len(),
            ids@ == ids_from(start, s@, i as int),
        decreases s@.len() - i,
    {
        let id = s[i].id;
        let mut seen = false;
        let mut j: usize = 0;
        while j < ids.len()
            invariant
                j <= ids@.len(),
                seen == (exists|k: int| 0 <= k < j && ids@[k] == id),
            decreases ids@.len() - j,
        {
            if ids[j] == id {
                seen = true;
            }
            j = j + 1;
        }
        proof {
            if seen {
                let k = choose|k: int| 0 <= k < j && ids@[k] == id;
                assert(ids@.contains(id));
            } else {
                assert(!ids@.contains(id));
            }
        }
        if !seen {
            ids.push(id);
        }
        i = i + 1;
    }
}

/// Three-way merge by object id.
///
/// Each id that occurs in any input is visited once, in order of first
/// appearance in `base`, then `ours`, then `theirs` (a later duplicate of an
/// id within one input stands for it). Its versions decide, by
/// [`outcome`], whether one of them is kept, the object is dropped, or a
/// conflict is reported.
pub fn three_way_merge(base: &[ObjectSnapshot], ours: &[ObjectSnapshot], theirs: &[ObjectSnapshot]) -> (r: MergeResult)
    ensures
        r.merged@ == merge_upto(base@, ours@, theirs@, all_ids(base@, ours@, theirs@), all_ids(base@, ours@, theirs@).len() as int).0,
        r.conflicts@ == merge_upto(base@, ours@, theirs@, all_ids(base@, ours@, theirs@), all_ids(base@, ours@, theirs@).len() as int).1,
{
    let mut ids: Vec<u128> = Vec::new();
    collect_ids(&mut ids, base);
    collect_ids(&mut ids, ours);
    collect_ids(&mut ids, theirs);
    let ghost all = ids@;
    let mut merged: Vec<ObjectSnapshot> = Vec::new();
    let mut conflicts: Vec<MergeConflict> = Vec::new();
    let mut k: usize = 0;
    while k < ids.len()
        invariant
            k <= ids@.len(),
            ids@ == all,
            all == all_ids(base@, ours@, theirs@),
            merged@ == merge_upto(base@, ours@, theirs@, all, k as int).0,
            conflicts@ == merge_upto(base@, ours@, theirs@, all, k as int).1,
        decreases ids@.len() - k,
    {
        let id = ids[k];
        let b = find_last(base, id);
        let o = find_last(ours, id);
        let t = find_last(theirs, id);
        match (o, t) {
            (Some(ov), Some(tv)) => {
                let b_is_t = match b {
                    Some(bv) => bv.payload == tv.payload,
                    None => false,
                };
                let b_is_o = match b {
                    Some(bv) => bv.payload == ov.payload,
                    None => false,
                };
                if ov.payload == tv.payload || b_is_t {
                    merged.push(ov.clone());
                } else if b_is_o {
                    merged.push(tv.clone());
                } else {
                    conflicts.push(
                        MergeConflict {
                            id,
                            kind: ov.kind.clone(),
                            base: clone_opt_payload(b),
                            ours: Some(ov.payload.clone()),
                            theirs: Some(tv.payload.clone()),
                            reason: ConflictReason::BothModified,
                        },
                    );
                }
            },
            (Some(ov), None) => match b {
                None => {
                    merged.push(ov.clone());
                },
                Some(bv) => {
                    if bv.payload != ov.payload {
                        conflicts.push(
                            MergeConflict {
                                id,
                                kind: bv.kind.clone(),
                                base: Some(bv.payload.clone()),
                                ours: Some(ov.payload.clone()),
                                theirs: None,
                                reason: ConflictReason::DeleteModifyConflict,
                            },
                        );
                    }
                },
            },
            (None, Some(tv)) => match b {
                None => {
                    merged.push(tv.clone());
                },
                Some(bv) => {
                    if bv.payload != tv.payload {
                        conflicts.push(
                            MergeConflict {
                                id,
                                kind: bv.kind.clone(),
                                base: Some(bv.payload.clone()),
                                ours: None,
                                theirs: Some(tv.payload.clone()),
                                reason: ConflictReason::DeleteModifyConflict,
                            },
                        );
                    }
                },
            },
            (None, None) => {},
        }
        k = k + 1;
    }
    MergeResult { merged, conflicts }
}

/// Resolve a conflict by taking one side: the chosen side's payload under the
/// conflict's id and kind, or `None` when that side deleted the object.
pub fn resolve_conflict(conflict: &MergeConflict, take_ours: bool) -> (r: Option<ObjectSnapshot>)
    ensures
        match (if take_ours { conflict.ours } else { conflict.theirs }) {
            Some(p) => r == Some(ObjectSnapshot { id: conflict.id, kind: conflict.kind, payload: p }),
            None => r.is_none(),
        },
{
    let payload = if take_ours {
        match &conflict.ours {
            Some(p) => Some(p.clone()),
            None => None,
        }
    } else {
        match &conflict.theirs {
            Some(p) => Some(p.clone()),
            None => None,
        }
    };
    match payload {
        Some(p) => Some(ObjectSnapshot { id: conflict.id, kind: conflict.kind.clone(), payload: p }),
        None => None,
    }
}

} // verus!
