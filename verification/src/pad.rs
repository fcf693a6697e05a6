//! Pad sampler trigger modes and exclusive mute/choke groups.

use vstd::prelude::*;

verus! {

/// How a pad responds to note on/off.
#[derive(Debug, Clone, Copy, PartialEq, Eq, Structural)]
pub enum TriggerMode {
    /// Play from start to end once; note-off ignored.
    OneShot,
    /// Loop between the loop points as long as the pad gate stays open.
    Loop,
    /// Sound only as long as the pad gate stays open.
    Gate,
    /// Restart from the beginning on every note-on.
    Retrigger,
}

impl Default for TriggerMode {
    fn default() -> (r: TriggerMode)
        ensures
            r == TriggerMode::OneShot,
    {
        TriggerMode::OneShot
    }
}
/// Mute group (0 = no group, 1-8 = exclusive mute group).
#[derive(Debug, Clone, Copy, PartialEq, Eq, Structural)]
pub struct MuteGroup(pub u8);

impl Default for MuteGroup {
    fn default() -> (r: MuteGroup)
        ensures
            r.0 == 0,
    {
        MuteGroup(0)
    }
}

/// Choke group (0 = no group, 1-8): pads in the same group silence each other.
#[derive(Debug, Clone, Copy, PartialEq, Eq, Structural)]
pub struct ChokeGroup(pub u8);

impl Default for ChokeGroup {
    fn default() -> (r: ChokeGroup)
        ensures
            r.0 == 0,
    {
        ChokeGroup(0)
    }
}

/// Slot `i` of a bank is occupied by a pad in mute group `g`.
pub open spec fn in_group(slots: Seq<Option<MuteGroup>>, i: int, g: MuteGroup) -> bool {
    slots[i] == Some(g)
}

/// The indices, ascending, of the occupied slots whose pad is in mute group
/// `group`, given each slot's mute group (`None` for an empty slot). Group 0
/// is no group: it has no members.
pub fn mute_group_members(slots: &[Option<MuteGroup>], group: MuteGroup) -> (r: Vec<usize>)
    ensures
        group.0 == 0 ==> r@.len() == 0,
        group.0 != 0 ==> {
            &&& forall|k: int| 0 <= k < r@.len() ==> 0 <= #[trigger] r@[k] < slots@.len() && in_group(slots@, r@[k] as int, group)
            &&& forall|a: int, b: int| 0 <= a < b < r@.len() ==> r@[a] < r@[b]
            &&& forall|i: int| 0 <= i < slots@.len() && #[trigger] in_group(slots@, i, group) ==> r@.contains(i as usize)
        },
{
    let mut r: Vec<usize> = Vec::new();
    if group.0 == 0 {
        return r;
    }
    let mut i: usize = 0;
    while i < slots.len()
        invariant
            i <= slots@.len(),
            forall|k: int| 0 <= k < r@.len() ==> #[trigger] r@[k] < i && in_group(slots@, r@[k] as int, group),
            forall|a: int, b: int| 0 <= a < b < r@.len() ==> r@[a] < r@[b],
            forall|j: int| 0 <= j < i && #[trigger] in_group(slots@, j, group) ==> r@.contains(j as usize),
        decreases slots@.len() - i,
    {
        let member = match slots[i] {
            Some(g) => g.0 == group.0,
            None => false,
        };
        if member {
            let ghost before = r@;
            r.push(i);
            proof {
                assert forall|j: int| 0 <= j < i + 1 && #[trigger] in_group(slots@, j, group) implies r@.contains(j as usize) by {
                    if j < i {
                        let w = choose|w: int| 0 <= w < before.len() && before[w] == j as usize;
                        assert(r@[w] == j as usize);
                    } else {
                        assert(r@[before.len() as int] == i);
                    }
                }
            }
        } else {
            proof {
                assert forall|j: int| 0 <= j < i + 1 && #[trigger] in_group(slots@, j, group) implies r@.contains(j as usize) by {
                    if j == i {
                        assert(in_group(slots@, i as int, group));
                    }
                }
            }
        }
        i = i + 1;
    }
    r
}

} // verus!
