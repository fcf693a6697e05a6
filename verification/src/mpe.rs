//! MIDI Polyphonic Expression (MPE) zones and member-channel allocation.
//!
//! MPE uses a dedicated MIDI channel per active note so that pitch bend,
//! pressure and timbre can be applied per note.

use vstd::prelude::*;

verus! {

/// Which zone the MPE configuration applies to.
#[derive(Debug, Clone, Copy, PartialEq, Eq, Structural)]
pub enum MpeZoneKind {
    /// Lower zone: master channel 1 (index 0), members counting up from index 1.
    Lower,
    /// Upper zone: master channel 16 (index 15), members counting down from index 14.
    Upper,
}

impl Default for MpeZoneKind {
    fn default() -> (r: MpeZoneKind)
        ensures
            r == MpeZoneKind::Lower,
    {
        MpeZoneKind::Lower
    }
}

/// MPE zone configuration attached to a clip.
#[derive(Debug, Clone, Copy, PartialEq, Eq, Structural)]
pub struct MpeZone {
    /// Which zone this is.
    pub kind: MpeZoneKind,
    /// Number of member channels (1-15); the master channel is separate.
    pub num_channels: u8,
    /// Per-note pitch-bend semitone range (MPE default 48).
    pub pitch_bend_range: u8,
}

impl Default for MpeZone {
    fn default() -> (r: MpeZone)
        ensures
            r == (MpeZone { kind: MpeZoneKind::Lower, num_channels: 15, pitch_bend_range: 48 }),
    {
        MpeZone { kind: MpeZoneKind::Lower, num_channels: 15, pitch_bend_range: 48 }
    }
}

/// `n` clamped into `1..=15`.
pub open spec fn clamp_members(n: u8) -> u8 {
    if n < 1 {
        1
    } else if n > 15 {
        15
    } else {
        n
    }
}

impl MpeZone {
    /// 0-based MIDI channel of member `i`: counting up from 1 in the lower
    /// zone, down from 14 in the upper zone.
    pub open spec fn member_spec(self, i: int) -> int {
        match self.kind {
            MpeZoneKind::Lower => i + 1,
            MpeZoneKind::Upper => 14 - i,
        }
    }

    /// The zone's member channels can be listed (the upper zone has at most 15).
    pub open spec fn members_ok(self) -> bool {
        self.kind == MpeZoneKind::Upper ==> self.num_channels <= 15
    }

    /// A lower zone with `num_channels` members, clamped to `1..=15`.
    pub fn lower(num_channels: u8) -> (z: MpeZone)
        ensures
            z == (MpeZone {
                kind: MpeZoneKind::Lower,
                num_channels: clamp_members(num_channels),
                pitch_bend_range: 48,
            }),
    {
        let n = if num_channels < 1 {
            1
        } else if num_channels > 15 {
            15
        } else {
            num_channels
        };
        MpeZone { kind: MpeZoneKind::Lower, num_channels: n, pitch_bend_range: 48 }
    }

    /// An upper zone with `num_channels` members, clamped to `1..=15`.
    pub fn upper(num_channels: u8) -> (z: MpeZone)
        ensures
            z == (MpeZone {
                kind: MpeZoneKind::Upper,
                num_channels: clamp_members(num_channels),
                pitch_bend_range: 48,
            }),
    {
        let n = if num_channels < 1 {
            1
        } else if num_channels > 15 {
            15
        } else {
            num_channels
        };
        MpeZone { kind: MpeZoneKind::Upper, num_channels: n, pitch_bend_range: 48 }
    }

    /// 0-based MIDI channel of the zone master: 0 (lower) or 15 (upper).
    pub fn master_channel(&self) -> (r: u8)
        ensures
            r == (match self.kind {
                MpeZoneKind::Lower => 0u8,
                MpeZoneKind::Upper => 15u8,
            }),
    {
        match self.kind {
            MpeZoneKind::Lower => 0,
            MpeZoneKind::Upper => 15,
        }
    }

    /// 0-based MIDI channels of all members, in allocation order.
    pub fn member_channels(&self) -> (r: Vec<u8>)
        requires
            self.members_ok(),
        ensures
            r@.len() == self.num_channels,
            forall|i: int| 0 <= i < r@.len() ==> r@[i] == self.member_spec(i),
    {
        let n = self.num_channels;
        let mut r: Vec<u8> = Vec::new();
        let mut i: u8 = 0;
        while i < n
            invariant
                i <= n,
                n == self.num_channels,
                self.members_ok(),
                r@.len() == i,
                forall|j: int| 0 <= j < i ==> r@[j] == self.member_spec(j),
            decreases n - i,
        {
            let ch = match self.kind {
                MpeZoneKind::Lower => i + 1,
                MpeZoneKind::Upper => 14 - i,
            };
            r.push(ch);
            i = i + 1;
        }
        r
    }
}

/// Index of the first free member slot when scanning from `start` (wrapping),
/// counting from step `i`; `None` if every slot is busy.
pub open spec fn first_free(slots: Seq<Option<u8>>, start: int, i: int) -> Option<int>
    decreases slots.len() - i,
{
    if i >= slots.len() {
        None
    } else if slots[(start + i) % (slots.len() as int)] is None {
        Some((start + i) % (slots.len() as int))
    } else {
        first_free(slots, start, i + 1)
    }
}

/// Index of the first slot holding `note`, searching from slot `i`.
pub open spec fn first_holding(slots: Seq<Option<u8>>, note: u8, i: int) -> Option<int>
    decreases slots.len() - i,
{
    if i >= slots.len() || i < 0 {
        None
    } else if slots[i] == Some(note) {
        Some(i)
    } else {
        first_holding(slots, note, i + 1)
    }
}

/// Position of the first `v` in `s`, searching from position `i`.
pub open spec fn position_of(s: Seq<usize>, v: usize, i: int) -> Option<int>
    decreases s.len() - i,
{
    if i >= s.len() || i < 0 {
        None
    } else if s[i] == v {
        Some(i)
    } else {
        position_of(s, v, i + 1)
    }
}

/// `order` lists the busy slots of `slots`, each once.
pub open spec fn order_lists_busy(slots: Seq<Option<u8>>, order: Seq<usize>) -> bool {
    &&& order.no_duplicates()
    &&& forall|k: int| 0 <= k < order.len() ==> #[trigger] order[k] < slots.len() && slots[order[k] as int] is Some
    &&& forall|i: int| 0 <= i < slots.len() && (#[trigger] slots[i]) is Some ==> order.contains(i as usize)
}

/// Allocates MIDI member channels round-robin for active MPE notes; when all
/// channels are busy the channel of the oldest active note is stolen.
pub struct MpeChannelMap {
    zone: MpeZone,
    /// Member slot `i` holds the note currently sounding on member channel `i`.
    slots: Vec<Option<u8>>,
    /// The busy slots, in the order they were taken (oldest first).
    order: Vec<usize>,
    /// Round-robin allocation pointer.
    next_slot: usize,
}

impl MpeChannelMap {
    pub closed spec fn zone_spec(self) -> MpeZone {
        self.zone
    }

    pub closed spec fn slots_spec(self) -> Seq<Option<u8>> {
        self.slots@
    }

    /// The busy slots, oldest allocation first.
    pub closed spec fn order_spec(self) -> Seq<usize> {
        self.order@
    }

    pub closed spec fn next_spec(self) -> int {
        self.next_slot as int
    }

    #[verifier::type_invariant]
    closed spec fn inv(self) -> bool {
        &&& self.slots@.len() == self.zone.num_channels
        &&& self.zone.members_ok()
        &&& (self.slots@.len() > 0 ==> self.next_slot < self.slots@.len())
        &&& (self.slots@.len() == 0 ==> self.next_slot == 0)
        &&& order_lists_busy(self.slots@, self.order@)
    }

    /// The slot [`MpeChannelMap::allocate`] uses: the first free slot from the
    /// pointer on, else the slot of the oldest active note.
    pub open spec fn alloc_slot(self) -> int {
        match first_free(self.slots_spec(), self.next_spec(), 0) {
            Some(i) => i,
            None => self.order_spec()[0] as int,
        }
    }

    /// A map with every member slot free.
    pub fn new(zone: MpeZone) -> (m: MpeChannelMap)
        requires
            zone.members_ok(),
        ensures
            m.zone_spec() == zone,
            m.slots_spec() == Seq::new(zone.num_channels as nat, |i: int| None::<u8>),
            m.order_spec() == Seq::<usize>::empty(),
            order_lists_busy(m.slots_spec(), m.order_spec()),
            m.next_spec() == 0,
    {
        let n = zone.num_channels;
        let mut slots: Vec<Option<u8>> = Vec::new();
        let mut i: u8 = 0;
        while i < n
            invariant
                i <= n,
                slots@ == Seq::new(i as nat, |j: int| None::<u8>),
            decreases n - i,
        {
            slots.push(None);
            proof {
                assert(slots@ =~= Seq::new((i + 1) as nat, |j: int| None::<u8>));
            }
            i = i + 1;
        }
        let order: Vec<usize> = Vec::new();
        MpeChannelMap { zone, slots, order, next_slot: 0 }
    }

    /// Allocate a member channel for `note` and return its 0-based MIDI channel:
    /// the first free slot from the round-robin pointer on; when every slot is
    /// busy, the slot of the oldest active note is stolen. The chosen slot
    /// becomes the newest in the allocation order and the pointer moves past it.
    pub fn allocate(&mut self, note: u8) -> (ch: u8)
        requires
            old(self).slots_spec().len() > 0,
        ensures
            final(self).zone_spec() == old(self).zone_spec(),
            final(self).slots_spec() == old(self).slots_spec().update(old(self).alloc_slot(), Some(note)),
            final(self).order_spec() == (if first_free(old(self).slots_spec(), old(self).next_spec(), 0) is Some {
                old(self).order_spec()
            } else {
                old(self).order_spec().drop_first()
            }).push(old(self).alloc_slot() as usize),
            final(self).next_spec() == (old(self).alloc_slot() + 1) % (old(self).slots_spec().len() as int),
            ch == old(self).zone_spec().member_spec(old(self).alloc_slot()),
            order_lists_busy(final(self).slots_spec(), final(self).order_spec()),
    {
        proof {
            use_type_invariant(&*self);
        }
        let n = self.slots.len();
        let mut i: usize = 0;
        while i < n
            invariant
                0 <= i <= n,
                n == self.slots@.len(),
                n > 0,
                n <= 255,
                self.next_slot < n,
                *self == *old(self),
                first_free(self.slots@, self.next_slot as int, 0) == first_free(self.slots@, self.next_slot as int, i as int),
                forall|j: int| 0 <= j < i ==> (#[trigger] self.slots@[(self.next_slot + j) % (n as int)]) is Some,
            decreases n - i,
        {
            let idx = (self.next_slot + i) % n;
            if self.slots[idx].is_none() {
                proof {
                    assert(first_free(self.slots@, self.next_slot as int, i as int) == Some(idx as int));
                }
                return self.take_slot(idx, note, false);
            }
            i = i + 1;
        }
        proof {
            assert(first_free(self.slots@, self.next_slot as int, n as int) is None);
            assert(self.slots@[(self.next_slot + 0) % (n as int)] is Some);
            vstd::arithmetic::div_mod::lemma_small_mod(self.next_slot as nat, n as nat);
            assert(self.slots@[self.next_slot as int] is Some);
            assert(self.order@.contains(self.next_slot));
        }
        let idx = self.order[0];
        self.take_slot(idx, note, true)
    }

    fn take_slot(&mut self, idx: usize, note: u8, steal: bool) -> (ch: u8)
        requires
            idx < old(self).slots_spec().len(),
            steal ==> old(self).order_spec().len() > 0 && old(self).order_spec()[0] == idx,
            !steal ==> old(self).slots_spec()[idx as int] is None,
        ensures
            final(self).zone_spec() == old(self).zone_spec(),
            final(self).slots_spec() == old(self).slots_spec().update(idx as int, Some(note)),
            final(self).order_spec() == (if steal {
                old(self).order_spec().drop_first()
            } else {
                old(self).order_spec()
            }).push(idx),
            final(self).next_spec() == (idx + 1) % (old(self).slots_spec().len() as int),
            ch == old(self).zone_spec().member_spec(idx as int),
            order_lists_busy(final(self).slots_spec(), final(self).order_spec()),
    {
        proof {
            use_type_invariant(&*self);
        }
        let n = self.slots.len();
        let slots = updated_slots(&self.slots, idx, Some(note));
        let mut order = copy_order(&self.order);
        if steal {
            order.remove(0);
        }
        let ghost kept = order@;
        order.push(idx);
        proof {
            let s0 = self.slots@;
            let o0 = self.order@;
            assert(kept == if steal { o0.drop_first() } else { o0 });
            assert forall|k: int| 0 <= k < kept.len() implies kept[k] != idx by {
                if steal {
                    assert(kept[k] == o0[k + 1]);
                    assert(o0[k + 1] != o0[0]);
                } else {
                    assert(kept[k] == o0[k]);
                    assert(s0[o0[k] as int] is Some);
                }
            }
            assert forall|a: int, b: int| 0 <= a < order@.len() && 0 <= b < order@.len() && a != b implies order@[a]
                != order@[b] by {
                if a < kept.len() && b < kept.len() {
                    if steal {
                        assert(kept[a] == o0[a + 1] && kept[b] == o0[b + 1]);
                    }
                }
            }
            assert forall|k: int| 0 <= k < order@.len() implies #[trigger] order@[k] < slots@.len()
                && slots@[order@[k] as int] is Some by {
                if k < kept.len() {
                    if steal {
                        assert(kept[k] == o0[k + 1]);
                    }
                }
            }
            assert forall|i: int| 0 <= i < slots@.len() && (#[trigger] slots@[i]) is Some implies order@.contains(
                i as usize,
            ) by {
                if i == idx {
                    assert(order@[kept.len() as int] == idx);
                } else {
                    assert(s0[i] is Some);
                    assert(o0.contains(i as usize));
                    let k = choose|k: int| 0 <= k < o0.len() && o0[k] == i as usize;
                    if steal {
                        assert(k != 0);
                        assert(order@[k - 1] == o0[k]);
                    } else {
                        assert(order@[k] == o0[k]);
                    }
                }
            }
        }
        *self = MpeChannelMap { zone: self.zone, slots, order, next_slot: (idx + 1) % n };
        self.channel_for_slot(idx)
    }

    /// Release the channel holding `note` (the first such slot) and return the
    /// freed 0-based MIDI channel, or `None` if no slot holds it. The slot
    /// leaves the allocation order.
    pub fn release(&mut self, note: u8) -> (r: Option<u8>)
        ensures
            final(self).zone_spec() == old(self).zone_spec(),
            final(self).next_spec() == old(self).next_spec(),
            order_lists_busy(final(self).slots_spec(), final(self).order_spec()),
            match first_holding(old(self).slots_spec(), note, 0) {
                Some(i) => {
                    &&& r == Some(old(self).zone_spec().member_spec(i) as u8)
                    &&& final(self).slots_spec() == old(self).slots_spec().update(i, None)
                    &&& position_of(old(self).order_spec(), i as usize, 0) is Some
                    &&& final(self).order_spec() == old(self).order_spec().remove(
                        position_of(old(self).order_spec(), i as usize, 0)->0,
                    )
                },
                None => r is None && final(self).slots_spec() == old(self).slots_spec() && final(self).order_spec()
                    == old(self).order_spec(),
            },
    {
        proof {
            use_type_invariant(&*self);
        }
        let mut idx: usize = 0;
        while idx < self.slots.len()
            invariant
                idx <= self.slots@.len(),
                *self == *old(self),
                first_holding(self.slots@, note, 0) == first_holding(self.slots@, note, idx as int),
            decreases self.slots@.len() - idx,
        {
            if self.slots[idx] == Some(note) {
                proof {
                    use_type_invariant(&*self);
                }
                let pos = find_position(&self.order, idx);
                let slots = updated_slots(&self.slots, idx, None);
                let mut order = copy_order(&self.order);
                order.remove(pos);
                proof {
                    let s0 = self.slots@;
                    let o0 = self.order@;
                    assert(o0[pos as int] == idx);
                    assert forall|k: int| 0 <= k < order@.len() implies #[trigger] order@[k] < slots@.len()
                        && slots@[order@[k] as int] is Some by {
                        let k0 = if k < pos { k } else { k + 1 };
                        assert(order@[k] == o0[k0]);
                        assert(k0 != pos);
                    }
                    assert forall|a: int, b: int| 0 <= a < order@.len() && 0 <= b < order@.len() && a != b implies order@[a]
                        != order@[b] by {
                        let a0 = if a < pos { a } else { a + 1 };
                        let b0 = if b < pos { b } else { b + 1 };
                        assert(order@[a] == o0[a0] && order@[b] == o0[b0]);
                    }
                    assert forall|i: int| 0 <= i < slots@.len() && (#[trigger] slots@[i]) is Some implies order@.contains(
                        i as usize,
                    ) by {
                        assert(i != idx);
                        assert(s0[i] is Some);
                        assert(o0.contains(i as usize));
                        let k = choose|k: int| 0 <= k < o0.len() && o0[k] == i as usize;
                        assert(k != pos);
                        if k < pos {
                            assert(order@[k] == o0[k]);
                        } else {
                            assert(order@[k - 1] == o0[k]);
                        }
                    }
                }
                *self = MpeChannelMap { zone: self.zone, slots, order, next_slot: self.next_slot };
                return Some(self.channel_for_slot(idx));
            }
            idx = idx + 1;
        }
        None
    }

    /// The 0-based MIDI channel of the first slot holding `note`, if any.
    pub fn channel_of(&self, note: u8) -> (r: Option<u8>)
        ensures
            r == (match first_holding(self.slots_spec(), note, 0) {
                Some(i) => Some(self.zone_spec().member_spec(i) as u8),
                None => None,
            }),
    {
        proof {
            use_type_invariant(self);
        }
        let mut idx: usize = 0;
        while idx < self.slots.len()
            invariant
                idx <= self.slots@.len(),
                first_holding(self.slots@, note, 0) == first_holding(self.slots@, note, idx as int),
            decreases self.slots@.len() - idx,
        {
            if self.slots[idx] == Some(note) {
                return Some(self.channel_for_slot(idx));
            }
            idx = idx + 1;
        }
        None
    }

    /// The zone master channel (0-based).
    pub fn master_channel(&self) -> (r: u8)
        ensures
            r == (match self.zone_spec().kind {
                MpeZoneKind::Lower => 0u8,
                MpeZoneKind::Upper => 15u8,
            }),
    {
        self.zone.master_channel()
    }

    /// The zone's pitch-bend range in semitones.
    pub fn pitch_bend_range(&self) -> (r: u8)
        ensures
            r == self.zone_spec().pitch_bend_range,
    {
        self.zone.pitch_bend_range
    }

    fn channel_for_slot(&self, slot_idx: usize) -> (r: u8)
        requires
            slot_idx < self.slots_spec().len(),
        ensures
            r == self.zone_spec().member_spec(slot_idx as int),
    {
        proof {
            use_type_invariant(self);
        }
        let ch = self.zone.member_channels();
        ch[slot_idx]
    }
}

/// A copy of `v`.
fn copy_order(v: &Vec<usize>) -> (r: Vec<usize>)
    ensures
        r@ == v@,
{
    let mut r: Vec<usize> = Vec::new();
    let mut i: usize = 0;
    while i < v.len()
        invariant
            i <= v@.len(),
            r@ == v@.take(i as int),
        decreases v@.len() - i,
    {
        r.push(v[i]);
        proof {
            assert(v@.take(i as int + 1) =~= v@.take(i as int).push(v@[i as int]));
        }
        i = i + 1;
    }
    proof {
        assert(v@.take(v@.len() as int) =~= v@);
    }
    r
}

/// The position of `x` in `v`, which holds it.
fn find_position(v: &Vec<usize>, x: usize) -> (r: usize)
    requires
        v@.contains(x),
    ensures
        r < v@.len(),
        v@[r as int] == x,
        position_of(v@, x, 0) == Some(r as int),
{
    let mut i: usize = 0;
    while i < v.len()
        invariant
            i <= v@.len(),
            v@.contains(x),
            position_of(v@, x, 0) == position_of(v@, x, i as int),
            forall|j: int| 0 <= j < i ==> v@[j] != x,
        decreases v@.len() - i,
    {
        if v[i] == x {
            return i;
        }
        i = i + 1;
    }
    proof {
        let k = choose|k: int| 0 <= k < v@.len() && v@[k] == x;
        assert(v@[k] != x);
    }
    0
}

fn updated_slots(v: &Vec<Option<u8>>, idx: usize, val: Option<u8>) -> (r: Vec<Option<u8>>)
    requires
        idx < v@.len(),
    ensures
        r@ == v@.update(idx as int, val),
{
    let mut r: Vec<Option<u8>> = Vec::new();
    let mut i: usize = 0;
    while i < v.len()
        invariant
            i <= v@.len(),
            idx < v@.len(),
            r@ == v@.update(idx as int, val).take(i as int),
        decreases v@.len() - i,
    {
        let x = if i == idx {
            val
        } else {
            v[i]
        };
        r.push(x);
        proof {
            assert(v@.update(idx as int, val).take(i as int + 1) =~= v@.update(idx as int, val).take(
                i as int,
            ).push(x));
        }
        i = i + 1;
    }
    proof {
        assert(v@.update(idx as int, val).take(v@.len() as int) =~= v@.update(idx as int, val));
    }
    r
}

/// Allocating a note that no slot holds makes [`MpeChannelMap::channel_of`]
/// report exactly the channel the allocation returned.
pub proof fn lemma_allocate_then_lookup(old_slots: Seq<Option<u8>>, note: u8, idx: int)
    requires
        0 <= idx < old_slots.len(),
        first_holding(old_slots, note, 0) is None,
    ensures
        first_holding(old_slots.update(idx, Some(note)), note, 0) == Some(idx),
{
    lemma_first_holding_after_update(old_slots, note, idx, 0);
}

proof fn lemma_first_holding_after_update(s: Seq<Option<u8>>, note: u8, idx: int, i: int)
    requires
        0 <= idx < s.len(),
        0 <= i <= idx,
        first_holding(s, note, i) is None,
    ensures
        first_holding(s.update(idx, Some(note)), note, i) == Some(idx),
    decreases idx - i,
{
    if i < idx {
        assert(s[i] != Some(note));
        lemma_first_holding_after_update(s, note, idx, i + 1);
    }
}

} // verus!
