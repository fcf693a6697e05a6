//! Firing a clip's pattern on a master step: for each hit of the step's beat
//! window, the timing with the pattern's groove (swing, microshift,
//! humanization), the Euclidean and probability gates, the MIDI channel and
//! the notes to play. The notes then go out through the clock
//! ([`crate::sched::Clock::fire_audio_note`], [`crate::sched::Clock::fire_midi_note`]).

use crate::euclid::{bjorklund, euclidean_rhythm};
use crate::note::{all_note_ons_spec, note_value_fits, Note, NoteEvent};
use crate::pattern::{div_trunc, Pattern, WindowHit};
use crate::rational::RationalTime;
use crate::sched::{
    str_eq, euclid_allows, ev_offset_ticks, gate_ticks, hit_offset_spec, hit_offset_ticks, humanize_jitter, jitter_range,
    jitter_spec, locked_seed, note_channel, prob_allows, prob_seed, Expression,
};
use vstd::prelude::*;
use vstd::string::*;

verus! {

/// Whole ticks in `beats` at `ppqn` ticks per beat, rounded down.
pub open spec fn ticks_of(beats: RationalTime, ppqn: int) -> int {
    RationalTime::mul_int_spec_of(beats, ppqn).floor_spec()
}

/// [`ticks_of`] stays within half the `i64` range.
pub open spec fn ticks_ok(beats: RationalTime, ppqn: int) -> bool {
    &&& RationalTime::mul_int_ok(beats, ppqn)
    &&& RationalTime::mul_int_spec_of(beats, ppqn).floor_ok()
    &&& i64::MIN / 2 <= ticks_of(beats, ppqn) <= i64::MAX / 2
}

/// Swing in ticks for grid step `pos`: odd steps move by
/// `(swing - 50) * ppqn / 100`, rounded towards zero (`ppqn` taken as an
/// `i32`).
pub open spec fn swing_ticks(swing: u8, pos: int, ppqn: int) -> int {
    if pos % 2 == 1 {
        div_trunc((swing - 50) * ((ppqn as i32) as int), 100)
    } else {
        0
    }
}

/// The swing of grid step `pos` stays within `i32`.
pub open spec fn swing_ok(swing: u8, pos: int, ppqn: int) -> bool {
    pos % 2 == 1 ==> i32::MIN <= (swing - 50) * ((ppqn as i32) as int) <= i32::MAX
}

/// The seed of the probability roll for grid step `pos`.
pub open spec fn hit_seed(prob_lock: bool, pos: int, clock_nanos: u64) -> int {
    if prob_lock {
        locked_seed(pos as u64)
    } else {
        clock_nanos as int
    }
}

/// A hit on grid step `pos` of a note with probability `prob` plays: the
/// Euclidean mask (if any) has a pulse there and the roll passes.
pub open spec fn hit_passes(mask: Seq<bool>, pos: int, prob: u8, seed: int) -> bool {
    &&& (mask.len() == 0 || mask[pos % (mask.len() as int)])
    &&& (prob >= 100 || seed % 100 < prob)
}

/// The 0-based MIDI channel of a clip's notes: 9 on a drum channel, else
/// the clip's 1-based channel less one, kept to four bits.
pub open spec fn channel_spec(is_drum: bool, midi_channel: u8) -> int {
    if is_drum {
        9
    } else {
        (if midi_channel == 0 {
            0
        } else {
            midi_channel - 1
        }) % 16
    }
}

/// The `(note, velocity)` pairs a hit plays: on a drum channel the mapped
/// drum note of the grid step, else every voice of the note.
pub open spec fn hit_notes(n: Note, drum_map: Option<[u8; 16]>, pos: int) -> Seq<(u8, u8)> {
    match drum_map {
        Some(m) => seq![(m@[pos % 16], n.velocity)],
        None => all_note_ons_spec(n),
    }
}

/// Every voice name of `n` parses to a MIDI note.
pub open spec fn notes_fit(n: Note) -> bool {
    &&& note_value_fits(n.note@)
    &&& forall|i: int| 0 <= i < n.chord_notes@.len() ==> note_value_fits(#[trigger] n.chord_notes@[i]@)
}

/// Where in its master step a hit starts, in ticks: the hit's own offset
/// plus swing, the pattern's microshift and the humanization jitter, never
/// before the step.
pub open spec fn plan_offset(p: Pattern, hit: WindowHit, base: u64, ppqn: int) -> int {
    hit_offset_spec(
        ticks_of(hit.offset, ppqn),
        swing_ticks(p.swing, hit.local_step as int, ppqn),
        p.microshift as int,
        jitter_spec(base, hit.local_step as u64, jitter_range(ppqn, p.humanization as int)),
    )
}

/// A planned hit starts at its own offset in the master step (in whole
/// ticks) moved by its swing, the pattern's microshift and the
/// humanization jitter, and never before the step: so with no swing, no
/// microshift and no humanization it starts exactly at its own offset.
pub proof fn lemma_planned_offset(
    r: HitPlan,
    p: Pattern,
    ev: NoteEvent,
    hit: WindowHit,
    base: u64,
    ppqn: int,
    drum_map: Option<[u8; 16]>,
    midi_channel: u8,
)
    requires
        plan_is(r, p, ev, hit, base, ppqn, drum_map, midi_channel),
    ensures
        ({
            let total = ticks_of(hit.offset, ppqn) + swing_ticks(p.swing, hit.local_step as int, ppqn) + p.microshift
                + jitter_spec(base, hit.local_step as u64, jitter_range(ppqn, p.humanization as int));
            r.offset_ticks == if total < 0 {
                0
            } else {
                total
            }
        }),
        p.swing == 50 && p.microshift == 0 && p.humanization == 0 && ticks_of(hit.offset, ppqn) >= 0 ==> r.offset_ticks
            == ticks_of(hit.offset, ppqn),
{
    if p.swing == 50 {
        assert(swing_ticks(p.swing, hit.local_step as int, ppqn) == 0);
    }
    if p.humanization == 0 {
        assert(jitter_range(ppqn, 0) == 0);
    }
}

/// Two hits on the same grid step keep their order once planned: the later
/// one in the window starts no earlier, and when the earlier one starts
/// after the step's first tick they are as far apart as their own offsets.
pub proof fn lemma_planned_offsets_keep_order(p: Pattern, h1: WindowHit, h2: WindowHit, base: u64, ppqn: int)
    requires
        h1.local_step == h2.local_step,
        ticks_of(h1.offset, ppqn) <= ticks_of(h2.offset, ppqn),
    ensures
        plan_offset(p, h1, base, ppqn) <= plan_offset(p, h2, base, ppqn),
        plan_offset(p, h1, base, ppqn) > 0 ==> plan_offset(p, h2, base, ppqn) - plan_offset(p, h1, base, ppqn) == ticks_of(
            h2.offset,
            ppqn,
        ) - ticks_of(h1.offset, ppqn),
{
}

/// Swing moves only odd grid steps, not at all at 50, later above 50 and
/// earlier below it, by at most `|swing - 50|` hundredths of a beat.
pub proof fn lemma_swing_direction(swing: u8, pos: int, ppqn: int)
    requires
        0 <= ppqn <= i32::MAX,
    ensures
        pos % 2 == 0 ==> swing_ticks(swing, pos, ppqn) == 0,
        swing == 50 ==> swing_ticks(swing, pos, ppqn) == 0,
        swing > 50 ==> 0 <= swing_ticks(swing, pos, ppqn) <= (swing - 50) * ppqn / 100,
        swing < 50 ==> -((50 - swing) * ppqn / 100) <= swing_ticks(swing, pos, ppqn) <= 0,
{
    assert((ppqn as i32) as int == ppqn);
    if swing == 50 {
        assert((swing - 50) * ppqn == 0);
    }
    if swing > 50 {
        assert(0 <= (swing - 50) * ppqn) by (nonlinear_arith)
            requires
                swing > 50,
                ppqn >= 0,
        ;
    }
    if swing < 50 {
        assert((swing - 50) * ppqn == -((50 - swing) * ppqn)) by (nonlinear_arith);
        assert(0 <= (50 - swing) * ppqn) by (nonlinear_arith)
            requires
                swing < 50,
                ppqn >= 0,
        ;
    }
}

/// A planned hit keeps its event and grid step, lasts at least one tick
/// (its event's length in ticks when that is one or more), plays on MIDI
/// channel 10 with the drum map's note for its step on a drum channel and
/// otherwise on the clip's channel (1-16 written as 0-15) with every voice
/// of its note, and carries the note's expression.
pub proof fn lemma_planned_hit(
    r: HitPlan,
    p: Pattern,
    ev: NoteEvent,
    hit: WindowHit,
    base: u64,
    ppqn: int,
    drum_map: Option<[u8; 16]>,
    midi_channel: u8,
)
    requires
        plan_is(r, p, ev, hit, base, ppqn, drum_map, midi_channel),
    ensures
        r.event_index == hit.event_index && r.pos == hit.local_step,
        r.gate_ticks >= 1,
        ticks_of(ev.duration, ppqn) >= 1 ==> r.gate_ticks == ticks_of(ev.duration, ppqn),
        drum_map matches Some(m) ==> r.channel == 9 && r.notes@ == seq![(m@[(hit.local_step % 16) as int], ev.note.velocity)],
        drum_map is None ==> r.channel < 16 && r.notes@ == all_note_ons_spec(ev.note),
        drum_map is None && 1 <= midi_channel <= 16 ==> r.channel == midi_channel - 1,
        r.expression.pitch_bend == ev.note.pitch_bend && r.expression.pressure == ev.note.pressure
            && r.expression.timbre == ev.note.timbre,
{
}

/// With no Euclidean mask a note of full probability always plays, and a
/// note of zero probability never does.
pub proof fn lemma_hit_gates(pos: int, prob: u8, seed: int)
    requires
        seed >= 0,
    ensures
        prob >= 100 ==> hit_passes(Seq::empty(), pos, prob, seed),
        prob == 0 ==> !hit_passes(Seq::empty(), pos, prob, seed),
{
}

/// A hit's gate in ticks: its event's duration, at least one tick.
pub open spec fn plan_gate(ev: NoteEvent, ppqn: int) -> int {
    if ticks_of(ev.duration, ppqn) < 1 {
        1
    } else {
        ticks_of(ev.duration, ppqn)
    }
}

/// What one hit of a clip plays.
#[derive(Debug)]
pub struct HitPlan {
    /// The event the hit belongs to.
    pub event_index: usize,
    /// The hit's grid step in the pattern.
    pub pos: usize,
    /// Ticks into the master step at which the notes start.
    pub offset_ticks: u64,
    /// How many ticks the notes last.
    pub gate_ticks: u64,
    /// The 0-based MIDI channel.
    pub channel: u8,
    /// `(note, velocity)` pairs to start.
    pub notes: Vec<(u8, u8)>,
    /// The note's expression.
    pub expression: Expression,
}

/// `r` is the plan of `hit` (of event `ev`) of pattern `p` on master step
/// `base`.
pub open spec fn plan_is(
    r: HitPlan,
    p: Pattern,
    ev: NoteEvent,
    hit: WindowHit,
    base: u64,
    ppqn: int,
    drum_map: Option<[u8; 16]>,
    midi_channel: u8,
) -> bool {
    &&& r.event_index == hit.event_index
    &&& r.pos == hit.local_step
    &&& r.offset_ticks == plan_offset(p, hit, base, ppqn)
    &&& r.gate_ticks == plan_gate(ev, ppqn)
    &&& r.channel == channel_spec(drum_map is Some, midi_channel)
    &&& r.notes@ == hit_notes(ev.note, drum_map, hit.local_step as int)
    &&& r.expression == (Expression {
        pitch_bend: ev.note.pitch_bend,
        pressure: ev.note.pressure,
        timbre: ev.note.timbre,
    })
}

/// Plan `hit` of event `ev` of pattern `p` on master step `base`: `None`
/// when the Euclidean mask (empty = none) or the note's probability roll
/// (seeded by the step when the pattern's probability is locked, else by
/// `clock_nanos`) keeps it silent.
pub fn plan_hit(
    p: &Pattern,
    ev: &NoteEvent,
    hit: &WindowHit,
    base: u64,
    ppqn: u32,
    mask: &[bool],
    drum_map: Option<[u8; 16]>,
    midi_channel: u8,
    clock_nanos: u64,
) -> (r: Option<HitPlan>)
    requires
        swing_ok(p.swing, hit.local_step as int, ppqn as int),
        ticks_ok(hit.offset, ppqn as int),
        ticks_ok(ev.duration, ppqn as int),
        drum_map is None ==> notes_fit(ev.note),
    ensures
        r is Some <==> hit_passes(
            mask@,
            hit.local_step as int,
            ev.note.prob,
            hit_seed(p.prob_lock, hit.local_step as int, clock_nanos),
        ),
        r matches Some(x) ==> plan_is(x, *p, *ev, *hit, base, ppqn as int, drum_map, midi_channel),
{
    let pos = hit.local_step;
    if !euclid_allows(mask, pos) {
        return None;
    }
    let seed = prob_seed(p.prob_lock, pos as u64, clock_nanos);
    if !prob_allows(ev.note.prob, seed) {
        return None;
    }
    let pq = ppqn as i64;
    let step_ticks: i64 = if pq / 4 < 1 {
        1
    } else {
        pq / 4
    };
    proof {
        assert(0 <= step_ticks * (p.humanization as int) <= 0x4000_0000 * 255) by (nonlinear_arith)
            requires
                1 <= step_ticks <= 0x4000_0000,
                p.humanization <= 255,
        ;
    }
    let range = step_ticks * (p.humanization as i64) / 200;
    let jitter = humanize_jitter(base, pos as u64, range);
    let swing = p.swing_offset(pos, ppqn);
    let off = hit_offset_ticks(ev_offset_ticks(hit.offset, pq), swing, p.microshift, jitter);
    let gate = gate_ticks(ev_offset_ticks(ev.duration, pq));
    let ch = note_channel(drum_map.is_some(), midi_channel);
    let notes = match drum_map {
        Some(m) => {
            let mut v: Vec<(u8, u8)> = Vec::new();
            v.push((m[pos % 16], ev.note.velocity));
            proof {
                assert(v@ =~= seq![(m@[pos as int % 16], ev.note.velocity)]);
            }
            v
        },
        None => ev.note.all_note_ons(),
    };
    Some(
        HitPlan {
            event_index: hit.event_index,
            pos,
            offset_ticks: off,
            gate_ticks: gate,
            channel: ch,
            notes,
            expression: Expression {
                pitch_bend: ev.note.pitch_bend,
                pressure: ev.note.pressure,
                timbre: ev.note.timbre,
            },
        },
    )
}

/// Hit `hit` (of `events`) plays.
pub open spec fn hit_kept(p: Pattern, events: Seq<NoteEvent>, hit: WindowHit, mask: Seq<bool>, clock_nanos: u64) -> bool {
    hit_passes(
        mask,
        hit.local_step as int,
        events[hit.event_index as int].note.prob,
        hit_seed(p.prob_lock, hit.local_step as int, clock_nanos),
    )
}

/// The positions among `hits[..k]` of the hits that play, in order.
pub open spec fn kept_hits(
    p: Pattern,
    events: Seq<NoteEvent>,
    hits: Seq<WindowHit>,
    k: int,
    mask: Seq<bool>,
    clock_nanos: u64,
) -> Seq<int>
    decreases k,
{
    if k <= 0 {
        Seq::empty()
    } else {
        let prev = kept_hits(p, events, hits, k - 1, mask, clock_nanos);
        if hit_kept(p, events, hits[k - 1], mask, clock_nanos) {
            prev.push(k - 1)
        } else {
            prev
        }
    }
}

/// Every hit's arithmetic stays in range and names an event.
pub open spec fn hits_ok(events: Seq<NoteEvent>, hits: Seq<WindowHit>, ppqn: int, drum: bool) -> bool {
    forall|h: int|
        0 <= h < hits.len() ==> {
            let e = (#[trigger] hits[h]).event_index as int;
            &&& 0 <= e < events.len()
            &&& ticks_ok(hits[h].offset, ppqn)
            &&& ticks_ok(events[e].duration, ppqn)
            &&& (!drum ==> notes_fit(events[e].note))
        }
}

/// Plan every hit of a clip's window on master step `base`, in hit order,
/// leaving out those the Euclidean mask or the probability roll silences.
pub fn plan_hits(
    p: &Pattern,
    events: &[NoteEvent],
    hits: &[WindowHit],
    base: u64,
    ppqn: u32,
    mask: &[bool],
    drum_map: Option<[u8; 16]>,
    midi_channel: u8,
    clock_nanos: u64,
) -> (r: Vec<HitPlan>)
    requires
        hits_ok(events@, hits@, ppqn as int, drum_map is Some),
        forall|h: int| 0 <= h < hits@.len() ==> swing_ok(p.swing, (#[trigger] hits@[h]).local_step as int, ppqn as int),
    ensures
        ({
            let kept = kept_hits(*p, events@, hits@, hits@.len() as int, mask@, clock_nanos);
            &&& r@.len() == kept.len()
            &&& forall|i: int|
                0 <= i < r@.len() ==> {
                    let h = hits@[kept[i]];
                    plan_is(#[trigger] r@[i], *p, events@[h.event_index as int], h, base, ppqn as int, drum_map, midi_channel)
                }
        }),
{
    let mut r: Vec<HitPlan> = Vec::new();
    let mut k: usize = 0;
    while k < hits.len()
        invariant
            k <= hits@.len(),
            hits_ok(events@, hits@, ppqn as int, drum_map is Some),
            forall|h: int| 0 <= h < hits@.len() ==> swing_ok(p.swing, (#[trigger] hits@[h]).local_step as int, ppqn as int),
            r@.len() == kept_hits(*p, events@, hits@, k as int, mask@, clock_nanos).len(),
            forall|i: int|
                0 <= i < r@.len() ==> {
                    let h = hits@[kept_hits(*p, events@, hits@, k as int, mask@, clock_nanos)[i]];
                    plan_is(#[trigger] r@[i], *p, events@[h.event_index as int], h, base, ppqn as int, drum_map, midi_channel)
                },
        decreases hits@.len() - k,
    {
        let hit = &hits[k];
        proof {
            assert(0 <= hits@[k as int].event_index < events@.len());
        }
        let ev = &events[hit.event_index];
        let ghost before = r@;
        let ghost prev = kept_hits(*p, events@, hits@, k as int, mask@, clock_nanos);
        match plan_hit(p, ev, hit, base, ppqn, mask, drum_map, midi_channel, clock_nanos) {
            Some(x) => {
                r.push(x);
                proof {
                    assert(kept_hits(*p, events@, hits@, k as int + 1, mask@, clock_nanos) == prev.push(k as int));
                    assert forall|i: int| 0 <= i < r@.len() implies {
                        let h = hits@[prev.push(k as int)[i]];
                        plan_is(#[trigger] r@[i], *p, events@[h.event_index as int], h, base, ppqn as int, drum_map, midi_channel)
                    } by {
                        if i < before.len() {
                            assert(r@[i] == before[i]);
                            assert(prev.push(k as int)[i] == prev[i]);
                        }
                    }
                }
            },
            None => {
                proof {
                    assert(kept_hits(*p, events@, hits@, k as int + 1, mask@, clock_nanos) == prev);
                }
            },
        }
        k = k + 1;
    }
    r
}

/// The Euclidean mask a pattern's hits pass through when its Euclidean gate
/// is on: `E(max(fill, 1), max(len, 2))`; empty (no gate) when it is off.
pub fn euclid_mask(p: &Pattern, enabled: bool) -> (r: Vec<bool>)
    ensures
        enabled ==> r@ == bjorklund(
            if p.euclid_fill < 1 {
                1
            } else {
                p.euclid_fill as int
            },
            if p.euclid_len < 2 {
                2
            } else {
                p.euclid_len as int
            },
        ),
        !enabled ==> r@.len() == 0,
{
    if enabled {
        let fill = if p.euclid_fill < 1 {
            1
        } else {
            p.euclid_fill
        };
        let len = if p.euclid_len < 2 {
            2
        } else {
            p.euclid_len
        };
        euclidean_rhythm(fill, len)
    } else {
        Vec::new()
    }
}

// ─── Arrangement playback ───────────────────────────────────────────────────

/// What one hit of an arrangement clip plays: every voice of its note on
/// the routed row's channel, with no groove.
#[derive(Debug)]
pub struct ArrangementPlan {
    pub offset_ticks: u64,
    pub gate_ticks: u64,
    pub channel: u8,
    pub notes: Vec<(u8, u8)>,
}

/// `r` is the arrangement plan of `hit` of event `ev`: the hit's offset in
/// ticks (at least 0), its gate (at least 1), the row's channel and the
/// note's voices.
pub open spec fn arrangement_plan_is(r: ArrangementPlan, ev: NoteEvent, hit: WindowHit, ppqn: int, midi_channel: u8) -> bool {
    &&& r.offset_ticks == (if ticks_of(hit.offset, ppqn) < 0 {
        0
    } else {
        ticks_of(hit.offset, ppqn)
    })
    &&& r.gate_ticks == plan_gate(ev, ppqn)
    &&& r.channel == channel_spec(false, midi_channel)
    &&& r.notes@ == all_note_ons_spec(ev.note)
}

/// Plan every hit of an arrangement clip's window, in hit order.
pub fn plan_arrangement_hits(events: &[NoteEvent], hits: &[WindowHit], ppqn: u32, midi_channel: u8) -> (r: Vec<
    ArrangementPlan,
>)
    requires
        hits_ok(events@, hits@, ppqn as int, false),
    ensures
        r@.len() == hits@.len(),
        forall|i: int|
            0 <= i < r@.len() ==> arrangement_plan_is(
                #[trigger] r@[i],
                events@[hits@[i].event_index as int],
                hits@[i],
                ppqn as int,
                midi_channel,
            ),
{
    let mut r: Vec<ArrangementPlan> = Vec::new();
    let pq = ppqn as i64;
    let ch = note_channel(false, midi_channel);
    let mut k: usize = 0;
    while k < hits.len()
        invariant
            k <= hits@.len(),
            pq == ppqn as i64,
            ch == channel_spec(false, midi_channel),
            hits_ok(events@, hits@, ppqn as int, false),
            r@.len() == k,
            forall|i: int|
                0 <= i < k ==> arrangement_plan_is(
                    #[trigger] r@[i],
                    events@[hits@[i].event_index as int],
                    hits@[i],
                    ppqn as int,
                    midi_channel,
                ),
        decreases hits@.len() - k,
    {
        let hit = &hits[k];
        proof {
            assert(0 <= hits@[k as int].event_index < events@.len());
        }
        let ev = &events[hit.event_index];
        let o = ev_offset_ticks(hit.offset, pq);
        let offset: u64 = if o < 0 {
            0
        } else {
            o as u64
        };
        let gate = gate_ticks(ev_offset_ticks(ev.duration, pq));
        let notes = ev.note.all_note_ons();
        r.push(ArrangementPlan { offset_ticks: offset, gate_ticks: gate, channel: ch, notes });
        k = k + 1;
    }
    r
}

/// The bytes an arrangement note sends to its row's MIDI port: a note-on
/// and its note-off at once.
pub fn arrangement_port_messages(ch: u8, note: u8, vel: u8) -> (r: (Vec<u8>, Vec<u8>))
    ensures
        r.0@ == seq![0x90u8 | ch, note, vel],
        r.1@ == seq![0x80u8 | ch, note, 0u8],
{
    let mut on: Vec<u8> = Vec::new();
    on.push(0x90u8 | ch);
    on.push(note);
    on.push(vel);
    let mut off: Vec<u8> = Vec::new();
    off.push(0x80u8 | ch);
    off.push(note);
    off.push(0);
    proof {
        assert(on@ =~= seq![0x90u8 | ch, note, vel]);
        assert(off@ =~= seq![0x80u8 | ch, note, 0u8]);
    }
    (on, off)
}

/// The control change an automation value sends to a MIDI port.
pub fn automation_cc_message(ch: u8, cc: u8, val: u8) -> (r: Vec<u8>)
    ensures
        r@ == seq![0xB0u8 | ch, cc, val],
{
    let mut m: Vec<u8> = Vec::new();
    m.push(0xB0u8 | ch);
    m.push(cc);
    m.push(val);
    proof {
        assert(m@ =~= seq![0xB0u8 | ch, cc, val]);
    }
    m
}

/// The views of the last automation values sent: `(track, destination, value)`.
pub open spec fn sent_view(s: Seq<(usize, String, u8)>) -> Seq<(usize, Seq<char>, u8)> {
    s.map_values(|e: (usize, String, u8)| (e.0, e.1@, e.2))
}

/// The position of the entry for `(track, dest)` among the sent values, if
/// any (the first such).
pub open spec fn sent_index(s: Seq<(usize, Seq<char>, u8)>, track: usize, dest: Seq<char>, i: int) -> Option<int>
    decreases s.len() - i,
{
    if i < 0 || i >= s.len() {
        None
    } else if s[i].0 == track && s[i].1 == dest {
        Some(i)
    } else {
        sent_index(s, track, dest, i + 1)
    }
}

/// Record that lane `dest` of track `track` now quantises to `val`: returns
/// whether the value changed since it was last sent (so a CC is due). An
/// unchanged value leaves the record alone; a changed one replaces the
/// entry, a first one is added.
pub fn automation_changed(sent: &mut Vec<(usize, String, u8)>, track: usize, dest: &str, val: u8) -> (changed: bool)
    ensures
        match sent_index(sent_view(old(sent)@), track, dest@, 0) {
            Some(i) => {
                &&& changed == (old(sent)@[i].2 != val)
                &&& sent_view(final(sent)@) == sent_view(old(sent)@).update(i, (track, dest@, val))
            },
            None => {
                &&& changed
                &&& sent_view(final(sent)@) == sent_view(old(sent)@).push((track, dest@, val))
            },
        },
{
    let ghost sv = sent_view(sent@);
    let mut i: usize = 0;
    while i < sent.len()
        invariant
            i <= sent@.len(),
            sent@ == old(sent)@,
            sv == sent_view(sent@),
            sent_index(sv, track, dest@, 0) == sent_index(sv, track, dest@, i as int),
        decreases sent@.len() - i,
    {
        if sent[i].0 == track && str_eq(sent[i].1.as_str(), dest) {
            let old_val = sent[i].2;
            if old_val == val {
                proof {
                    assert(sent_view(sent@) =~= sv.update(i as int, (track, dest@, val)));
                }
                return false;
            }
            let name = sent[i].1.clone();
            sent.set(i, (track, name, val));
            proof {
                assert(sent_view(sent@) =~= sv.update(i as int, (track, dest@, val)));
            }
            return true;
        }
        i = i + 1;
    }
    sent.push((track, String::from_str(dest), val));
    proof {
        assert(sent_view(sent@) =~= sv.push((track, dest@, val)));
    }
    true
}

} // verus!
