//! Reading a Standard MIDI File's tracks: notes paired into step-grid
//! spans with their gate and controller values, the tempo and
//! time-signature maps, and a quick per-track summary.
//!
//! Events arrive as plain values, each with its delta time in ticks.

use crate::smf::MidiTrackInfo;
use midly::{MetaMessage as Meta, MidiMessage as Msg, TrackEventKind as Kind};
use std::collections::HashMap;
use vstd::prelude::*;
use vstd::string::*;

verus! {

broadcast use vstd::std_specs::hash::group_hash_axioms;

/// What a track event says.
#[derive(Debug, Clone)]
pub enum SmfEventKind {
    /// The track's name (decoded, surrounding white space removed).
    TrackName(String),
    /// A tempo change, in microseconds per beat.
    Tempo(u32),
    /// A time signature: numerator and the denominator's power of two.
    TimeSignature(u8, u8),
    NoteOn { channel: u8, key: u8, vel: u8 },
    NoteOff { channel: u8, key: u8 },
    Controller { channel: u8, controller: u8, value: u8 },
    PitchBend { channel: u8, bend: i16 },
    /// Any other channel message.
    OtherMidi { channel: u8 },
    /// Any other event.
    Other,
}

/// A track event and the ticks since the previous one.
#[derive(Debug, Clone)]
pub struct SmfEvent {
    pub delta: u32,
    pub kind: SmfEventKind,
}

/// A note read from a track, placed on the step grid.
#[derive(Debug, Clone, Copy, PartialEq, Eq, Structural)]
pub struct NoteSpan {
    /// The step the note starts on.
    pub step: usize,
    pub pitch: u8,
    pub vel: u8,
    /// Length in percent of a step (10-400).
    pub gate: u16,
    /// Ticks into its step of the event that ended the note; `None` for a
    /// note still sounding at the end of the track.
    pub close_offset: Option<u32>,
    /// CC 1, CC 74 and pitch bend last seen on the note's start step.
    pub cc01: u8,
    pub cc74: u8,
    pub bend: i16,
}

/// Ticks per step, at least 1.
pub open spec fn tps1(tps: u32) -> int {
    if tps == 0 {
        1
    } else {
        tps as int
    }
}

/// Gate of a note held over the given ticks.
///
/// It is the held length (at least one tick) as a percentage of a step,
/// kept within 10-400.
pub open spec fn gate_of(on_tick: int, tick: int, tps: u32) -> u16 {
    let d = if tick - on_tick < 1 {
        1
    } else {
        tick - on_tick
    };
    let g = d * 100 / tps1(tps);
    (if g < 10 {
        10
    } else if g > 400 {
        400
    } else {
        g
    }) as u16
}

/// `m[k]`, or `z` when `k` is not in `m`.
pub open spec fn value_or<V>(m: Map<usize, V>, k: usize, z: V) -> V {
    if m.contains_key(k) {
        m[k]
    } else {
        z
    }
}

/// The state of reading a track.
pub struct ScanState {
    /// Absolute tick of the last event read.
    pub tick: int,
    pub name: Seq<char>,
    /// For each key, the tick and velocity of its sounding note.
    pub active: Seq<Option<(u32, u8)>>,
    /// Notes ended so far, in the order they ended.
    pub spans: Seq<NoteSpan>,
    pub ch_hint: u8,
    /// CC 1, CC 74 and pitch bend last seen, by step.
    pub cc01: Map<usize, u8>,
    pub cc74: Map<usize, u8>,
    pub bend: Map<usize, i16>,
}

/// Nothing read yet.
pub open spec fn scan_start() -> ScanState {
    ScanState {
        tick: 0,
        name: Seq::empty(),
        active: Seq::new(256, |i: int| None),
        spans: Seq::empty(),
        ch_hint: 0,
        cc01: Map::empty(),
        cc74: Map::empty(),
        bend: Map::empty(),
    }
}

/// The span of `key`'s sounding note ended now.
pub open spec fn ended_span(st: ScanState, key: u8, tps: u32) -> NoteSpan {
    let on = st.active[key as int].unwrap();
    let s = (on.0 as int / tps1(tps)) as usize;
    NoteSpan {
        step: s,
        pitch: key,
        vel: on.1,
        gate: gate_of(on.0 as int, st.tick, tps),
        close_offset: Some((st.tick % tps1(tps)) as u32),
        cc01: value_or(st.cc01, s, 0u8),
        cc74: value_or(st.cc74, s, 0u8),
        bend: value_or(st.bend, s, 0i16),
    }
}

/// End `key`'s sounding note, if there is one.
pub open spec fn end_note(st: ScanState, key: u8, tps: u32) -> ScanState {
    if st.active[key as int].is_some() {
        ScanState { active: st.active.update(key as int, None), spans: st.spans.push(ended_span(st, key, tps)), ..st }
    } else {
        st
    }
}

/// A channel message on `channel` marks the track as drums when drums are
/// detected and the channel is 10 (index 9).
pub open spec fn mark_drums(st: ScanState, channel: u8, drums: bool) -> ScanState {
    if drums && channel == 9 {
        ScanState { ch_hint: 9, ..st }
    } else {
        st
    }
}

/// Read one event.
pub open spec fn scan_step(st0: ScanState, ev: SmfEvent, tps: u32, drums: bool) -> ScanState {
    let st = ScanState { tick: st0.tick + ev.delta, ..st0 };
    let step = (st.tick / tps1(tps)) as usize;
    match ev.kind {
        SmfEventKind::TrackName(n) => ScanState { name: n@, ..st },
        SmfEventKind::NoteOn { channel, key, vel } => {
            let st1 = mark_drums(st, channel, drums);
            if vel == 0 {
                end_note(st1, key, tps)
            } else {
                let st2 = end_note(st1, key, tps);
                ScanState {
                    active: st2.active.update(key as int, Some((st2.tick as u32, vel))),
                    ch_hint: if st2.ch_hint == 0 {
                        channel
                    } else {
                        st2.ch_hint
                    },
                    ..st2
                }
            }
        },
        SmfEventKind::NoteOff { channel, key } => end_note(mark_drums(st, channel, drums), key, tps),
        SmfEventKind::Controller { channel, controller, value } => {
            let st1 = mark_drums(st, channel, drums);
            if controller == 1 {
                ScanState { cc01: st1.cc01.insert(step, value), ..st1 }
            } else if controller == 74 {
                ScanState { cc74: st1.cc74.insert(step, value), ..st1 }
            } else {
                st1
            }
        },
        SmfEventKind::PitchBend { channel, bend } => {
            let st1 = mark_drums(st, channel, drums);
            ScanState { bend: st1.bend.insert(step, bend), ..st1 }
        },
        SmfEventKind::OtherMidi { channel } => mark_drums(st, channel, drums),
        _ => st,
    }
}

/// The state after reading the first `n` events.
pub open spec fn scan(events: Seq<SmfEvent>, n: int, tps: u32, drums: bool) -> ScanState
    decreases n,
{
    if n <= 0 {
        scan_start()
    } else {
        scan_step(scan(events, n - 1, tps, drums), events[n - 1], tps, drums)
    }
}

/// Sum of the first `n` deltas: the absolute tick of event `n - 1`.
pub open spec fn delta_sum(events: Seq<SmfEvent>, n: int) -> int
    decreases n,
{
    if n <= 0 {
        0
    } else {
        delta_sum(events, n - 1) + events[n - 1].delta
    }
}

/// The notes still sounding at the end, for keys below `n`, by key: full
/// step length, no closing offset.
pub open spec fn still_sounding(st: ScanState, n: int, tps: u32) -> Seq<NoteSpan>
    decreases n,
{
    if n <= 0 {
        Seq::empty()
    } else {
        still_sounding(st, n - 1, tps) + match st.active[n - 1] {
            Some(on) => {
                let s = (on.0 as int / tps1(tps)) as usize;
                seq![
                    NoteSpan {
                        step: s,
                        pitch: (n - 1) as u8,
                        vel: on.1,
                        gate: 100,
                        close_offset: None,
                        cc01: value_or(st.cc01, s, 0u8),
                        cc74: value_or(st.cc74, s, 0u8),
                        bend: value_or(st.bend, s, 0i16),
                    },
                ]
            },
            None => Seq::empty(),
        }
    }
}

/// Every note of a track: those ended by an event, then those still
/// sounding at the end.
pub open spec fn track_spans(events: Seq<SmfEvent>, tps: u32, drums: bool) -> Seq<NoteSpan> {
    let st = scan(events, events.len() as int, tps, drums);
    st.spans + still_sounding(st, 256, tps)
}

/// Ordered by start step.
pub open spec fn by_step(s: Seq<NoteSpan>) -> bool {
    forall|i: int, j: int| 0 <= i < j < s.len() ==> s[i].step <= s[j].step
}

pub proof fn lemma_delta_sum_mono(events: Seq<SmfEvent>, i: int, j: int)
    requires
        0 <= i <= j <= events.len(),
    ensures
        delta_sum(events, i) <= delta_sum(events, j),
    decreases j,
{
    if j > i {
        lemma_delta_sum_mono(events, i, j - 1);
    }
}

proof fn lemma_scan_tick(events: Seq<SmfEvent>, n: int, tps: u32, drums: bool)
    requires
        0 <= n <= events.len(),
    ensures
        scan(events, n, tps, drums).tick == delta_sum(events, n),
        scan(events, n, tps, drums).active.len() == 256,
    decreases n,
{
    if n > 0 {
        lemma_scan_tick(events, n - 1, tps, drums);
    }
}

/// A value of `m` at `k`, or `z`.
fn get_or<V: Copy>(m: &HashMap<usize, V>, k: usize, z: V) -> (r: V)
    ensures
        r == value_or(m@, k, z),
{
    match m.get(&k) {
        Some(v) => *v,
        None => z,
    }
}

/// End `key`'s sounding note at `tick`, if there is one.
fn end_note_exec(
    active: &mut Vec<Option<(u32, u8)>>,
    spans: &mut Vec<NoteSpan>,
    key: u8,
    tick: u32,
    tps: u32,
    cc01: &HashMap<usize, u8>,
    cc74: &HashMap<usize, u8>,
    bend: &HashMap<usize, i16>,
    Ghost(st): Ghost<ScanState>,
)
    requires
        old(active)@.len() == 256,
        st.active == old(active)@,
        st.spans == old(spans)@,
        st.tick == tick,
        st.cc01 == cc01@,
        st.cc74 == cc74@,
        st.bend == bend@,
    ensures
        final(active)@ == end_note(st, key, tps).active,
        final(spans)@ == end_note(st, key, tps).spans,
{
    let t: u32 = if tps == 0 {
        1
    } else {
        tps
    };
    let k = key as usize;
    if let Some((on_tick, on_vel)) = active[k] {
        let d: u64 = if tick <= on_tick {
            1
        } else {
            (tick - on_tick) as u64
        };
        let g: u64 = d * 100 / (t as u64);
        let gate: u16 = if g < 10 {
            10
        } else if g > 400 {
            400
        } else {
            g as u16
        };
        let s = (on_tick / t) as usize;
        let span = NoteSpan {
            step: s,
            pitch: key,
            vel: on_vel,
            gate,
            close_offset: Some(tick % t),
            cc01: get_or(cc01, s, 0u8),
            cc74: get_or(cc74, s, 0u8),
            bend: get_or(bend, s, 0i16),
        };
        active.set(k, None);
        spans.push(span);
        proof {
            assert(span == ended_span(st, key, tps));
        }
    }
}

/// Read a track's events into its name, its notes placed on a grid of
/// `ticks_per_step` ticks (ordered by start step; notes on one step keep
/// the order in which the track ended them, then those still sounding at
/// its end by key) and a channel hint (the
/// channel of the first note, or 9 when drums are detected on channel 10).
pub fn extract_notes(track: &[SmfEvent], ticks_per_step: u32, detect_drums: bool) -> (r: (String, Vec<NoteSpan>, u8))
    requires
        delta_sum(track@, track@.len() as int) <= u32::MAX,
    ensures
        r.0@ == scan(track@, track@.len() as int, ticks_per_step, detect_drums).name,
        r.2 == scan(track@, track@.len() as int, ticks_per_step, detect_drums).ch_hint,
        r.1@.to_multiset() == track_spans(track@, ticks_per_step, detect_drums).to_multiset(),
        by_step(r.1@),
        forall|st: usize| #[trigger] with_step(r.1@, st) == with_step(track_spans(track@, ticks_per_step, detect_drums), st),
{
    let t: u32 = if ticks_per_step == 0 {
        1
    } else {
        ticks_per_step
    };
    let mut tick: u32 = 0;
    let mut name = String::new();
    let mut active: Vec<Option<(u32, u8)>> = Vec::new();
    let mut a: usize = 0;
    while a < 256
        invariant
            a <= 256,
            active@.len() == a,
            forall|j: int| 0 <= j < a ==> active@[j].is_none(),
        decreases 256 - a,
    {
        active.push(None);
        a = a + 1;
    }
    let mut spans: Vec<NoteSpan> = Vec::new();
    let mut ch_hint: u8 = 0;
    let mut cc01: HashMap<usize, u8> = HashMap::new();
    let mut cc74: HashMap<usize, u8> = HashMap::new();
    let mut bend: HashMap<usize, i16> = HashMap::new();
    proof {
        assert(active@ =~= scan_start().active);
        assert(name@ =~= Seq::<char>::empty());
    }
    let mut i: usize = 0;
    while i < track.len()
        invariant
            i <= track@.len(),
            delta_sum(track@, track@.len() as int) <= u32::MAX,
            ({
                let st = scan(track@, i as int, ticks_per_step, detect_drums);
                &&& st.tick == tick
                &&& st.name == name@
                &&& st.active == active@
                &&& st.spans == spans@
                &&& st.ch_hint == ch_hint
                &&& st.cc01 == cc01@
                &&& st.cc74 == cc74@
                &&& st.bend == bend@
            }),
            active@.len() == 256,
            t == tps1(ticks_per_step),
        decreases track@.len() - i,
    {
        let ghost st0 = scan(track@, i as int, ticks_per_step, detect_drums);
        proof {
            lemma_scan_tick(track@, i as int + 1, ticks_per_step, detect_drums);
            lemma_delta_sum_mono(track@, i as int + 1, track@.len() as int);
        }
        let ev = &track[i];
        tick = tick + ev.delta;
        let ghost st = ScanState { tick: st0.tick + ev.delta, ..st0 };
        let step = (tick / t) as usize;
        match &ev.kind {
            SmfEventKind::TrackName(n) => {
                name = n.clone();
            },
            SmfEventKind::NoteOn { channel, key, vel } => {
                if detect_drums && *channel == 9 {
                    ch_hint = 9;
                }
                let ghost st1 = mark_drums(st, *channel, detect_drums);
                end_note_exec(&mut active, &mut spans, *key, tick, ticks_per_step, &cc01, &cc74, &bend, Ghost(st1));
                if *vel != 0 {
                    active.set(*key as usize, Some((tick, *vel)));
                    if ch_hint == 0 {
                        ch_hint = *channel;
                    }
                }
            },
            SmfEventKind::NoteOff { channel, key } => {
                if detect_drums && *channel == 9 {
                    ch_hint = 9;
                }
                let ghost st1 = mark_drums(st, *channel, detect_drums);
                end_note_exec(&mut active, &mut spans, *key, tick, ticks_per_step, &cc01, &cc74, &bend, Ghost(st1));
            },
            SmfEventKind::Controller { channel, controller, value } => {
                if detect_drums && *channel == 9 {
                    ch_hint = 9;
                }
                if *controller == 1 {
                    cc01.insert(step, *value);
                } else if *controller == 74 {
                    cc74.insert(step, *value);
                }
            },
            SmfEventKind::PitchBend { channel, bend: b } => {
                if detect_drums && *channel == 9 {
                    ch_hint = 9;
                }
                bend.insert(step, *b);
            },
            SmfEventKind::OtherMidi { channel } => {
                if detect_drums && *channel == 9 {
                    ch_hint = 9;
                }
            },
            _ => {},
        }
        i = i + 1;
    }
    let ghost fin = scan(track@, track@.len() as int, ticks_per_step, detect_drums);
    // Notes still sounding at the end, by key.
    let ghost ended = spans@;
    let mut k: usize = 0;
    while k < 256
        invariant
            k <= 256,
            active@ == fin.active,
            active@.len() == 256,
            fin.cc01 == cc01@,
            fin.cc74 == cc74@,
            fin.bend == bend@,
            t == tps1(ticks_per_step),
            spans@ == ended + still_sounding(fin, k as int, ticks_per_step),
        decreases 256 - k,
    {
        if let Some((on_tick, on_vel)) = active[k] {
            let s = (on_tick / t) as usize;
            let span = NoteSpan {
                step: s,
                pitch: k as u8,
                vel: on_vel,
                gate: 100,
                close_offset: None,
                cc01: get_or(&cc01, s, 0u8),
                cc74: get_or(&cc74, s, 0u8),
                bend: get_or(&bend, s, 0i16),
            };
            spans.push(span);
        }
        proof {
            assert(spans@ =~= ended + still_sounding(fin, k as int + 1, ticks_per_step));
        }
        k = k + 1;
    }
    let sorted = sort_by_step(spans);
    (name, sorted, ch_hint)
}

/// The spans of `v` that start on step `st`, in order.
pub open spec fn with_step(v: Seq<NoteSpan>, st: usize) -> Seq<NoteSpan>
    decreases v.len(),
{
    if v.len() == 0 {
        Seq::empty()
    } else if v.last().step == st {
        with_step(v.drop_last(), st).push(v.last())
    } else {
        with_step(v.drop_last(), st)
    }
}

proof fn lemma_with_step_add(a: Seq<NoteSpan>, b: Seq<NoteSpan>, st: usize)
    ensures
        with_step(a + b, st) == with_step(a, st) + with_step(b, st),
    decreases b.len(),
{
    if b.len() == 0 {
        assert(a + b =~= a);
        assert(with_step(a, st) + with_step(b, st) =~= with_step(a, st));
    } else {
        assert((a + b).drop_last() =~= a + b.drop_last());
        assert((a + b).last() == b.last());
        lemma_with_step_add(a, b.drop_last(), st);
        if b.last().step == st {
            assert(with_step(a, st) + with_step(b, st) =~= (with_step(a, st) + with_step(b.drop_last(), st)).push(b.last()));
        }
    }
}

proof fn lemma_with_step_none(b: Seq<NoteSpan>, st: usize)
    requires
        forall|j: int| 0 <= j < b.len() ==> (#[trigger] b[j]).step != st,
    ensures
        with_step(b, st) == Seq::<NoteSpan>::empty(),
    decreases b.len(),
{
    if b.len() > 0 {
        lemma_with_step_none(b.drop_last(), st);
    }
}

/// The spans ordered by start step, keeping spans with equal steps in their
/// order.
fn sort_by_step(v: Vec<NoteSpan>) -> (r: Vec<NoteSpan>)
    ensures
        r@.to_multiset() == v@.to_multiset(),
        by_step(r@),
        forall|st: usize| #[trigger] with_step(r@, st) == with_step(v@, st),
{
    let mut out: Vec<NoteSpan> = Vec::new();
    proof {
        assert(v@.take(0) =~= out@);
    }
    let mut i: usize = 0;
    while i < v.len()
        invariant
            i <= v@.len(),
            out@.to_multiset() == v@.take(i as int).to_multiset(),
            by_step(out@),
            forall|st: usize| #[trigger] with_step(out@, st) == with_step(v@.take(i as int), st),
        decreases v@.len() - i,
    {
        let x = v[i];
        let ghost before = out@;
        let mut k: usize = out.len();
        while k > 0 && x.step < out[k - 1].step
            invariant
                k <= out@.len(),
                out@ == before,
                forall|j: int| k <= j < out@.len() ==> x.step < out@[j].step,
            decreases k,
        {
            k = k - 1;
        }
        out.insert(k, x);
        proof {
            assert(out@ =~= before.insert(k as int, x));
            vstd::seq_lib::to_multiset_insert(before, k as int, x);
            assert(v@.take(i as int + 1) =~= v@.take(i as int).push(x));
            v@.take(i as int).to_multiset_ensures();
            assert forall|a: int, b: int| 0 <= a < b < out@.len() implies out@[a].step <= out@[b].step by {
                if b < k {
                    assert(out@[a] == before[a] && out@[b] == before[b]);
                } else if b == k as int {
                    assert(out@[b] == x && out@[a] == before[a]);
                } else if a == k as int {
                    assert(out@[a] == x && out@[b] == before[b - 1]);
                } else if a < k {
                    assert(out@[a] == before[a] && out@[b] == before[b - 1]);
                } else {
                    assert(out@[a] == before[a - 1] && out@[b] == before[b - 1]);
                }
            }
            let pre = before.take(k as int);
            let post = before.skip(k as int);
            assert(before =~= pre + post);
            assert(out@ =~= pre.push(x) + post);
            assert forall|st: usize| #[trigger] with_step(out@, st) == with_step(v@.take(i as int + 1), st) by {
                lemma_with_step_add(pre, post, st);
                lemma_with_step_add(pre.push(x), post, st);
                assert(pre.push(x).drop_last() =~= pre);
                if st == x.step {
                    lemma_with_step_none(post, st);
                    assert(with_step(pre, st) + with_step(post, st) =~= with_step(pre, st));
                    assert(with_step(pre.push(x), st) + with_step(post, st) =~= with_step(pre.push(x), st));
                }
                assert(v@.take(i as int + 1).drop_last() =~= v@.take(i as int));
            }
        }
        i = i + 1;
    }
    proof {
        assert(v@.take(v@.len() as int) =~= v@);
    }
    out
}

/// The tempo changes among the first `n` events, after a default of
/// 500 000 µs per beat (120 BPM) at tick 0: `(tick, µs per beat)`.
pub open spec fn tempo_points(events: Seq<SmfEvent>, n: int) -> Seq<(u32, u32)>
    decreases n,
{
    if n <= 0 {
        seq![(0u32, 500_000u32)]
    } else {
        tempo_points(events, n - 1) + match events[n - 1].kind {
            SmfEventKind::Tempo(us) => seq![(delta_sum(events, n) as u32, us)],
            _ => Seq::empty(),
        }
    }
}

/// The tempo map of a file: the tempo changes of its first track (which
/// holds the tempo in both single- and multi-track files) after the default
/// 120 BPM at tick 0.
pub fn build_tempo_map(tracks: &[Vec<SmfEvent>]) -> (r: Vec<(u32, u32)>)
    requires
        tracks@.len() > 0 ==> delta_sum(tracks@[0]@, tracks@[0]@.len() as int) <= u32::MAX,
    ensures
        tracks@.len() == 0 ==> r@ == seq![(0u32, 500_000u32)],
        tracks@.len() > 0 ==> r@ == tempo_points(tracks@[0]@, tracks@[0]@.len() as int),
{
    let mut map: Vec<(u32, u32)> = Vec::new();
    map.push((0, 500_000));
    proof {
        assert(map@ =~= seq![(0u32, 500_000u32)]);
    }
    if tracks.len() == 0 {
        return map;
    }
    let track = &tracks[0];
    let mut tick: u32 = 0;
    let mut i: usize = 0;
    while i < track.len()
        invariant
            i <= track@.len(),
            delta_sum(track@, track@.len() as int) <= u32::MAX,
            tick == delta_sum(track@, i as int),
            map@ == tempo_points(track@, i as int),
        decreases track@.len() - i,
    {
        proof {
            lemma_delta_sum_mono(track@, i as int + 1, track@.len() as int);
        }
        tick = tick + track[i].delta;
        if let SmfEventKind::Tempo(us) = &track[i].kind {
            map.push((tick, *us));
        }
        proof {
            assert(map@ =~= tempo_points(track@, i as int + 1));
        }
        i = i + 1;
    }
    map
}

/// The denominator a time signature's power of two stands for.
pub open spec fn denominator_of(exp: u8) -> u8 {
    match exp {
        0 => 1,
        1 => 2,
        2 => 4,
        3 => 8,
        4 => 16,
        5 => 32,
        6 => 64,
        _ => 128,
    }
}

fn denominator(exp: u8) -> (r: u8)
    ensures
        r == denominator_of(exp),
{
    match exp {
        0 => 1,
        1 => 2,
        2 => 4,
        3 => 8,
        4 => 16,
        5 => 32,
        6 => 64,
        _ => 128,
    }
}

/// The time signatures among the first `n` events: `(tick, numerator,
/// denominator)`.
pub open spec fn signature_points(events: Seq<SmfEvent>, n: int) -> Seq<(u32, u8, u8)>
    decreases n,
{
    if n <= 0 {
        Seq::empty()
    } else {
        signature_points(events, n - 1) + match events[n - 1].kind {
            SmfEventKind::TimeSignature(num, exp) => seq![(delta_sum(events, n) as u32, num, denominator_of(exp))],
            _ => Seq::empty(),
        }
    }
}

/// Every time-signature denominator among the events is a power of two
/// that fits a byte (`2^exp` with `exp < 8`).
pub open spec fn signatures_fit(events: Seq<SmfEvent>) -> bool {
    forall|i: int|
        0 <= i < events.len() ==> match #[trigger] events[i].kind {
            SmfEventKind::TimeSignature(_, exp) => exp < 8,
            _ => true,
        }
}

/// The time-signature map of a file, from its first track: `(tick,
/// numerator, denominator)` for each time signature, or 4/4 at tick 0 when
/// there is none.
pub fn build_time_sig_map(tracks: &[Vec<SmfEvent>]) -> (r: Vec<(u32, u8, u8)>)
    requires
        tracks@.len() > 0 ==> delta_sum(tracks@[0]@, tracks@[0]@.len() as int) <= u32::MAX,
        tracks@.len() > 0 ==> signatures_fit(tracks@[0]@),
    ensures
        ({
            let found = if tracks@.len() == 0 {
                Seq::empty()
            } else {
                signature_points(tracks@[0]@, tracks@[0]@.len() as int)
            };
            r@ == if found.len() == 0 {
                seq![(0u32, 4u8, 4u8)]
            } else {
                found
            }
        }),
{
    let mut map: Vec<(u32, u8, u8)> = Vec::new();
    if tracks.len() > 0 {
        let track = &tracks[0];
        let mut tick: u32 = 0;
        let mut i: usize = 0;
        while i < track.len()
            invariant
                i <= track@.len(),
                delta_sum(track@, track@.len() as int) <= u32::MAX,
                tick == delta_sum(track@, i as int),
                map@ == signature_points(track@, i as int),
            decreases track@.len() - i,
        {
            proof {
                lemma_delta_sum_mono(track@, i as int + 1, track@.len() as int);
            }
            tick = tick + track[i].delta;
            if let SmfEventKind::TimeSignature(num, exp) = &track[i].kind {
                map.push((tick, *num, denominator(*exp)));
            }
            proof {
                assert(map@ =~= signature_points(track@, i as int + 1));
            }
            i = i + 1;
        }
    }
    if map.len() == 0 {
        map.push((0, 4, 4));
        proof {
            assert(map@ =~= seq![(0u32, 4u8, 4u8)]);
        }
    }
    map
}

/// What a quick scan of the first `n` events of a track learns: the last
/// name, the channel of the last channel message, how many notes start
/// (note-ons with a velocity) and whether any message is on channel 10.
pub open spec fn probe_scan(events: Seq<SmfEvent>, n: int) -> (Seq<char>, u8, nat, bool)
    decreases n,
{
    if n <= 0 {
        (Seq::empty(), 0u8, 0nat, false)
    } else {
        let p = probe_scan(events, n - 1);
        match events[n - 1].kind {
            SmfEventKind::TrackName(s) => (s@, p.1, p.2, p.3),
            SmfEventKind::NoteOn { channel, vel, .. } => (p.0, channel, p.2 + if vel > 0 {
                1nat
            } else {
                0nat
            }, p.3 || channel == 9),
            SmfEventKind::NoteOff { channel, .. } => (p.0, channel, p.2, p.3 || channel == 9),
            SmfEventKind::Controller { channel, .. } => (p.0, channel, p.2, p.3 || channel == 9),
            SmfEventKind::PitchBend { channel, .. } => (p.0, channel, p.2, p.3 || channel == 9),
            SmfEventKind::OtherMidi { channel } => (p.0, channel, p.2, p.3 || channel == 9),
            _ => p,
        }
    }
}

/// The channel of a channel message.
pub open spec fn channel_of(k: SmfEventKind) -> Option<u8> {
    match k {
        SmfEventKind::NoteOn { channel, .. } => Some(channel),
        SmfEventKind::NoteOff { channel, .. } => Some(channel),
        SmfEventKind::Controller { channel, .. } => Some(channel),
        SmfEventKind::PitchBend { channel, .. } => Some(channel),
        SmfEventKind::OtherMidi { channel } => Some(channel),
        _ => None,
    }
}

fn channel_of_event(k: &SmfEventKind) -> (r: Option<u8>)
    ensures
        r == channel_of(*k),
{
    match k {
        SmfEventKind::NoteOn { channel, .. } => Some(*channel),
        SmfEventKind::NoteOff { channel, .. } => Some(*channel),
        SmfEventKind::Controller { channel, .. } => Some(*channel),
        SmfEventKind::PitchBend { channel, .. } => Some(*channel),
        SmfEventKind::OtherMidi { channel } => Some(*channel),
        _ => None,
    }
}

/// The name a track without one is shown under: `TRK` and its 1-based
/// number, at least two digits.
pub open spec fn default_track_name(idx: int) -> Seq<char> {
    "TRK"@ + crate::text::pad2((idx + 1) as nat)
}

/// The summary of track `idx`: `None` for a track that starts no note.
pub open spec fn probe_info(events: Seq<SmfEvent>, idx: int) -> Option<(Seq<char>, u8, nat, bool)> {
    let p = probe_scan(events, events.len() as int);
    if p.2 == 0 {
        None
    } else {
        Some((
            if p.0.len() == 0 {
                default_track_name(idx)
            } else {
                p.0
            },
            p.1,
            p.2,
            p.3,
        ))
    }
}

/// The summaries of the first `n` tracks that start a note, in order.
pub open spec fn probe_all(tracks: Seq<Vec<SmfEvent>>, n: int) -> Seq<(Seq<char>, u8, nat, bool)>
    decreases n,
{
    if n <= 0 {
        Seq::empty()
    } else {
        probe_all(tracks, n - 1) + match probe_info(tracks[n - 1]@, n - 1) {
            Some(x) => seq![x],
            None => Seq::empty(),
        }
    }
}

/// Summarise track `idx`: its name (or `TRKnn`), channel, note count and
/// whether it plays on channel 10; `None` when it starts no note.
pub fn probe_track(events: &[SmfEvent], idx: usize) -> (r: Option<MidiTrackInfo>)
    requires
        idx < usize::MAX,
        events@.len() < usize::MAX,
    ensures
        match probe_info(events@, idx as int) {
            None => r.is_none(),
            Some(x) => r.is_some() && r.unwrap().name@ == x.0 && r.unwrap().channel == x.1 && r.unwrap().note_count
                == x.2 && r.unwrap().is_drum == x.3,
        },
{
    let mut name = String::new();
    let mut channel: u8 = 0;
    let mut note_count: usize = 0;
    let mut is_drum = false;
    let mut i: usize = 0;
    proof {
        assert(name@ =~= Seq::<char>::empty());
    }
    while i < events.len()
        invariant
            i <= events@.len(),
            events@.len() < usize::MAX,
            probe_scan(events@, i as int) == (name@, channel, note_count as nat, is_drum),
            note_count <= i,
        decreases events@.len() - i,
    {
        let kind = &events[i].kind;
        if let SmfEventKind::TrackName(n) = kind {
            name = n.clone();
        }
        if let Some(ch) = channel_of_event(kind) {
            if ch == 9 {
                is_drum = true;
            }
            channel = ch;
        }
        if let SmfEventKind::NoteOn { vel, .. } = kind {
            if *vel > 0 {
                note_count = note_count + 1;
            }
        }
        i = i + 1;
    }
    if note_count == 0 {
        return None;
    }
    if name.unicode_len() == 0 {
        let mut s = String::from_str("TRK");
        proof {
            reveal_strlit("TRK");
        }
        crate::text::append_pad2(&mut s, (idx + 1) as u64);
        name = s;
    }
    Some(MidiTrackInfo { name, channel, note_count, is_drum })
}

/// Summarise every track of a file that starts a note, in order.
pub fn probe_midi(tracks: &[Vec<SmfEvent>]) -> (r: Vec<MidiTrackInfo>)
    requires
        tracks@.len() < usize::MAX,
        forall|i: int| 0 <= i < tracks@.len() ==> (#[trigger] tracks@[i])@.len() < usize::MAX,
    ensures
        r@.len() == probe_all(tracks@, tracks@.len() as int).len(),
        forall|j: int|
            0 <= j < r@.len() ==> {
                let x = #[trigger] probe_all(tracks@, tracks@.len() as int)[j];
                &&& r@[j].name@ == x.0
                &&& r@[j].channel == x.1
                &&& r@[j].note_count == x.2
                &&& r@[j].is_drum == x.3
            },
{
    let mut infos: Vec<MidiTrackInfo> = Vec::new();
    let mut t: usize = 0;
    while t < tracks.len()
        invariant
            t <= tracks@.len(),
            tracks@.len() < usize::MAX,
            forall|i: int| 0 <= i < tracks@.len() ==> (#[trigger] tracks@[i])@.len() < usize::MAX,
            infos@.len() == probe_all(tracks@, t as int).len(),
            forall|j: int|
                0 <= j < infos@.len() ==> {
                    let x = #[trigger] probe_all(tracks@, t as int)[j];
                    &&& infos@[j].name@ == x.0
                    &&& infos@[j].channel == x.1
                    &&& infos@[j].note_count == x.2
                    &&& infos@[j].is_drum == x.3
                },
        decreases tracks@.len() - t,
    {
        let ghost before = probe_all(tracks@, t as int);
        let r = probe_track(tracks[t].as_slice(), t);
        proof {
            assert(tracks@[t as int]@ == tracks[t as int]@);
        }
        match r {
            Some(info) => {
                infos.push(info);
            },
            None => {},
        }
        proof {
            let now = probe_all(tracks@, t as int + 1);
            assert forall|j: int| 0 <= j < infos@.len() implies {
                let x = #[trigger] now[j];
                &&& infos@[j].name@ == x.0
                &&& infos@[j].channel == x.1
                &&& infos@[j].note_count == x.2
                &&& infos@[j].is_drum == x.3
            } by {
                if j < before.len() {
                    assert(now[j] == before[j]);
                }
            }
        }
        t = t + 1;
    }
    infos
}

// ─── Slicing tracks into patterns ───────────────────────────────────────────

/// The largest of `steps[..k]` (0 when empty).
pub open spec fn max_step(steps: Seq<usize>, k: int) -> int
    decreases k,
{
    if k <= 0 {
        0
    } else if steps[k - 1] > max_step(steps, k - 1) {
        steps[k - 1] as int
    } else {
        max_step(steps, k - 1)
    }
}

/// The positions among `steps[..k]` of the steps in `[lo, hi)`, in order.
pub open spec fn in_slice(steps: Seq<usize>, k: int, lo: int, hi: int) -> Seq<usize>
    decreases k,
{
    if k <= 0 {
        Seq::empty()
    } else if lo <= steps[k - 1] < hi {
        in_slice(steps, k - 1, lo, hi).push((k - 1) as usize)
    } else {
        in_slice(steps, k - 1, lo, hi)
    }
}

/// Each position listed by [`in_slice`] is one of `steps[..k]` whose step
/// lies in `[lo, hi)`.
pub proof fn lemma_in_slice_members(steps: Seq<usize>, k: int, lo: int, hi: int, q: int)
    requires
        0 <= q < in_slice(steps, k, lo, hi).len(),
        k <= steps.len() <= usize::MAX,
    ensures
        0 <= in_slice(steps, k, lo, hi)[q] < k,
        lo <= steps[in_slice(steps, k, lo, hi)[q] as int] < hi,
    decreases k,
{
    if k > 0 {
        let prev = in_slice(steps, k - 1, lo, hi);
        if lo <= steps[k - 1] < hi && q == prev.len() {
        } else {
            lemma_in_slice_members(steps, k - 1, lo, hi, q);
            if lo <= steps[k - 1] < hi {
                assert(in_slice(steps, k, lo, hi)[q] == prev[q]);
            }
        }
    }
}

/// Cut a track's notes (by their start steps) into patterns of `per`
/// steps: as many patterns as reach the last note, and for each pattern the
/// positions of the notes that start in it, in order.
pub fn slice_notes(steps: &[usize], per: usize) -> (r: Vec<Vec<usize>>)
    requires
        per > 0,
        max_step(steps@, steps@.len() as int) / (per as int) < usize::MAX,
    ensures
        r@.len() == max_step(steps@, steps@.len() as int) / (per as int) + 1,
        forall|p: int|
            0 <= p < r@.len() ==> (#[trigger] r@[p])@ == in_slice(
                steps@,
                steps@.len() as int,
                p * per,
                (p + 1) * per,
            ),
{
    let mut mx: usize = 0;
    let mut i: usize = 0;
    while i < steps.len()
        invariant
            i <= steps@.len(),
            mx == max_step(steps@, i as int),
        decreases steps@.len() - i,
    {
        if steps[i] > mx {
            mx = steps[i];
        }
        i = i + 1;
    }
    proof {
        assert(mx / per <= mx) by (nonlinear_arith)
            requires
                per > 0,
        ;
    }
    let n = mx / per + 1;
    let mut r: Vec<Vec<usize>> = Vec::new();
    let mut p: usize = 0;
    while p < n
        invariant
            p <= n,
            n == mx / per + 1,
            mx == max_step(steps@, steps@.len() as int),
            per > 0,
            r@.len() == p,
            forall|q: int|
                0 <= q < p ==> (#[trigger] r@[q])@ == in_slice(steps@, steps@.len() as int, q * per, (q + 1) * per),
        decreases n - p,
    {
        proof {
            assert(p * per <= mx) by (nonlinear_arith)
                requires
                    p < n,
                    n == mx / per + 1,
                    per > 0,
            ;
        }
        let lo = p * per;
        let hi: u128 = (lo as u128) + (per as u128);
        let mut v: Vec<usize> = Vec::new();
        let mut k: usize = 0;
        while k < steps.len()
            invariant
                k <= steps@.len(),
                lo == p * per,
                hi == lo + per,
                v@ == in_slice(steps@, k as int, lo as int, hi as int),
            decreases steps@.len() - k,
        {
            if lo <= steps[k] && (steps[k] as u128) < hi {
                v.push(k);
            }
            k = k + 1;
        }
        proof {
            assert((p + 1) * per == p * per + per) by (nonlinear_arith);
        }
        r.push(v);
        p = p + 1;
    }
    r
}

// ─── Reading the file ────────────────────────────────────────────────────────

/// The tracks of a parsed file as sequences of events.
pub open spec fn seqs_of(tracks: Seq<Vec<SmfEvent>>) -> Seq<Seq<SmfEvent>> {
    tracks.map_values(|t: Vec<SmfEvent>| t@)
}

/// What `midly` reads from the bytes of a Standard MIDI File: the ticks per
/// beat (`None` for SMPTE timecode timing) and every track's events, each
/// with its delta and its kind (a track name decoded as lossy UTF-8 and
/// trimmed, tempo, time signature, note on/off, controller, pitch bend as
/// signed offset from centre; other channel messages by channel; anything
/// else), or `None` when the bytes are not a valid file.
pub uninterp spec fn smf_parsed(bytes: Seq<u8>) -> Option<(Option<u16>, Seq<Seq<SmfEvent>>)>;

/// The kind is a track name, tempo or time signature.
pub open spec fn is_meta_kind(k: SmfEventKind) -> bool {
    k is TrackName || k is Tempo || k is TimeSignature
}

/// The kind is a note on or off.
pub open spec fn is_note_kind(k: SmfEventKind) -> bool {
    k is NoteOn || k is NoteOff
}

/// The kind is a channel message other than a note on or off.
pub open spec fn is_control_kind(k: SmfEventKind) -> bool {
    k is Controller || k is PitchBend || k is OtherMidi
}

/// Per event of each track, the kinds the wrapper reports agree with
/// what the file holds, among the kinds `pick` selects.
pub open spec fn kinds_agree(
    x: Seq<Vec<Option<SmfEventKind>>>,
    p: Seq<Seq<SmfEvent>>,
    pick: spec_fn(SmfEventKind) -> bool,
) -> bool {
    &&& x.len() == p.len()
    &&& forall|t: int|
        0 <= t < p.len() ==> {
            &&& (#[trigger] x[t])@.len() == p[t].len()
            &&& forall|i: int|
                0 <= i < p[t].len() ==> match #[trigger] x[t]@[i] {
                    Some(k) => p[t][i].kind == k && pick(k),
                    None => !pick(p[t][i].kind),
                }
        }
}

/// `midly::Smf::parse`: the file's timing (ticks per beat, or `None` for
/// SMPTE timecode) and the delta of every event of every track, as the
/// crate reads them from `bytes`; `None` when they do not parse.
#[verifier::external_body]
fn read_smf_layout(bytes: &[u8]) -> (r: Option<(Option<u16>, Vec<Vec<u32>>)>)
    ensures
        r is None <==> smf_parsed(bytes@) is None,
        r matches Some(x) ==> {
            let p = smf_parsed(bytes@).unwrap();
            &&& x.0 == p.0
            &&& x.1@.len() == p.1.len()
            &&& forall|t: int|
                0 <= t < p.1.len() ==> (#[trigger] x.1@[t])@.len() == p.1[t].len() && forall|i: int|
                    0 <= i < p.1[t].len() ==> x.1@[t]@[i] == #[trigger] p.1[t][i].delta
        },
{
    let smf = midly::Smf::parse(bytes).ok()?;
    let tpq = match smf.header.timing {
        midly::Timing::Metrical(t) => Some(t.as_int()),
        midly::Timing::Timecode(..) => None,
    };
    Some((tpq, smf.tracks.iter().map(|t| t.iter().map(|e| e.delta.as_int()).collect()).collect()))
}

/// `midly::Smf::parse`, keeping of each event only a track name (decoded
/// as lossy UTF-8 and trimmed), tempo or time signature, as the crate reads
/// them from `bytes`; `None` for every other event, and in place of the
/// whole when the bytes do not parse.
#[verifier::external_body]
fn read_smf_metas(bytes: &[u8]) -> (r: Option<Vec<Vec<Option<SmfEventKind>>>>)
    ensures
        r is None <==> smf_parsed(bytes@) is None,
        r matches Some(x) ==> kinds_agree(x@, smf_parsed(bytes@).unwrap().1, |k: SmfEventKind| is_meta_kind(k)),
{
    let smf = midly::Smf::parse(bytes).ok()?;
    Some(smf.tracks.iter().map(|t| t.iter().map(|e| match e.kind {
        Kind::Meta(Meta::TrackName(n)) => Some(SmfEventKind::TrackName(String::from_utf8_lossy(n).trim().to_string())),
        Kind::Meta(Meta::Tempo(us)) => Some(SmfEventKind::Tempo(us.as_int())),
        Kind::Meta(Meta::TimeSignature(a, b, _, _)) => Some(SmfEventKind::TimeSignature(a, b)),
        _ => None,
    }).collect()).collect())
}

/// `midly::Smf::parse`, keeping of each event only a note on or note off,
/// as the crate reads them from `bytes`; `None` for every other event, and
/// in place of the whole when the bytes do not parse.
#[verifier::external_body]
fn read_smf_notes(bytes: &[u8]) -> (r: Option<Vec<Vec<Option<SmfEventKind>>>>)
    ensures
        r is None <==> smf_parsed(bytes@) is None,
        r matches Some(x) ==> kinds_agree(x@, smf_parsed(bytes@).unwrap().1, |k: SmfEventKind| is_note_kind(k)),
{
    let smf = midly::Smf::parse(bytes).ok()?;
    Some(smf.tracks.iter().map(|t| t.iter().map(|e| match e.kind {
        Kind::Midi { channel: c, message: Msg::NoteOn { key, vel } } => Some(SmfEventKind::NoteOn { channel: c.as_int(), key: key.as_int(), vel: vel.as_int() }),
        Kind::Midi { channel: c, message: Msg::NoteOff { key, .. } } => Some(SmfEventKind::NoteOff { channel: c.as_int(), key: key.as_int() }),
        _ => None,
    }).collect()).collect())
}

/// `midly::Smf::parse`, keeping of each event only a channel message other
/// than a note on or off (controller, pitch bend as signed offset from
/// centre, any other by channel), as the crate reads them from `bytes`;
/// `None` for every other event, and in place of the whole when the bytes
/// do not parse.
#[verifier::external_body]
fn read_smf_controls(bytes: &[u8]) -> (r: Option<Vec<Vec<Option<SmfEventKind>>>>)
    ensures
        r is None <==> smf_parsed(bytes@) is None,
        r matches Some(x) ==> kinds_agree(x@, smf_parsed(bytes@).unwrap().1, |k: SmfEventKind| is_control_kind(k)),
{
    let smf = midly::Smf::parse(bytes).ok()?;
    Some(smf.tracks.iter().map(|t| t.iter().map(|e| match e.kind {
        Kind::Midi { channel: c, message: m } => match m {
            Msg::NoteOn { .. } | Msg::NoteOff { .. } => None,
            Msg::Controller { controller: k, value: v } => Some(SmfEventKind::Controller { channel: c.as_int(), controller: k.as_int(), value: v.as_int() }),
            Msg::PitchBend { bend: b } => Some(SmfEventKind::PitchBend { channel: c.as_int(), bend: b.as_int() }),
            _ => Some(SmfEventKind::OtherMidi { channel: c.as_int() }),
        },
        _ => None,
    }).collect()).collect())
}

/// Read a Standard MIDI File's bytes: its timing and every track's events
/// as plain values, or `None` when the bytes do not parse.
pub fn parse_smf(bytes: &[u8]) -> (r: Option<(Option<u16>, Vec<Vec<SmfEvent>>)>)
    ensures
        r matches Some(x) ==> smf_parsed(bytes@) == Some((x.0, seqs_of(x.1@))),
        r is None <==> smf_parsed(bytes@) is None,
{
    let layout = read_smf_layout(bytes);
    let metas = read_smf_metas(bytes);
    let notes = read_smf_notes(bytes);
    let chans = read_smf_controls(bytes);
    let (tpq, deltas, mut metas, mut notes, mut chans) = match (layout, metas, notes, chans) {
        (Some(l), Some(m), Some(n), Some(c)) => (l.0, l.1, m, n, c),
        _ => return None,
    };
    let ghost p = smf_parsed(bytes@).unwrap().1;
    let ghost m0 = metas@;
    let ghost n0 = notes@;
    let ghost c0 = chans@;
    let mut tracks: Vec<Vec<SmfEvent>> = Vec::new();
    let mut t: usize = 0;
    while t < deltas.len()
        invariant
            t <= deltas@.len(),
            deltas@.len() == p.len(),
            forall|q: int|
                0 <= q < p.len() ==> (#[trigger] deltas@[q])@.len() == p[q].len() && forall|i: int|
                    0 <= i < p[q].len() ==> deltas@[q]@[i] == #[trigger] p[q][i].delta,
            kinds_agree(m0, p, |k: SmfEventKind| is_meta_kind(k)),
            kinds_agree(n0, p, |k: SmfEventKind| is_note_kind(k)),
            kinds_agree(c0, p, |k: SmfEventKind| is_control_kind(k)),
            metas@.len() == p.len() && chans@.len() == p.len() && notes@.len() == p.len(),
            forall|q: int| t <= q < p.len() ==> #[trigger] notes@[q] == n0[q],
            forall|q: int| t <= q < p.len() ==> #[trigger] metas@[q] == m0[q],
            forall|q: int| t <= q < p.len() ==> #[trigger] chans@[q] == c0[q],
            tracks@.len() == t,
            forall|q: int| 0 <= q < t ==> (#[trigger] tracks@[q])@ == p[q],
        decreases deltas@.len() - t,
    {
        let mut row_m: Vec<Option<SmfEventKind>> = Vec::new();
        metas.set_and_swap(t, &mut row_m);
        let mut row_n: Vec<Option<SmfEventKind>> = Vec::new();
        notes.set_and_swap(t, &mut row_n);
        let mut row_c: Vec<Option<SmfEventKind>> = Vec::new();
        chans.set_and_swap(t, &mut row_c);
        let ghost rm = row_m@;
        let ghost rn = row_n@;
        let ghost rc = row_c@;
        proof {
            assert(rm == m0[t as int]@);
            assert(rn == n0[t as int]@);
            assert(rc == c0[t as int]@);
        }
        let dl = &deltas[t];
        let mut evs: Vec<SmfEvent> = Vec::new();
        let mut i: usize = 0;
        while i < dl.len()
            invariant
                i <= dl@.len(),
                dl@ == deltas@[t as int]@,
                dl@.len() == p[t as int].len(),
                forall|j: int| 0 <= j < p[t as int].len() ==> dl@[j] == #[trigger] p[t as int][j].delta,
                rm.len() == p[t as int].len() && rc.len() == p[t as int].len(),
                forall|j: int|
                    0 <= j < p[t as int].len() ==> match #[trigger] rm[j] {
                        Some(k) => p[t as int][j].kind == k && is_meta_kind(k),
                        None => !is_meta_kind(p[t as int][j].kind),
                    },
                forall|j: int|
                    0 <= j < p[t as int].len() ==> match #[trigger] rn[j] {
                        Some(k) => p[t as int][j].kind == k && is_note_kind(k),
                        None => !is_note_kind(p[t as int][j].kind),
                    },
                forall|j: int|
                    0 <= j < p[t as int].len() ==> match #[trigger] rc[j] {
                        Some(k) => p[t as int][j].kind == k && is_control_kind(k),
                        None => !is_control_kind(p[t as int][j].kind),
                    },
                rn.len() == p[t as int].len(),
                row_m@.len() == rm.len() && row_c@.len() == rc.len() && row_n@.len() == rn.len(),
                forall|j: int| i <= j < rn.len() ==> #[trigger] row_n@[j] == rn[j],
                forall|j: int| i <= j < rm.len() ==> #[trigger] row_m@[j] == rm[j],
                forall|j: int| i <= j < rc.len() ==> #[trigger] row_c@[j] == rc[j],
                evs@.len() == i,
                forall|j: int| 0 <= j < i ==> #[trigger] evs@[j] == p[t as int][j],
            decreases dl@.len() - i,
        {
            let mut km: Option<SmfEventKind> = None;
            row_m.set_and_swap(i, &mut km);
            let mut kn: Option<SmfEventKind> = None;
            row_n.set_and_swap(i, &mut kn);
            let mut kc: Option<SmfEventKind> = None;
            row_c.set_and_swap(i, &mut kc);
            let kind = match km {
                Some(k) => k,
                None => match kn {
                    Some(k) => k,
                    None => match kc {
                        Some(k) => k,
                        None => SmfEventKind::Other,
                    },
                },
            };
            proof {
                let _ = rm[i as int];
                let _ = rn[i as int];
                let _ = rc[i as int];
                assert(kind == p[t as int][i as int].kind);
                assert(dl@[i as int] == p[t as int][i as int].delta);
            }
            let ev = SmfEvent { delta: dl[i], kind };
            proof {
                assert(ev == p[t as int][i as int]);
            }
            evs.push(ev);
            i = i + 1;
        }
        proof {
            assert(evs@ =~= p[t as int]);
        }
        tracks.push(evs);
        t = t + 1;
    }
    proof {
        assert(seqs_of(tracks@) =~= p);
    }
    Some((tpq, tracks))
}

/// Summaries of the tracks `ts[..n]` that start a note, in order.
pub open spec fn probe_seqs(ts: Seq<Seq<SmfEvent>>, n: int) -> Seq<(Seq<char>, u8, nat, bool)>
    decreases n,
{
    if n <= 0 {
        Seq::empty()
    } else {
        probe_seqs(ts, n - 1) + match probe_info(ts[n - 1], n - 1) {
            Some(x) => seq![x],
            None => Seq::empty(),
        }
    }
}

/// Summaries of every track of `ts` that starts a note, in order.
pub open spec fn probe_all_seqs(ts: Seq<Seq<SmfEvent>>) -> Seq<(Seq<char>, u8, nat, bool)> {
    probe_seqs(ts, ts.len() as int)
}

proof fn lemma_probe_all_seqs(tracks: Seq<Vec<SmfEvent>>, n: int)
    requires
        0 <= n <= tracks.len(),
    ensures
        probe_seqs(seqs_of(tracks), n) == probe_all(tracks, n),
    decreases n,
{
    if n > 0 {
        lemma_probe_all_seqs(tracks, n - 1);
        assert(seqs_of(tracks)[n - 1] == tracks[n - 1]@);
    }
}

/// Quickly scan a MIDI file's bytes: one summary per track that starts a
/// note, in order; `None` when the bytes do not parse.
pub fn probe_tracks(bytes: &[u8]) -> (r: Option<Vec<MidiTrackInfo>>)
    ensures
        match smf_parsed(bytes@) {
            None => r is None,
            Some(x) => (x.1.len() < usize::MAX && forall|i: int| 0 <= i < x.1.len() ==> (#[trigger] x.1[i]).len() < usize::MAX)
                ==> (r matches Some(v) && v@.len() == probe_all_seqs(x.1).len() && forall|j: int|
                0 <= j < v@.len() ==> {
                    let y = #[trigger] probe_all_seqs(x.1)[j];
                    &&& v@[j].name@ == y.0
                    &&& v@[j].channel == y.1
                    &&& v@[j].note_count == y.2
                    &&& v@[j].is_drum == y.3
                }),
        },
{
    match parse_smf(bytes) {
        None => None,
        Some(parsed) => {
            let tracks = parsed.1;
            proof {
                assert(smf_parsed(bytes@).unwrap().1 == seqs_of(tracks@));
                assert(seqs_of(tracks@).len() == tracks@.len());
            }
            if tracks.len() == usize::MAX {
                return None;
            }
            let mut k: usize = 0;
            while k < tracks.len()
                invariant
                    k <= tracks@.len(),
                    smf_parsed(bytes@) is Some,
                    smf_parsed(bytes@).unwrap().1 == seqs_of(tracks@),
                    seqs_of(tracks@).len() == tracks@.len(),
                    forall|i: int| 0 <= i < k ==> (#[trigger] tracks@[i])@.len() < usize::MAX,
                decreases tracks@.len() - k,
            {
                if tracks[k].len() == usize::MAX {
                    proof {
                        assert(seqs_of(tracks@)[k as int] == tracks@[k as int]@);
                    }
                    return None;
                }
                k = k + 1;
            }
            let r = probe_midi(tracks.as_slice());
            proof {
                assert forall|i: int| 0 <= i < tracks@.len() implies #[trigger] seqs_of(tracks@)[i] == tracks@[i]@ by {}
                assert(probe_all_seqs(seqs_of(tracks@)) == probe_all(tracks@, tracks@.len() as int)) by {
                    lemma_probe_all_seqs(tracks@, tracks@.len() as int);
                }
            }
            Some(r)
        },
    }
}

} // verus!
