//! The sequencer clock's decisions: tick placement of note events, note
//! queues that fire at sub-step precision, the MIDI bytes they send, gates
//! that decide whether a hit sounds, automation target names, and the
//! song-mode chain.
//!
//! The clock thread, the MIDI ports and the audio engine are driven by the
//! application; everything they are told to do is decided here.

use crate::matrix::PatternSource;
use crate::note::{all_digits, digits_value};
use crate::project::ChainEntry;
use crate::rational::RationalTime;
use crate::text::{find_char, find_spec, has_at, parse_dec, parse_dec_range, parse_dec_spec};
use vstd::prelude::*;
use vstd::string::*;

verus! {

/// Destination prefix of queued notes that go to an audio-engine slot.
pub open spec fn audio_prefix() -> Seq<char> {
    seq!['_', '_', 'a', 'u', 'd', 'i', 'o', '_', '_']
}

/// Whether two strings hold the same characters.
pub fn str_eq(a: &str, b: &str) -> (r: bool)
    ensures
        r == (a@ == b@),
{
    let n = a.unicode_len();
    if n != b.unicode_len() {
        return false;
    }
    let mut i: usize = 0;
    while i < n
        invariant
            i <= n,
            n == a@.len(),
            n == b@.len(),
            forall|j: int| 0 <= j < i ==> a@[j] == b@[j],
        decreases n - i,
    {
        if a.get_char(i) != b.get_char(i) {
            return false;
        }
        i = i + 1;
    }
    proof {
        assert(a@ =~= b@);
    }
    true
}

/// Whether `s` starts with `p`.
pub fn starts_with(s: &str, p: &str) -> (r: bool)
    ensures
        r == (p@.len() <= s@.len() && s@.take(p@.len() as int) == p@),
{
    let n = p.unicode_len();
    if n > s.unicode_len() {
        return false;
    }
    let mut i: usize = 0;
    while i < n
        invariant
            i <= n,
            n == p@.len(),
            n <= s@.len(),
            forall|j: int| 0 <= j < i ==> s@[j] == p@[j],
        decreases n - i,
    {
        if s.get_char(i) != p.get_char(i) {
            proof {
                assert(s@.take(n as int)[i as int] != p@[i as int]);
            }
            return false;
        }
        i = i + 1;
    }
    proof {
        assert(s@.take(n as int) =~= p@);
    }
    true
}

/// Whole transport ticks covered by `beats` at `ppqn` ticks per beat,
/// rounded down.
pub fn ev_offset_ticks(beats: RationalTime, ppqn: i64) -> (r: i64)
    requires
        RationalTime::mul_int_ok(beats, ppqn as int),
        RationalTime::mul_int_spec_of(beats, ppqn as int).floor_ok(),
    ensures
        r == RationalTime::mul_int_spec_of(beats, ppqn as int).floor_spec(),
{
    (beats * ppqn).floor()
}

/// The CC number an arrangement automation destination drives.
pub open spec fn cc_for_destination_spec(d: Seq<char>) -> Option<int> {
    if d == "volume"@ {
        Some(7)
    } else if d == "pan"@ {
        Some(10)
    } else if d == "cutoff"@ {
        Some(74)
    } else if d == "resonance"@ {
        Some(71)
    } else if d == "send_a"@ || d == "reverb"@ {
        Some(91)
    } else if d == "send_b"@ || d == "chorus"@ {
        Some(93)
    } else if d.len() >= 2 && d[0] == 'c' && d[1] == 'c' {
        parse_dec_spec(d.skip(2), 255)
    } else {
        None
    }
}

/// Map an automation destination to a MIDI CC number: the named ones
/// (`volume` 7, `pan` 10, `cutoff` 74, `resonance` 71, `send_a`/`reverb` 91,
/// `send_b`/`chorus` 93) or `ccN` for `N` in `0..=255`; `None` otherwise.
pub fn cc_for_destination(dest: &str) -> (r: Option<u8>)
    ensures
        match r {
            Some(v) => cc_for_destination_spec(dest@) == Some(v as int),
            None => cc_for_destination_spec(dest@) is None,
        },
{
    proof {
        reveal_strlit("volume");
        reveal_strlit("pan");
        reveal_strlit("cutoff");
        reveal_strlit("resonance");
        reveal_strlit("send_a");
        reveal_strlit("reverb");
        reveal_strlit("send_b");
        reveal_strlit("chorus");
    }
    if str_eq(dest, "volume") {
        Some(7)
    } else if str_eq(dest, "pan") {
        Some(10)
    } else if str_eq(dest, "cutoff") {
        Some(74)
    } else if str_eq(dest, "resonance") {
        Some(71)
    } else if str_eq(dest, "send_a") || str_eq(dest, "reverb") {
        Some(91)
    } else if str_eq(dest, "send_b") || str_eq(dest, "chorus") {
        Some(93)
    } else if dest.unicode_len() >= 2 && dest.get_char(0) == 'c' && dest.get_char(1) == 'c' {
        match parse_dec(dest, 2, 255) {
            Some(v) => Some(v as u8),
            None => None,
        }
    } else {
        None
    }
}

/// Where a queued note goes.
#[derive(Debug, Clone, Copy, PartialEq, Eq, Structural)]
pub enum Route {
    /// To audio-engine slot `n` (destination `__audio__n`).
    Audio(u32),
    /// To the MIDI port of that name.
    Midi,
    /// Nowhere: an audio destination whose slot number does not parse.
    Unroutable,
}

/// The route of a destination name.
pub open spec fn route_spec(dest: Seq<char>) -> Route {
    if dest.len() >= 9 && dest.take(9) == audio_prefix() {
        match parse_dec_spec(dest.skip(9), u32::MAX as int) {
            Some(n) => Route::Audio(n as u32),
            None => Route::Unroutable,
        }
    } else {
        Route::Midi
    }
}

/// Decide where a queued note with destination `dest` goes.
pub fn route_of(dest: &str) -> (r: Route)
    ensures
        r == route_spec(dest@),
{
    proof {
        reveal_strlit("__audio__");
        assert("__audio__"@ =~= audio_prefix());
    }
    if starts_with(dest, "__audio__") {
        match parse_dec(dest, 9, 4294967295) {
            Some(n) => Route::Audio(n as u32),
            None => Route::Unroutable,
        }
    } else {
        Route::Midi
    }
}

/// A note-off due at an absolute tick.
#[derive(Debug)]
pub struct PendingNoteOff {
    pub dest_name: String,
    pub ch: u8,
    pub note: u8,
    /// Absolute elapsed-tick count at which it fires.
    pub at_tick: u64,
    /// Clip whose MPE channel it releases, if any.
    pub clip_key: Option<String>,
}

/// A note-on deferred to an absolute tick.
#[derive(Debug)]
pub struct PendingNoteOn {
    pub dest_name: String,
    pub ch: u8,
    pub note: u8,
    pub vel: u8,
    pub at_tick: u64,
    pub gate_ticks: u64,
    pub clip_key: Option<String>,
    pub pitch_bend: i16,
    pub pressure: u8,
    pub timbre: u8,
    pub use_mpe: bool,
}

/// Split the queued note-ons into those due at tick `now` and the rest, each
/// in queue order.
pub fn take_due_note_ons(pending: Vec<PendingNoteOn>, now: u64) -> (r: (Vec<PendingNoteOn>, Vec<PendingNoteOn>))
    ensures
        r.0@ == pending@.filter(|p: PendingNoteOn| p.at_tick <= now),
        r.1@ == pending@.filter(|p: PendingNoteOn| p.at_tick > now),
{
    let mut due: Vec<PendingNoteOn> = Vec::new();
    let mut rest: Vec<PendingNoteOn> = Vec::new();
    let mut src = pending;
    let ghost all = src@;
    let ghost mut taken: Seq<PendingNoteOn> = Seq::empty();
    proof {
        reveal(Seq::filter);
        assert(all =~= taken + src@);
    }
    while src.len() > 0
        invariant
            all == taken + src@,
            due@ == taken.filter(|p: PendingNoteOn| p.at_tick <= now),
            rest@ == taken.filter(|p: PendingNoteOn| p.at_tick > now),
        decreases src@.len(),
    {
        let ghost s0 = src@;
        let p = src.remove(0);
        let ghost pv = p;
        proof {
            reveal(Seq::filter);
            assert(taken.push(pv).drop_last() =~= taken);
            assert(all =~= taken.push(pv) + src@);
        }
        if p.at_tick <= now {
            due.push(p);
        } else {
            rest.push(p);
        }
        proof {
            taken = taken.push(pv);
        }
    }
    proof {
        assert(all =~= taken);
    }
    (due, rest)
}

/// Split the queued note-offs into those due at tick `now` and the rest,
/// each in queue order.
pub fn take_due_note_offs(pending: Vec<PendingNoteOff>, now: u64) -> (r: (Vec<PendingNoteOff>, Vec<PendingNoteOff>))
    ensures
        r.0@ == pending@.filter(|p: PendingNoteOff| p.at_tick <= now),
        r.1@ == pending@.filter(|p: PendingNoteOff| p.at_tick > now),
{
    let mut due: Vec<PendingNoteOff> = Vec::new();
    let mut rest: Vec<PendingNoteOff> = Vec::new();
    let mut src = pending;
    let ghost all = src@;
    let ghost mut taken: Seq<PendingNoteOff> = Seq::empty();
    proof {
        reveal(Seq::filter);
        assert(all =~= taken + src@);
    }
    while src.len() > 0
        invariant
            all == taken + src@,
            due@ == taken.filter(|p: PendingNoteOff| p.at_tick <= now),
            rest@ == taken.filter(|p: PendingNoteOff| p.at_tick > now),
        decreases src@.len(),
    {
        let p = src.remove(0);
        let ghost pv = p;
        proof {
            reveal(Seq::filter);
            assert(taken.push(pv).drop_last() =~= taken);
            assert(all =~= taken.push(pv) + src@);
        }
        if p.at_tick <= now {
            due.push(p);
        } else {
            rest.push(p);
        }
        proof {
            taken = taken.push(pv);
        }
    }
    proof {
        assert(all =~= taken);
    }
    (due, rest)
}

/// The 14-bit pitch-bend value of a signed bend: `bend + 8192`, clamped to
/// `0..=16383`.
pub open spec fn bend14(bend: int) -> int {
    if bend + 8192 < 0 {
        0
    } else if bend + 8192 > 16383 {
        16383
    } else {
        bend + 8192
    }
}

/// The messages that start a note: a pitch bend (when MPE is on or the note
/// bends), channel pressure (MPE, pressure above zero), timbre as CC 74 (MPE,
/// timbre other than 64), then the note-on itself.
pub open spec fn note_on_msgs(ch: u8, note: u8, vel: u8, bend: i16, pressure: u8, timbre: u8, use_mpe: bool) -> Seq<Seq<u8>> {
    let b = bend14(bend as int);
    (if use_mpe || bend != 0 {
        seq![seq![0xE0u8 | ch, (b % 128) as u8, (b / 128) as u8]]
    } else {
        Seq::<Seq<u8>>::empty()
    }) + (if use_mpe && pressure > 0 {
        seq![seq![0xD0u8 | ch, pressure & 0x7Fu8]]
    } else {
        Seq::<Seq<u8>>::empty()
    }) + (if use_mpe && timbre != 64 {
        seq![seq![0xB0u8 | ch, 74u8, timbre & 0x7Fu8]]
    } else {
        Seq::<Seq<u8>>::empty()
    }) + seq![seq![0x90u8 | ch, note, vel]]
}

/// The views of a list of messages.
pub open spec fn msgs_view(v: Seq<Vec<u8>>) -> Seq<Seq<u8>> {
    v.map_values(|m: Vec<u8>| m@)
}

fn msg3(a: u8, b: u8, c: u8) -> (r: Vec<u8>)
    ensures
        r@ == seq![a, b, c],
{
    let mut v: Vec<u8> = Vec::new();
    v.push(a);
    v.push(b);
    v.push(c);
    proof {
        assert(v@ =~= seq![a, b, c]);
    }
    v
}

fn msg2(a: u8, b: u8) -> (r: Vec<u8>)
    ensures
        r@ == seq![a, b],
{
    let mut v: Vec<u8> = Vec::new();
    v.push(a);
    v.push(b);
    proof {
        assert(v@ =~= seq![a, b]);
    }
    v
}

/// The MIDI messages that start a note, as [`note_on_msgs`] lists them.
pub fn note_on_messages(ch: u8, note: u8, vel: u8, bend: i16, pressure: u8, timbre: u8, use_mpe: bool) -> (r: Vec<Vec<u8>>)
    requires
        bend <= i16::MAX - 8192,
    ensures
        msgs_view(r@) == note_on_msgs(ch, note, vel, bend, pressure, timbre, use_mpe),
{
    let mut out: Vec<Vec<u8>> = Vec::new();
    let ghost mut spec: Seq<Seq<u8>> = Seq::empty();
    if use_mpe || bend != 0 {
        let raw: i16 = bend + 8192;
        let u14: u16 = if raw < 0 {
            0
        } else if raw > 16383 {
            16383
        } else {
            raw as u16
        };
        let lo = (u14 & 0x7F) as u8;
        let hi = ((u14 >> 7) & 0x7F) as u8;
        proof {
            assert(u14 <= 16383);
            assert((u14 & 0x7F) == u14 % 128) by (bit_vector);
            assert(u14 <= 16383 ==> ((u14 >> 7) & 0x7F) == u14 / 128) by (bit_vector);
        }
        out.push(msg3(0xE0u8 | ch, lo, hi));
        proof {
            spec = spec.push(seq![0xE0u8 | ch, lo, hi]);
        }
    }
    if use_mpe && pressure > 0 {
        out.push(msg2(0xD0u8 | ch, pressure & 0x7F));
        proof {
            spec = spec.push(seq![0xD0u8 | ch, pressure & 0x7Fu8]);
        }
    }
    if use_mpe && timbre != 64 {
        out.push(msg3(0xB0u8 | ch, 74, timbre & 0x7F));
        proof {
            spec = spec.push(seq![0xB0u8 | ch, 74u8, timbre & 0x7Fu8]);
        }
    }
    out.push(msg3(0x90u8 | ch, note, vel));
    proof {
        spec = spec.push(seq![0x90u8 | ch, note, vel]);
        assert(msgs_view(out@) =~= spec);
        assert(spec =~= note_on_msgs(ch, note, vel, bend, pressure, timbre, use_mpe));
    }
    out
}

/// What to do with a note whose time has come.
#[derive(Debug)]
pub enum NoteOut {
    /// Start a note on an audio-engine slot.
    AudioOn { slot_id: u32, channel: u8, note: u8, velocity: u8 },
    /// Stop a note on an audio-engine slot.
    AudioOff { slot_id: u32, channel: u8, note: u8 },
    /// Send these messages, in order, to the MIDI port named by the queued
    /// destination (if such a port is connected).
    Midi { messages: Vec<Vec<u8>> },
    /// Nothing can be sent.
    Nothing,
}

/// `r` is what due note-on `p` does.
pub open spec fn on_out_ok(r: NoteOut, p: PendingNoteOn) -> bool {
        match route_spec(p.dest_name@) {
            Route::Audio(slot) => r == (NoteOut::AudioOn { slot_id: slot, channel: p.ch, note: p.note, velocity: p.vel }),
            Route::Unroutable => r is Nothing,
            Route::Midi => r matches NoteOut::Midi { messages } && msgs_view(messages@) == note_on_msgs(
                p.ch,
                p.note,
                p.vel,
                p.pitch_bend,
                p.pressure,
                p.timbre,
                p.use_mpe,
            ),
        }
}

/// `r` is what due note-off `p` does.
pub open spec fn off_out_ok(r: NoteOut, p: PendingNoteOff) -> bool {
        match route_spec(p.dest_name@) {
            Route::Audio(slot) => r == (NoteOut::AudioOff { slot_id: slot, channel: p.ch, note: p.note }),
            Route::Unroutable => r is Nothing,
            Route::Midi => r matches NoteOut::Midi { messages } && msgs_view(messages@) == seq![
                seq![0x80u8 | p.ch, p.note, 0u8],
            ],
        }
}

/// Decide what a due note-on does: an audio destination starts the note on
/// its slot, any other destination is sent the note's start messages.
pub fn dispatch_note_on(p: &PendingNoteOn) -> (r: NoteOut)
    requires
        p.pitch_bend <= i16::MAX - 8192,
    ensures
        on_out_ok(r, *p),
{
    match route_of(p.dest_name.as_str()) {
        Route::Audio(slot) => NoteOut::AudioOn { slot_id: slot, channel: p.ch, note: p.note, velocity: p.vel },
        Route::Unroutable => NoteOut::Nothing,
        Route::Midi => NoteOut::Midi {
            messages: note_on_messages(p.ch, p.note, p.vel, p.pitch_bend, p.pressure, p.timbre, p.use_mpe),
        },
    }
}

/// Decide what a due note-off does: an audio destination stops the note on
/// its slot, any other destination is sent a note-off (velocity 0).
pub fn dispatch_note_off(p: &PendingNoteOff) -> (r: NoteOut)
    ensures
        off_out_ok(r, *p),
{
    match route_of(p.dest_name.as_str()) {
        Route::Audio(slot) => NoteOut::AudioOff { slot_id: slot, channel: p.ch, note: p.note },
        Route::Unroutable => NoteOut::Nothing,
        Route::Midi => {
            let mut v: Vec<Vec<u8>> = Vec::new();
            v.push(msg3(0x80u8 | p.ch, p.note, 0));
            proof {
                assert(msgs_view(v@) =~= seq![seq![0x80u8 | p.ch, p.note, 0u8]]);
            }
            NoteOut::Midi { messages: v }
        },
    }
}

/// Ticks in one master step (a sixteenth): `ppqn / 4`, at least 1.
pub open spec fn step_ticks_spec(ppqn: int) -> int {
    if ppqn / 4 < 1 {
        1
    } else {
        ppqn / 4
    }
}

/// The per-step hash that picks a humanization jitter.
pub open spec fn humanize_hash(base_step: u64, pos: u64) -> int {
    let m = 0x1_0000_0000_0000_0000int;
    (((base_step * 2654435761int) % m + pos) % m * 40503) % m
}

/// Jitter range in ticks: `step_ticks * humanization / 200`.
pub open spec fn jitter_range(ppqn: int, humanization: int) -> int {
    step_ticks_spec(ppqn) * humanization / 200
}

/// The humanization jitter of the hit at step `pos` of master step
/// `base_step`: a deterministic value in `-range..=range`, zero when the
/// range is zero.
pub open spec fn jitter_spec(base_step: u64, pos: u64, range: int) -> int {
    if range > 0 {
        humanize_hash(base_step, pos) % (2 * range + 1) - range
    } else {
        0
    }
}

/// Compute [`jitter_spec`].
pub fn humanize_jitter(base_step: u64, pos: u64, range: i64) -> (r: i64)
    requires
        range < 0x4000_0000_0000_0000,
    ensures
        r == jitter_spec(base_step, pos, range as int),
        range > 0 ==> -range <= r <= range,
{
    if range > 0 {
        let h = base_step.wrapping_mul(2654435761).wrapping_add(pos).wrapping_mul(40503);
        let m: u64 = 2 * (range as u64) + 1;
        let j = (h % m) as i64 - range;
        proof {
            let big = 0x1_0000_0000_0000_0000int;
            let a = base_step.wrapping_mul(2654435761);
            assert(a == (base_step * 2654435761int) % big);
            let b = a.wrapping_add(pos);
            assert(b == (a + pos) % big) by {
                if a + pos > u64::MAX {
                    assert((a + pos) % big == a + pos - big) by (nonlinear_arith)
                        requires a + pos > u64::MAX, a + pos < 2 * big, big == 0x1_0000_0000_0000_0000int;
                } else {
                    assert((a + pos) % big == a + pos) by (nonlinear_arith)
                        requires 0 <= a + pos <= u64::MAX, big == 0x1_0000_0000_0000_0000int;
                }
            }
            assert(h == (b * 40503) % big);
        }
        j
    } else {
        0
    }
}

/// Where a hit lands inside its master step, in ticks: the event's own
/// offset plus swing, the pattern's microshift and the humanization jitter,
/// never before the step starts.
pub open spec fn hit_offset_spec(event_ticks: int, swing: int, microshift: int, jitter: int) -> int {
    if event_ticks + swing + microshift + jitter < 0 {
        0
    } else {
        event_ticks + swing + microshift + jitter
    }
}

/// Compute [`hit_offset_spec`].
pub fn hit_offset_ticks(event_ticks: i64, swing: i32, microshift: i8, jitter: i64) -> (r: u64)
    requires
        i64::MIN / 2 <= event_ticks <= i64::MAX / 2,
        -0x1000_0000_0000_0000 <= jitter <= 0x1000_0000_0000_0000,
    ensures
        r == hit_offset_spec(event_ticks as int, swing as int, microshift as int, jitter as int),
{
    let off = event_ticks + swing as i64 + microshift as i64 + jitter;
    if off < 0 {
        0
    } else {
        off as u64
    }
}

/// A note's gate in ticks: its duration in ticks, at least 1.
pub fn gate_ticks(duration_ticks: i64) -> (r: u64)
    ensures
        r == (if duration_ticks < 1 {
            1
        } else {
            duration_ticks as int
        }),
{
    if duration_ticks < 1 {
        1
    } else {
        duration_ticks as u64
    }
}

/// Whether the Euclidean mask lets step `pos` play: the mask entry at
/// `pos` modulo its length (an empty mask lets everything through).
pub fn euclid_allows(mask: &[bool], pos: usize) -> (r: bool)
    ensures
        r == (if mask@.len() == 0 {
            true
        } else {
            mask@[(pos as int) % (mask@.len() as int)]
        }),
{
    if mask.len() == 0 {
        true
    } else {
        mask[pos % mask.len()]
    }
}

/// The seed of a locked probability roll for step `pos`.
pub open spec fn locked_seed(pos: u64) -> int {
    let m = 0x1_0000_0000_0000_0000int;
    ((pos * 2246822519int) % m + 7) % m
}

/// The seed a note's probability roll uses: derived from the step when the
/// pattern's probability is locked, else the given clock reading.
pub fn prob_seed(prob_lock: bool, pos: u64, clock_nanos: u64) -> (r: u64)
    ensures
        prob_lock ==> r == locked_seed(pos),
        !prob_lock ==> r == clock_nanos,
{
    if prob_lock {
        let r = pos.wrapping_mul(2246822519).wrapping_add(7);
        proof {
            let big = 0x1_0000_0000_0000_0000int;
            let a = pos.wrapping_mul(2246822519);
            assert(a == (pos * 2246822519int) % big);
            if a + 7 > u64::MAX {
                assert((a + 7) % big == a + 7 - big) by (nonlinear_arith)
                    requires a + 7 > u64::MAX, a + 7 < 2 * big, big == 0x1_0000_0000_0000_0000int;
            } else {
                assert((a + 7) % big == a + 7) by (nonlinear_arith)
                    requires 0 <= a + 7 <= u64::MAX, big == 0x1_0000_0000_0000_0000int;
            }
        }
        r
    } else {
        clock_nanos
    }
}

/// Whether a note with probability `prob` (percent) plays given the roll's
/// seed: always at 100 or more, else when `seed % 100 < prob`.
pub fn prob_allows(prob: u8, seed: u64) -> (r: bool)
    ensures
        r == (prob >= 100 || seed % 100 < prob),
{
    prob >= 100 || seed % 100 < prob as u64
}

/// The 0-based MIDI channel a clip plays on: 9 (channel 10) when its port
/// carries a drum channel, else its 1-based channel minus one (0 stays 0),
/// kept to four bits.
pub fn note_channel(is_drum: bool, midi_channel: u8) -> (r: u8)
    ensures
        is_drum ==> r == 9,
        !is_drum ==> r == (if midi_channel == 0 {
            0
        } else {
            (midi_channel - 1) as int
        }) % 16,
        r < 16,
{
    if is_drum {
        9
    } else {
        let c = if midi_channel == 0 {
            0
        } else {
            midi_channel - 1
        };
        proof {
            assert(c & 0x0F == c % 16) by (bit_vector);
        }
        c & 0x0F
    }
}

/// The master step a clip's notes are scheduled for: audio sources run
/// `lookahead` steps ahead to hide the audio buffer's latency.
pub fn base_step(global_step: usize, is_audio_source: bool, lookahead: usize) -> (r: usize)
    requires
        global_step + lookahead <= usize::MAX,
    ensures
        r == (if is_audio_source {
            global_step + lookahead
        } else {
            global_step as int
        }),
{
    if is_audio_source {
        global_step + lookahead
    } else {
        global_step
    }
}

/// `String::push`: appends the character `c` to `s`.
#[verifier::external_body]
fn push_char(s: &mut String, c: char)
    ensures
        final(s)@ == old(s)@.push(c),
{
    s.push(c);
}

/// The key of the matrix cell at (`row`, `col`): the row's letter (`A` for
/// row 0, counting on through the characters after it) followed by the
/// column number.
pub open spec fn clip_key_spec(row: int, col: int) -> Seq<char> {
    seq![((65 + ((row as usize) as u8)) as u8) as char] + crate::note::decimal(col as nat)
}

/// Build [`clip_key_spec`].
pub fn clip_key(row: usize, col: usize) -> (r: String)
    requires
        (row as u8) < 191,
    ensures
        r@ == clip_key_spec(row as int, col as int),
{
    let mut s = String::new();
    let c = (65u8 + row as u8) as char;
    push_char(&mut s, c);
    proof {
        assert(s@ =~= seq![((65 + ((row as usize) as u8)) as u8) as char]);
    }
    crate::text::append_decimal(&mut s, col as u64);
    s
}

/// What a matrix automation lane drives, read from its target name.
#[derive(Debug, Clone, Copy, PartialEq, Eq, Structural)]
pub enum AutomationTarget {
    /// `project.bpm` or `bpm`: the tempo.
    Bpm,
    /// `slot.N.fx.M.param.P`: parameter `P` of effect `M` on audio slot `N`.
    SlotFx { slot_id: u32, fx_idx: usize, param_idx: usize },
    /// `channel.N.X`: CC `cc` on MIDI output `N`, where `X` is `ccK` (`K`,
    /// or 74 when `K` does not parse), `send_a` (91) or `send_b` (92).
    ChannelCc { port_idx: usize, cc: u8 },
    /// Anything else.
    Unknown,
}

/// `t[a..b]` parsed as an unsigned decimal of at most `max`.
pub open spec fn dec_at(t: Seq<char>, a: int, b: int, max: int) -> Option<int> {
    parse_dec_spec(t.subrange(a, b), max)
}

/// The slot form, read from after `slot.` (at index 5).
pub open spec fn slot_target(t: Seq<char>) -> AutomationTarget {
    let d1 = find_spec(t, 5, '.');
    let d2 = find_spec(t, d1 + 4, '.');
    let d3 = d2 + 6;
    if d1 < t.len() && t.subrange(d1 + 1, d1 + 4) == "fx."@ && d1 + 4 <= t.len() && d2 < t.len() && d2 + 7 <= t.len()
        && t.subrange(d2 + 1, d2 + 7) == "param."@ && find_spec(t, d2 + 7, '.') == t.len() {
        match (dec_at(t, 5, d1, u32::MAX as int), dec_at(t, d1 + 4, d2, usize::MAX as int), dec_at(t, d3 + 1, t.len() as int, usize::MAX as int)) {
            (Some(a), Some(b), Some(c)) => AutomationTarget::SlotFx { slot_id: a as u32, fx_idx: b as usize, param_idx: c as usize },
            _ => AutomationTarget::Unknown,
        }
    } else {
        AutomationTarget::Unknown
    }
}

/// The CC a `channel.N.` lane's suffix `x` selects.
pub open spec fn channel_cc(x: Seq<char>) -> Option<int> {
    if x.len() >= 2 && x[0] == 'c' && x[1] == 'c' {
        match parse_dec_spec(x.skip(2), 255) {
            Some(v) => Some(v),
            None => Some(74),
        }
    } else if x == "send_a"@ {
        Some(91)
    } else if x == "send_b"@ {
        Some(92)
    } else {
        None
    }
}

/// The channel form, read from after `channel.` (at index 8).
pub open spec fn channel_target(t: Seq<char>) -> AutomationTarget {
    let d = find_spec(t, 8, '.');
    if d < t.len() {
        match (dec_at(t, 8, d, usize::MAX as int), channel_cc(t.skip(d + 1))) {
            (Some(n), Some(cc)) => AutomationTarget::ChannelCc { port_idx: n as usize, cc: cc as u8 },
            _ => AutomationTarget::Unknown,
        }
    } else {
        AutomationTarget::Unknown
    }
}

/// What target name `t` means.
pub open spec fn automation_target_spec(t: Seq<char>) -> AutomationTarget {
    if t == "project.bpm"@ || t == "bpm"@ {
        AutomationTarget::Bpm
    } else if t.len() >= 5 && t.take(5) == "slot."@ {
        slot_target(t)
    } else if t.len() >= 8 && t.take(8) == "channel."@ {
        channel_target(t)
    } else {
        AutomationTarget::Unknown
    }
}

fn channel_cc_of(t: &str, from: usize) -> (r: Option<u8>)
    requires
        from <= t@.len(),
    ensures
        match r {
            Some(v) => channel_cc(t@.skip(from as int)) == Some(v as int),
            None => channel_cc(t@.skip(from as int)) is None,
        },
{
    proof {
        reveal_strlit("send_a");
        reveal_strlit("send_b");
        reveal_strlit("cc");
    }
    let n = t.unicode_len();
    let ghost x = t@.skip(from as int);
    if n - from >= 2 && t.get_char(from) == 'c' && t.get_char(from + 1) == 'c' {
        proof {
            assert(x.skip(2) =~= t@.skip(from + 2));
        }
        match parse_dec(t, from + 2, 255) {
            Some(v) => Some(v as u8),
            None => Some(74),
        }
    } else if has_at(t, from, "send_a") && n - from == 6 {
        proof {
            assert(x =~= t@.subrange(from as int, from + 6));
        }
        Some(91)
    } else if has_at(t, from, "send_b") && n - from == 6 {
        proof {
            assert(x =~= t@.subrange(from as int, from + 6));
        }
        Some(92)
    } else {
        proof {
            if x == "send_a"@ || x == "send_b"@ {
                assert(x.len() == 6);
                assert(x =~= t@.subrange(from as int, from + 6));
            }
        }
        None
    }
}

/// Read an automation lane's target name.
pub fn automation_target(target: &str) -> (r: AutomationTarget)
    ensures
        r == automation_target_spec(target@),
{
    proof {
        reveal_strlit("project.bpm");
        reveal_strlit("bpm");
        reveal_strlit("slot.");
        reveal_strlit("channel.");
        reveal_strlit("fx.");
        reveal_strlit("param.");
    }
    let n = target.unicode_len();
    if str_eq(target, "project.bpm") || str_eq(target, "bpm") {
        return AutomationTarget::Bpm;
    }
    if has_at(target, 0, "slot.") {
        proof {
            assert(target@.subrange(0, 5) =~= target@.take(5));
        }
        let d1 = find_char(target, 5, '.');
        if d1 >= n || !has_at(target, d1 + 1, "fx.") {
            return AutomationTarget::Unknown;
        }
        let d2 = find_char(target, d1 + 4, '.');
        if d2 >= n || !has_at(target, d2 + 1, "param.") {
            return AutomationTarget::Unknown;
        }
        if find_char(target, d2 + 7, '.') != n {
            return AutomationTarget::Unknown;
        }
        let a = parse_dec_range(target, 5, d1, 4294967295);
        let b = parse_dec_range(target, d1 + 4, d2, usize::MAX as u64);
        let c = parse_dec_range(target, d2 + 7, n, usize::MAX as u64);
        return match (a, b, c) {
            (Some(a), Some(b), Some(c)) => AutomationTarget::SlotFx { slot_id: a as u32, fx_idx: b as usize, param_idx: c as usize },
            _ => AutomationTarget::Unknown,
        };
    }
    proof {
        if target@.len() >= 5 {
            assert(target@.subrange(0, 5) =~= target@.take(5));
        }
    }
    if has_at(target, 0, "channel.") {
        proof {
            assert(target@.subrange(0, 8) =~= target@.take(8));
        }
        let d = find_char(target, 8, '.');
        if d >= n {
            return AutomationTarget::Unknown;
        }
        let idx = parse_dec_range(target, 8, d, usize::MAX as u64);
        let cc = channel_cc_of(target, d + 1);
        return match (idx, cc) {
            (Some(i), Some(c)) => AutomationTarget::ChannelCc { port_idx: i as usize, cc: c },
            _ => AutomationTarget::Unknown,
        };
    }
    proof {
        if target@.len() >= 8 {
            assert(target@.subrange(0, 8) =~= target@.take(8));
        }
    }
    AutomationTarget::Unknown
}

/// Song-mode chain position: the entry playing and the bars it has played.
#[derive(Debug, Clone, Copy, PartialEq, Eq, Structural)]
pub struct ChainPos {
    pub pos: usize,
    pub bars: u32,
}

/// One bar of song mode, as [`advance_chain`] computes it.
pub open spec fn advance_chain_spec(chain: Seq<ChainEntry>, at: ChainPos) -> (ChainPos, Option<(usize, usize)>) {
    if chain.len() == 0 {
        (at, None)
    } else {
        let entry_bars = if at.pos < chain.len() {
            chain[at.pos as int].bars as int
        } else {
            1
        };
        if at.bars + 1 >= entry_bars {
            let np = (at.pos + 1) % (chain.len() as int);
            (ChainPos { pos: np as usize, bars: 0 }, Some((np as usize, chain[np].scene_idx)))
        } else {
            (ChainPos { pos: at.pos, bars: (at.bars + 1) as u32 }, None)
        }
    }
}

/// One bar of song mode: count the bar; once the entry has played its bars
/// (1 for a position past the end), move to the next entry (wrapping) and
/// report its position and scene. An empty chain stays put.
pub fn advance_chain(chain: &[ChainEntry], at: ChainPos) -> (r: (ChainPos, Option<(usize, usize)>))
    requires
        at.bars < u32::MAX,
        at.pos < usize::MAX,
    ensures
        r == advance_chain_spec(chain@, at),
{
    let len = chain.len();
    if len == 0 {
        return (at, None);
    }
    let bars = at.bars + 1;
    let entry_bars: u32 = if at.pos < len {
        chain[at.pos].bars
    } else {
        1
    };
    if bars >= entry_bars {
        let np = (at.pos + 1) % len;
        (ChainPos { pos: np, bars: 0 }, Some((np, chain[np].scene_idx)))
    } else {
        (ChainPos { pos: at.pos, bars }, None)
    }
}

/// Where song mode is after `n` bars from `at`.
pub open spec fn chain_after(chain: Seq<ChainEntry>, at: ChainPos, n: nat) -> ChainPos
    decreases n,
{
    if n == 0 {
        at
    } else {
        advance_chain_spec(chain, chain_after(chain, at, (n - 1) as nat)).0
    }
}

/// Song mode plays each entry for exactly its number of bars: entered at
/// its first bar, an entry of `b >= 1` bars stays in place, reporting no
/// scene change, for its first `b - 1` bars, and its `b`-th bar moves to
/// the next entry (wrapping), reporting that entry and its scene.
pub proof fn lemma_chain_entry_plays_its_bars(chain: Seq<ChainEntry>, pos: usize, k: nat)
    requires
        pos < chain.len(),
        chain[pos as int].bars >= 1,
        k <= chain[pos as int].bars,
    ensures
        k < chain[pos as int].bars ==> chain_after(chain, ChainPos { pos, bars: 0 }, k) == (ChainPos { pos, bars: k as u32 }),
        k + 1 < chain[pos as int].bars ==> advance_chain_spec(chain, ChainPos { pos, bars: k as u32 }).1 is None,
        k == chain[pos as int].bars ==> {
            let np = (pos + 1) % (chain.len() as int);
            &&& chain_after(chain, ChainPos { pos, bars: 0 }, k) == (ChainPos { pos: np as usize, bars: 0 })
            &&& advance_chain_spec(chain, ChainPos { pos, bars: (k - 1) as u32 }).1 == Some((np as usize, chain[np].scene_idx))
        },
    decreases k,
{
    if k > 0 {
        lemma_chain_entry_plays_its_bars(chain, pos, (k - 1) as nat);
    }
}

/// An empty chain stays put; otherwise each bar either counts one more bar
/// of the same entry, reporting nothing, or starts the next entry (wrapping
/// to the first) at its first bar, reporting that entry and its scene; a
/// position past the end moves on after one bar.
pub proof fn lemma_chain_step(chain: Seq<ChainEntry>, at: ChainPos)
    requires
        chain.len() <= usize::MAX,
        at.bars < u32::MAX,
    ensures
        chain.len() == 0 ==> advance_chain_spec(chain, at) == (at, None::<(usize, usize)>),
        chain.len() > 0 ==> {
            let (np, ev) = advance_chain_spec(chain, at);
            ||| (np.pos == at.pos && np.bars == at.bars + 1 && ev is None)
            ||| (np.pos == (at.pos + 1) % (chain.len() as int) && np.bars == 0 && ev == Some(
                (np.pos, chain[np.pos as int].scene_idx),
            ))
        },
        chain.len() > 0 && at.pos >= chain.len() ==> advance_chain_spec(chain, at).0.pos == (at.pos + 1) % (
        chain.len() as int),
{
}

/// Playback position and state of the sequencer clock (the tempo itself is
/// kept by the caller).
#[derive(Debug, Clone)]
pub struct Transport {
    pub playing: bool,
    /// Paused: stopped with the position kept.
    pub paused: bool,
    pub recording: bool,
    /// Ticks per quarter note.
    pub ppqn: u32,
    pub current_bar: usize,
    pub current_step: usize,
    pub current_tick: u32,
    pub active_pattern: Option<String>,
    /// Ticks since playback started.
    pub elapsed_ticks: u64,
}

impl Transport {
    /// Stopped at the start, 480 ticks per quarter note.
    pub fn new() -> (t: Transport)
        ensures
            !t.playing && !t.paused && !t.recording,
            t.ppqn == 480,
            t.current_bar == 0 && t.current_step == 0 && t.current_tick == 0 && t.elapsed_ticks == 0,
            t.active_pattern.is_none(),
    {
        Transport {
            playing: false,
            paused: false,
            recording: false,
            ppqn: 480,
            current_bar: 0,
            current_step: 0,
            current_tick: 0,
            active_pattern: None,
            elapsed_ticks: 0,
        }
    }

    /// Steps per bar: sixteenths in 4/4.
    pub fn steps_per_bar(&self) -> (r: usize)
        ensures
            r == 16,
    {
        16
    }

    /// Advance one step; every 16th step starts a new bar. Returns whether it
    /// did.
    pub fn advance_step(&mut self) -> (bar: bool)
        requires
            old(self).current_step < usize::MAX,
            old(self).current_bar < usize::MAX,
        ensures
            final(self).current_step == old(self).current_step + 1,
            bar == (final(self).current_step % 16 == 0),
            final(self).current_bar == old(self).current_bar + (if bar {
                1int
            } else {
                0
            }),
            final(self).current_tick == old(self).current_tick,
            final(self).elapsed_ticks == old(self).elapsed_ticks,
            final(self).playing == old(self).playing,
            final(self).paused == old(self).paused,
    {
        self.current_step = self.current_step + 1;
        let bar = self.current_step % 16 == 0;
        if bar {
            self.current_bar = self.current_bar + 1;
        }
        bar
    }

    /// Back to the start: position and tick counters zero, not paused.
    pub fn reset(&mut self)
        ensures
            final(self).current_step == 0,
            final(self).current_tick == 0,
            final(self).current_bar == 0,
            final(self).elapsed_ticks == 0,
            !final(self).paused,
            final(self).playing == old(self).playing,
            final(self).recording == old(self).recording,
            final(self).ppqn == old(self).ppqn,
            final(self).active_pattern == old(self).active_pattern,
    {
        self.current_step = 0;
        self.current_tick = 0;
        self.current_bar = 0;
        self.elapsed_ticks = 0;
        self.paused = false;
    }
}

/// A message the clock sends: to the MIDI clock ports, or to a named MIDI
/// port.
#[derive(Debug)]
pub enum ClockOut {
    /// To every MIDI clock port.
    Clock(Vec<u8>),
    /// To the MIDI port named `dest`, if it is connected.
    Port { dest: String, bytes: Vec<u8> },
}

/// Transport commands the clock handles itself.
#[derive(Debug, Clone)]
pub enum TransportCommand {
    Play,
    Pause,
    Rewind,
    Stop,
    Record,
    SetPattern(String),
    SetMidiClockOut(bool),
    /// The project was replaced: drop every queued note.
    ProjectSwapped,
    SetChainMode(bool),
    SeekChain(usize),
    SetArrangementPlayback(bool),
}

/// The clock's own state: the transport, the note queues and the playback
/// modes.
pub struct Clock {
    pub transport: Transport,
    pub pending_note_offs: Vec<PendingNoteOff>,
    pub pending_note_ons: Vec<PendingNoteOn>,
    pub midi_clock_out: bool,
    pub chain_mode: bool,
    pub chain: ChainPos,
    pub arrangement_playback: bool,
    /// Master steps since playback started (the arrangement's clock).
    pub absolute_step: usize,
}

/// The note-offs a queue flush sends: one per queued note-off, in order, to
/// its destination.
pub open spec fn flush_msgs(offs: Seq<PendingNoteOff>) -> Seq<(Option<Seq<char>>, Seq<u8>)> {
    offs.map_values(|p: PendingNoteOff| (Some(p.dest_name@), seq![0x80u8 | p.ch, p.note, 0u8]))
}

/// The views of clock messages: the named port (`None` for every MIDI
/// clock port) and the bytes.
pub open spec fn port_msgs(v: Seq<ClockOut>) -> Seq<(Option<Seq<char>>, Seq<u8>)> {
    v.map_values(|m: ClockOut| match m {
        ClockOut::Port { dest, bytes } => (Some(dest@), bytes@),
        ClockOut::Clock(b) => (None::<Seq<char>>, b@),
    })
}

/// `b` keeps `a`'s playback modes, song-mode position and arrangement clock.
pub open spec fn modes_kept(a: Clock, b: Clock) -> bool {
    &&& b.midi_clock_out == a.midi_clock_out
    &&& b.chain_mode == a.chain_mode
    &&& b.chain == a.chain
    &&& b.arrangement_playback == a.arrangement_playback
    &&& b.absolute_step == a.absolute_step
}

/// `b` keeps `a`'s note queues.
pub open spec fn queues_kept(a: Clock, b: Clock) -> bool {
    &&& b.pending_note_offs@ == a.pending_note_offs@
    &&& b.pending_note_ons@ == a.pending_note_ons@
}

/// `b`'s note queues are empty.
pub open spec fn queues_empty(b: Clock) -> bool {
    &&& b.pending_note_offs@.len() == 0
    &&& b.pending_note_ons@.len() == 0
}

/// `t` is `a` back at the start: position and tick counters zero.
pub open spec fn at_start(a: Transport, playing: bool, paused: bool) -> Transport {
    Transport { playing, paused, current_step: 0, current_bar: 0, current_tick: 0, elapsed_ticks: 0, ..a }
}

impl Clock {
    /// A stopped clock with empty queues and every mode off.
    pub fn new() -> (c: Clock)
        ensures
            c.pending_note_offs@.len() == 0,
            c.pending_note_ons@.len() == 0,
            !c.midi_clock_out && !c.chain_mode && !c.arrangement_playback,
            c.chain == (ChainPos { pos: 0, bars: 0 }),
            c.absolute_step == 0,
            c.transport == (Transport {
                playing: false,
                paused: false,
                recording: false,
                ppqn: 480,
                current_bar: 0,
                current_step: 0,
                current_tick: 0,
                active_pattern: None,
                elapsed_ticks: 0,
            }),
    {
        Clock {
            transport: Transport::new(),
            pending_note_offs: Vec::new(),
            pending_note_ons: Vec::new(),
            midi_clock_out: false,
            chain_mode: false,
            chain: ChainPos { pos: 0, bars: 0 },
            arrangement_playback: false,
            absolute_step: 0,
        }
    }

    /// Send a note-off for every queued note-off and empty both queues.
    fn flush(&mut self, out: &mut Vec<ClockOut>)
        ensures
            final(self).pending_note_offs@.len() == 0,
            final(self).pending_note_ons@.len() == 0,
            port_msgs(final(out)@) == port_msgs(old(out)@) + flush_msgs(old(self).pending_note_offs@),
            final(self).transport == old(self).transport,
            final(self).midi_clock_out == old(self).midi_clock_out,
            final(self).chain_mode == old(self).chain_mode,
            final(self).chain == old(self).chain,
            final(self).arrangement_playback == old(self).arrangement_playback,
            final(self).absolute_step == old(self).absolute_step,
    {
        let ghost start = port_msgs(out@);
        let ghost offs = self.pending_note_offs@;
        let mut i: usize = 0;
        while i < self.pending_note_offs.len()
            invariant
                i <= offs.len(),
                self.pending_note_offs@ == offs,
                port_msgs(out@) == start + flush_msgs(offs.take(i as int)),
            decreases offs.len() - i,
        {
            let p = &self.pending_note_offs[i];
            let m = msg3(0x80u8 | p.ch, p.note, 0);
            let d = p.dest_name.clone();
            let ghost before = out@;
            let item = ClockOut::Port { dest: d, bytes: m };
            let ghost iv = item;
            out.push(item);
            proof {
                assert(out@ == before.push(iv));
                assert(port_msgs(out@) =~= port_msgs(before).push((Some(p.dest_name@), seq![0x80u8 | p.ch, p.note, 0u8])));
                assert(offs.take(i + 1) =~= offs.take(i as int).push(offs[i as int]));
                assert(flush_msgs(offs.take(i + 1)) =~= flush_msgs(offs.take(i as int)).push((Some(p.dest_name@), seq![0x80u8 | p.ch, p.note, 0u8])));
            }
            i = i + 1;
        }
        proof {
            assert(offs.take(offs.len() as int) =~= offs);
        }
        self.pending_note_offs.clear();
        self.pending_note_ons.clear();
    }

    /// Handle a transport command and return what to send.
    ///
    /// Play starts (sending MIDI Start when clock output is on); Pause stops
    /// where it is; Rewind goes back to the start without changing play or
    /// pause; Stop stops, goes back to the start and sends MIDI Stop when
    /// clock output is on. Pause, Rewind and Stop first send a note-off for
    /// every queued note-off and drop both queues. Turning clock output off
    /// sends MIDI Stop. Turning song mode on restarts the chain.
    pub fn handle_command(&mut self, cmd: TransportCommand) -> (out: Vec<ClockOut>)
        ensures
            match cmd {
                TransportCommand::Play => {
                    &&& final(self).transport == (Transport { playing: true, paused: false, ..old(self).transport })
                    &&& port_msgs(out@) == if old(self).midi_clock_out {
                        seq![(None::<Seq<char>>, seq![0xFAu8])]
                    } else {
                        Seq::empty()
                    }
                    &&& modes_kept(*old(self), *final(self))
                    &&& queues_kept(*old(self), *final(self))
                },
                TransportCommand::Pause => {
                    &&& final(self).transport == (Transport { playing: false, paused: true, ..old(self).transport })
                    &&& port_msgs(out@) == flush_msgs(old(self).pending_note_offs@)
                    &&& modes_kept(*old(self), *final(self))
                    &&& queues_empty(*final(self))
                },
                TransportCommand::Rewind => {
                    &&& final(self).transport == at_start(
                        old(self).transport,
                        old(self).transport.playing,
                        old(self).transport.paused,
                    )
                    &&& port_msgs(out@) == flush_msgs(old(self).pending_note_offs@)
                    &&& modes_kept(*old(self), *final(self))
                    &&& queues_empty(*final(self))
                },
                TransportCommand::Stop => {
                    &&& final(self).transport == at_start(old(self).transport, false, false)
                    &&& port_msgs(out@) == flush_msgs(old(self).pending_note_offs@) + if old(self).midi_clock_out {
                        seq![(None::<Seq<char>>, seq![0xFCu8])]
                    } else {
                        Seq::empty()
                    }
                    &&& modes_kept(*old(self), *final(self))
                    &&& queues_empty(*final(self))
                },
                TransportCommand::Record => {
                    &&& final(self).transport == (Transport { recording: !old(self).transport.recording, ..old(self).transport })
                    &&& out@.len() == 0
                    &&& modes_kept(*old(self), *final(self))
                    &&& queues_kept(*old(self), *final(self))
                },
                TransportCommand::SetPattern(k) => {
                    &&& final(self).transport == (Transport { active_pattern: Some(k), ..old(self).transport })
                    &&& out@.len() == 0
                    &&& modes_kept(*old(self), *final(self))
                    &&& queues_kept(*old(self), *final(self))
                },
                TransportCommand::SetMidiClockOut(e) => {
                    &&& *final(self) == (Clock { midi_clock_out: e, ..*old(self) })
                    &&& port_msgs(out@) == if e {
                        Seq::empty()
                    } else {
                        seq![(None::<Seq<char>>, seq![0xFCu8])]
                    }
                },
                TransportCommand::ProjectSwapped => {
                    &&& final(self).transport == old(self).transport
                    &&& modes_kept(*old(self), *final(self))
                    &&& queues_empty(*final(self))
                    &&& out@.len() == 0
                },
                TransportCommand::SetChainMode(e) => {
                    &&& *final(self) == (Clock {
                        chain_mode: e,
                        chain: if e {
                            ChainPos { pos: 0, bars: 0 }
                        } else {
                            old(self).chain
                        },
                        ..*old(self)
                    })
                    &&& out@.len() == 0
                },
                TransportCommand::SeekChain(p) => {
                    &&& *final(self) == (Clock { chain: ChainPos { pos: p, bars: 0 }, ..*old(self) })
                    &&& out@.len() == 0
                },
                TransportCommand::SetArrangementPlayback(e) => {
                    &&& *final(self) == (Clock { arrangement_playback: e, ..*old(self) })
                    &&& out@.len() == 0
                },
            },
    {
        let mut out: Vec<ClockOut> = Vec::new();
        match cmd {
            TransportCommand::Play => {
                if self.midi_clock_out {
                    let mut b: Vec<u8> = Vec::new();
                    b.push(0xFA);
                    out.push(ClockOut::Clock(b));
                    proof {
                        assert(port_msgs(out@) =~= seq![(None::<Seq<char>>, seq![0xFAu8])]);
                    }
                } else {
                    proof {
                        assert(port_msgs(out@) =~= Seq::empty());
                    }
                }
                self.transport.playing = true;
                self.transport.paused = false;
            },
            TransportCommand::Pause => {
                proof {
                    assert(port_msgs(out@) =~= Seq::empty());
                }
                self.flush(&mut out);
                proof {
                    assert(port_msgs(out@) =~= flush_msgs(old(self).pending_note_offs@));
                }
                self.transport.playing = false;
                self.transport.paused = true;
            },
            TransportCommand::Rewind => {
                let was_playing = self.transport.playing;
                let was_paused = self.transport.paused;
                self.transport.reset();
                self.transport.playing = was_playing;
                self.transport.paused = was_paused;
                proof {
                    assert(port_msgs(out@) =~= Seq::empty());
                }
                self.flush(&mut out);
                proof {
                    assert(port_msgs(out@) =~= flush_msgs(old(self).pending_note_offs@));
                }
            },
            TransportCommand::Stop => {
                proof {
                    assert(port_msgs(out@) =~= Seq::empty());
                }
                self.flush(&mut out);
                let ghost mid = port_msgs(out@);
                if self.midi_clock_out {
                    let mut b: Vec<u8> = Vec::new();
                    b.push(0xFC);
                    out.push(ClockOut::Clock(b));
                    proof {
                        assert(port_msgs(out@) =~= mid + seq![(None::<Seq<char>>, seq![0xFCu8])]);
                    }
                } else {
                    proof {
                        assert(port_msgs(out@) =~= mid + Seq::empty());
                    }
                }
                self.transport.playing = false;
                self.transport.reset();
                proof {
                    assert(port_msgs(out@) =~= flush_msgs(old(self).pending_note_offs@) + if old(self).midi_clock_out {
                        seq![(None::<Seq<char>>, seq![0xFCu8])]
                    } else {
                        Seq::empty()
                    });
                }
            },
            TransportCommand::Record => {
                self.transport.recording = !self.transport.recording;
            },
            TransportCommand::SetPattern(k) => {
                self.transport.active_pattern = Some(k);
            },
            TransportCommand::SetMidiClockOut(e) => {
                self.midi_clock_out = e;
                if !e {
                    let mut b: Vec<u8> = Vec::new();
                    b.push(0xFC);
                    out.push(ClockOut::Clock(b));
                    proof {
                        assert(port_msgs(out@) =~= seq![(None::<Seq<char>>, seq![0xFCu8])]);
                    }
                } else {
                    proof {
                        assert(port_msgs(out@) =~= Seq::empty());
                    }
                }
            },
            TransportCommand::ProjectSwapped => {
                self.pending_note_offs.clear();
                self.pending_note_ons.clear();
            },
            TransportCommand::SetChainMode(e) => {
                self.chain_mode = e;
                if e {
                    self.chain = ChainPos { pos: 0, bars: 0 };
                }
            },
            TransportCommand::SeekChain(p) => {
                self.chain = ChainPos { pos: p, bars: 0 };
            },
            TransportCommand::SetArrangementPlayback(e) => {
                self.arrangement_playback = e;
            },
        }
        out
    }
}

/// A queued note whose time has come, and what it does.
#[derive(Debug)]
pub struct Fired {
    /// The queued destination name.
    pub dest: String,
    pub out: NoteOut,
    /// For a note-off sent to a MIDI port: the clip whose MPE channel map
    /// frees the note's channel, and the note.
    pub release_mpe: Option<(String, u8)>,
}

/// `f` is the firing of due note-on `p`.
pub open spec fn fired_on(f: Fired, p: PendingNoteOn) -> bool {
    f.dest@ == p.dest_name@ && on_out_ok(f.out, p) && f.release_mpe.is_none()
}

/// `f` is the firing of due note-off `p`.
pub open spec fn fired_off(f: Fired, p: PendingNoteOff) -> bool {
    &&& f.dest@ == p.dest_name@
    &&& off_out_ok(f.out, p)
    &&& f.release_mpe == match (route_spec(p.dest_name@), p.clip_key) {
        (Route::Midi, Some(k)) => Some((k, p.note)),
        _ => None,
    }
}

/// What the rest of a tick needs: the notes that fired, and the step that
/// starts on this tick, if one does.
pub struct TickStart {
    pub fired: Vec<Fired>,
    pub step: Option<usize>,
}

/// What closing a step reports.
#[derive(Debug, PartialEq, Eq)]
pub struct StepEnd {
    /// The bar that has just begun, if one has.
    pub bar: Option<usize>,
    /// Song mode moved to this (chain position, scene).
    pub chain: Option<(usize, usize)>,
}

impl Clock {
    /// Start a tick: count it, fire the queued note-ons and then note-offs
    /// that are due (each queue in order; the rest stay queued), and report
    /// the master step that starts on this tick (every `ppqn / 4` ticks).
    pub fn begin_tick(&mut self) -> (r: TickStart)
        requires
            old(self).transport.elapsed_ticks < u64::MAX,
            old(self).transport.current_tick < u32::MAX,
            forall|i: int| 0 <= i < old(self).pending_note_ons@.len() ==> (#[trigger] old(self).pending_note_ons@[i]).pitch_bend <= i16::MAX - 8192,
        ensures
            final(self).transport.elapsed_ticks == old(self).transport.elapsed_ticks + 1,
            final(self).transport.current_tick == old(self).transport.current_tick + 1,
            final(self).transport.current_step == old(self).transport.current_step,
            final(self).transport.current_bar == old(self).transport.current_bar,
            final(self).transport.ppqn == old(self).transport.ppqn,
            ({
                let now = final(self).transport.elapsed_ticks;
                let ons = old(self).pending_note_ons@.filter(|p: PendingNoteOn| p.at_tick <= now);
                let offs = old(self).pending_note_offs@.filter(|p: PendingNoteOff| p.at_tick <= now);
                &&& final(self).pending_note_ons@ == old(self).pending_note_ons@.filter(|p: PendingNoteOn| p.at_tick > now)
                &&& final(self).pending_note_offs@ == old(self).pending_note_offs@.filter(|p: PendingNoteOff| p.at_tick > now)
                &&& r.fired@.len() == ons.len() + offs.len()
                &&& forall|k: int| 0 <= k < ons.len() ==> fired_on(#[trigger] r.fired@[k], ons[k])
                &&& forall|k: int| 0 <= k < offs.len() ==> fired_off(#[trigger] r.fired@[ons.len() + k], offs[k])
            }),
            r.step == if final(self).transport.ppqn / 4 == 0 || final(self).transport.current_tick % (
            final(self).transport.ppqn / 4) != 0 {
                Option::<usize>::None
            } else {
                Some(final(self).transport.current_step)
            },
            final(self).chain == old(self).chain,
            final(self).chain_mode == old(self).chain_mode,
            final(self).absolute_step == old(self).absolute_step,
    {
        self.transport.elapsed_ticks = self.transport.elapsed_ticks + 1;
        self.transport.current_tick = self.transport.current_tick + 1;
        let now = self.transport.elapsed_ticks;
        let mut ons_all: Vec<PendingNoteOn> = Vec::new();
        std::mem::swap(&mut ons_all, &mut self.pending_note_ons);
        let mut offs_all: Vec<PendingNoteOff> = Vec::new();
        std::mem::swap(&mut offs_all, &mut self.pending_note_offs);
        let ghost ons_src = ons_all@;
        let (due_ons, rest_ons) = take_due_note_ons(ons_all, now);
        let (due_offs, rest_offs) = take_due_note_offs(offs_all, now);
        self.pending_note_ons = rest_ons;
        self.pending_note_offs = rest_offs;
        proof {
            reveal(Seq::filter);
            assert forall|i: int| 0 <= i < due_ons@.len() implies (#[trigger] due_ons@[i]).pitch_bend <= i16::MAX - 8192 by {
                ons_src.lemma_filter_contains_rev(|p: PendingNoteOn| p.at_tick <= now, due_ons@[i]);
                assert(ons_src.filter(|p: PendingNoteOn| p.at_tick <= now).contains(due_ons@[i]));
            }
        }
        let mut fired: Vec<Fired> = Vec::new();
        let mut i: usize = 0;
        while i < due_ons.len()
            invariant
                i <= due_ons@.len(),
                fired@.len() == i,
                forall|j: int| 0 <= j < due_ons@.len() ==> (#[trigger] due_ons@[j]).pitch_bend <= i16::MAX - 8192,
                forall|k: int| 0 <= k < i ==> fired_on(#[trigger] fired@[k], due_ons@[k]),
            decreases due_ons@.len() - i,
        {
            let p = &due_ons[i];
            let o = dispatch_note_on(p);
            fired.push(Fired { dest: p.dest_name.clone(), out: o, release_mpe: None });
            i = i + 1;
        }
        let mut j: usize = 0;
        while j < due_offs.len()
            invariant
                j <= due_offs@.len(),
                fired@.len() == due_ons@.len() + j,
                forall|k: int| 0 <= k < due_ons@.len() ==> fired_on(#[trigger] fired@[k], due_ons@[k]),
                forall|k: int| 0 <= k < j ==> fired_off(#[trigger] fired@[due_ons@.len() + k], due_offs@[k]),
            decreases due_offs@.len() - j,
        {
            let p = &due_offs[j];
            let o = dispatch_note_off(p);
            let midi = match route_of(p.dest_name.as_str()) {
                Route::Midi => true,
                _ => false,
            };
            let release = if midi {
                match &p.clip_key {
                    Some(k) => Some((k.clone(), p.note)),
                    None => None,
                }
            } else {
                None
            };
            fired.push(Fired { dest: p.dest_name.clone(), out: o, release_mpe: release });
            proof {
                assert(fired@[due_ons@.len() + j] == fired@.last());
            }
            j = j + 1;
        }
        let tps = self.transport.ppqn / 4;
        let step = if tps == 0 || self.transport.current_tick % tps != 0 {
            None
        } else {
            Some(self.transport.current_step)
        };
        TickStart { fired, step }
    }

    /// Close a master step: count it on the arrangement clock, advance the
    /// transport (a bar every 16 steps), move song mode on at a new bar when
    /// it is on, and restart the tick count.
    pub fn end_step(&mut self, chain: &[ChainEntry]) -> (r: StepEnd)
        requires
            old(self).absolute_step < usize::MAX,
            old(self).transport.current_step < usize::MAX,
            old(self).transport.current_bar < usize::MAX,
            old(self).chain.bars < u32::MAX,
            old(self).chain.pos < usize::MAX,
        ensures
            final(self).absolute_step == old(self).absolute_step + 1,
            final(self).transport.current_step == old(self).transport.current_step + 1,
            final(self).transport.current_tick == 0,
            final(self).transport.elapsed_ticks == old(self).transport.elapsed_ticks,
            (final(self).transport.current_step % 16 == 0) == r.bar.is_some(),
            r.bar.is_some() ==> r.bar == Some(final(self).transport.current_bar) && final(self).transport.current_bar
                == old(self).transport.current_bar + 1,
            r.bar.is_none() ==> final(self).transport.current_bar == old(self).transport.current_bar,
            r.bar.is_some() && old(self).chain_mode ==> (final(self).chain, r.chain) == advance_chain_spec(chain@, old(self).chain),
            !(r.bar.is_some() && old(self).chain_mode) ==> final(self).chain == old(self).chain && r.chain.is_none(),
            final(self).pending_note_ons@ == old(self).pending_note_ons@,
            final(self).pending_note_offs@ == old(self).pending_note_offs@,
    {
        self.absolute_step = self.absolute_step + 1;
        let bar = self.transport.advance_step();
        let mut chain_ev: Option<(usize, usize)> = None;
        if bar && self.chain_mode {
            let (np, ev) = advance_chain(chain, self.chain);
            self.chain = np;
            chain_ev = ev;
        }
        self.transport.current_tick = 0;
        StepEnd { bar: if bar { Some(self.transport.current_bar) } else { None }, chain: chain_ev }
    }

    /// Loop the arrangement clock: once it reaches `end_step` it goes back to
    /// `start_step` (for a non-empty span). Returns whether it jumped.
    pub fn loop_arrangement(&mut self, start_step: usize, end_step: usize) -> (jumped: bool)
        ensures
            jumped == (end_step > start_step && old(self).absolute_step >= end_step),
            jumped ==> final(self).absolute_step == start_step,
            !jumped ==> final(self).absolute_step == old(self).absolute_step,
    {
        if end_step > start_step && self.absolute_step >= end_step {
            self.absolute_step = start_step;
            true
        } else {
            false
        }
    }
}

/// The characters of an optional string.
pub open spec fn key_view(o: Option<String>) -> Option<Seq<char>> {
    match o {
        Some(k) => Some(k@),
        None => None,
    }
}

/// The destination name of audio-engine slot `slot`.
pub open spec fn audio_dest(slot: u32) -> Seq<char> {
    audio_prefix() + crate::note::decimal(slot as nat)
}

/// Build [`audio_dest`].
pub fn audio_dest_name(slot: u32) -> (r: String)
    ensures
        r@ == audio_dest(slot),
{
    proof {
        reveal_strlit("__audio__");
        assert("__audio__"@ =~= audio_prefix());
    }
    let mut s = String::from_str("__audio__");
    crate::text::append_decimal(&mut s, slot as u64);
    s
}

/// Something a fired hit makes happen right away.
#[derive(Debug)]
pub enum Emit {
    AudioNoteOn { slot_id: u32, channel: u8, note: u8, velocity: u8 },
    AudioPitchBend { slot_id: u32, channel: u8, value: i16 },
    AudioControlChange { slot_id: u32, channel: u8, cc: u8, value: u8 },
    AudioChannelPressure { slot_id: u32, channel: u8, value: u8 },
    /// Shown to the user as a note starting.
    UiNoteOn { note: u8, vel: u8, ch: u8 },
    /// Shown to the user as a note ending.
    UiNoteOff { note: u8, ch: u8 },
    /// Sent to the clip's MIDI port.
    Send(Vec<u8>),
    /// Start the audio file loaded on a slot once.
    AudioClipTrigger { slot_id: u32 },
}

/// The views of optional port names.
pub open spec fn port_view(p: Option<String>) -> Option<Seq<char>> {
    match p {
        Some(s) => Some(s@),
        None => None,
    }
}

/// The drum map of the first drum channel among `drums[..n]` (each its MIDI
/// port and drum map) on port `out`, if any.
pub open spec fn drum_map_of(drums: Seq<(Option<String>, [u8; 16])>, out: Option<Seq<char>>, n: int) -> Option<[u8; 16]>
    decreases n,
{
    if n <= 0 {
        None
    } else if drum_map_of(drums, out, n - 1) is Some {
        drum_map_of(drums, out, n - 1)
    } else if port_view(drums[n - 1].0) == out {
        Some(drums[n - 1].1)
    } else {
        None
    }
}

/// Two optional port names are equal.
fn same_port(a: &Option<String>, b: &Option<String>) -> (r: bool)
    ensures
        r == (port_view(*a) == port_view(*b)),
{
    match (a, b) {
        (Some(x), Some(y)) => x.eq(y),
        (None, None) => true,
        _ => false,
    }
}

/// The drum map a clip routed to port `midi_out` plays with: that of the
/// first drum channel (given by its port and drum map) on the same port.
pub fn drum_map_for(drums: &[(Option<String>, [u8; 16])], midi_out: &Option<String>) -> (r: Option<[u8; 16]>)
    ensures
        r == drum_map_of(drums@, port_view(*midi_out), drums@.len() as int),
{
    let mut i: usize = 0;
    while i < drums.len()
        invariant
            i <= drums@.len(),
            drum_map_of(drums@, port_view(*midi_out), i as int) is None,
        decreases drums@.len() - i,
    {
        if same_port(&drums[i].0, midi_out) {
            proof {
                assert(drum_map_of(drums@, port_view(*midi_out), i as int + 1) == Some(drums@[i as int].1));
                lemma_drum_map_settles(drums@, port_view(*midi_out), i as int + 1, drums@.len() as int);
            }
            return Some(drums[i].1);
        }
        i = i + 1;
    }
    None
}

proof fn lemma_drum_map_settles(drums: Seq<(Option<String>, [u8; 16])>, out: Option<Seq<char>>, m: int, n: int)
    requires
        0 <= m <= n,
        drum_map_of(drums, out, m) is Some,
    ensures
        drum_map_of(drums, out, n) == drum_map_of(drums, out, m),
    decreases n - m,
{
    if m < n {
        lemma_drum_map_settles(drums, out, m, n - 1);
    }
}

/// What a planned hit of a clip sends before its notes: an audio-file clip
/// with a slot triggers the file once; an SF2 or plugin clip with a slot
/// sends CC 1 and then CC 74 on `channel` where the step's values differ
/// from a fresh note's (64 and 32); nothing otherwise.
pub open spec fn hit_prelude_spec(source: PatternSource, slot: Option<u32>, channel: u8, cc01: u8, cc74: u8) -> Seq<Emit> {
    match slot {
        None => Seq::empty(),
        Some(s) => match source {
            PatternSource::AudioFile { .. } => seq![Emit::AudioClipTrigger { slot_id: s }],
            PatternSource::Sf2 { .. } | PatternSource::Plugin { .. } => (if cc01 != 64 {
                seq![Emit::AudioControlChange { slot_id: s, channel, cc: 1, value: cc01 }]
            } else {
                Seq::empty()
            }) + (if cc74 != 32 {
                seq![Emit::AudioControlChange { slot_id: s, channel, cc: 74, value: cc74 }]
            } else {
                Seq::empty()
            }),
            PatternSource::Midi => Seq::empty(),
        },
    }
}

/// Compute [`hit_prelude_spec`].
pub fn hit_prelude(source: &PatternSource, slot: Option<u32>, channel: u8, cc01: u8, cc74: u8) -> (r: Vec<Emit>)
    ensures
        r@ == hit_prelude_spec(*source, slot, channel, cc01, cc74),
{
    let mut r: Vec<Emit> = Vec::new();
    if let Some(s) = slot {
        match source {
            PatternSource::AudioFile { .. } => {
                r.push(Emit::AudioClipTrigger { slot_id: s });
            },
            PatternSource::Sf2 { .. } | PatternSource::Plugin { .. } => {
                if cc01 != 64 {
                    r.push(Emit::AudioControlChange { slot_id: s, channel, cc: 1, value: cc01 });
                }
                if cc74 != 32 {
                    r.push(Emit::AudioControlChange { slot_id: s, channel, cc: 74, value: cc74 });
                }
            },
            PatternSource::Midi => {},
        }
    }
    proof {
        assert(r@ =~= hit_prelude_spec(*source, slot, channel, cc01, cc74));
    }
    r
}

/// Where the notes of a planned hit of a clip go: to its audio slot (`Some`,
/// with whether they carry MPE expression) for an SF2 or plugin clip (MPE
/// when the clip has a zone) or a MIDI clip (never MPE) that has one; and
/// to the clip's MIDI port (`true`) for a MIDI clip. An audio-file clip's
/// hits play no notes.
pub open spec fn note_targets_spec(source: PatternSource, slot: Option<u32>, use_mpe: bool) -> (Option<(u32, bool)>, bool) {
    match source {
        PatternSource::AudioFile { .. } => (None, false),
        PatternSource::Sf2 { .. } | PatternSource::Plugin { .. } => (
            match slot {
                Some(s) => Some((s, use_mpe)),
                None => None,
            },
            false,
        ),
        PatternSource::Midi => (
            match slot {
                Some(s) => Some((s, false)),
                None => None,
            },
            true,
        ),
    }
}

/// Compute [`note_targets_spec`].
pub fn note_targets(source: &PatternSource, slot: Option<u32>, use_mpe: bool) -> (r: (Option<(u32, bool)>, bool))
    ensures
        r == note_targets_spec(*source, slot, use_mpe),
{
    match source {
        PatternSource::AudioFile { .. } => (None, false),
        PatternSource::Sf2 { .. } | PatternSource::Plugin { .. } => (
            match slot {
                Some(s) => Some((s, use_mpe)),
                None => None,
            },
            false,
        ),
        PatternSource::Midi => (
            match slot {
                Some(s) => Some((s, false)),
                None => None,
            },
            true,
        ),
    }
}

/// A note's expression, carried along when it is deferred.
#[derive(Debug, Clone, Copy, PartialEq, Eq, Structural)]
pub struct Expression {
    pub pitch_bend: i16,
    pub pressure: u8,
    pub timbre: u8,
}

/// The immediate audio events of a note on `slot` that starts now: its
/// expression first when the clip plays MPE (bend always, timbre when not
/// 64, pressure when above zero), then the note-on.
pub open spec fn audio_now(slot: u32, ch: u8, note: u8, vel: u8, mpe: bool, e: Expression) -> Seq<Emit> {
    (if mpe {
        seq![Emit::AudioPitchBend { slot_id: slot, channel: ch, value: e.pitch_bend }] + (if e.timbre != 64 {
            seq![Emit::AudioControlChange { slot_id: slot, channel: ch, cc: 74, value: e.timbre }]
        } else {
            Seq::empty()
        }) + (if e.pressure > 0 {
            seq![Emit::AudioChannelPressure { slot_id: slot, channel: ch, value: e.pressure }]
        } else {
            Seq::empty()
        })
    } else {
        Seq::empty()
    }) + seq![Emit::AudioNoteOn { slot_id: slot, channel: ch, note, velocity: vel }]
}

impl Clock {
    /// Play one note of a hit on audio-engine slot `slot`, `offset` ticks
    /// into the current step, for `gate` ticks. A note on the step's first
    /// tick starts now (with its MPE expression when `mpe`); a later one is
    /// queued for its tick. Either way its note-off is queued.
    pub fn fire_audio_note(&mut self, slot: u32, ch: u8, note: u8, vel: u8, offset: u64, gate: u64, mpe: bool, e: Expression) -> (r: Vec<Emit>)
        requires
            old(self).transport.elapsed_ticks + offset + gate <= u64::MAX,
        ensures
            ({
                let on_tick = old(self).transport.elapsed_ticks + offset;
                &&& offset == 0 ==> r@ == audio_now(slot, ch, note, vel, mpe, e) && final(self).pending_note_ons@ == old(self).pending_note_ons@
                &&& offset != 0 ==> r@.len() == 0 && final(self).pending_note_ons@.len() == old(self).pending_note_ons@.len() + 1
                    && final(self).pending_note_ons@.drop_last() == old(self).pending_note_ons@ && ({
                        let q = final(self).pending_note_ons@.last();
                        q.dest_name@ == audio_dest(slot) && q.ch == ch && q.note == note && q.vel == vel && q.at_tick == on_tick
                            && q.gate_ticks == gate && q.clip_key.is_none() && q.pitch_bend == e.pitch_bend && q.pressure == e.pressure
                            && q.timbre == e.timbre && !q.use_mpe
                    })
                &&& final(self).pending_note_offs@.len() == old(self).pending_note_offs@.len() + 1
                &&& final(self).pending_note_offs@.drop_last() == old(self).pending_note_offs@
                &&& ({
                    let q = final(self).pending_note_offs@.last();
                    q.dest_name@ == audio_dest(slot) && q.ch == ch && q.note == note && q.at_tick == on_tick + gate && q.clip_key.is_none()
                })
            }),
            final(self).transport == old(self).transport,
            final(self).absolute_step == old(self).absolute_step,
    {
        let on_tick = self.transport.elapsed_ticks + offset;
        let mut r: Vec<Emit> = Vec::new();
        if offset == 0 {
            let ghost mut sp: Seq<Emit> = Seq::empty();
            if mpe {
                r.push(Emit::AudioPitchBend { slot_id: slot, channel: ch, value: e.pitch_bend });
                if e.timbre != 64 {
                    r.push(Emit::AudioControlChange { slot_id: slot, channel: ch, cc: 74, value: e.timbre });
                }
                if e.pressure > 0 {
                    r.push(Emit::AudioChannelPressure { slot_id: slot, channel: ch, value: e.pressure });
                }
            }
            r.push(Emit::AudioNoteOn { slot_id: slot, channel: ch, note, velocity: vel });
            proof {
                assert(r@ =~= audio_now(slot, ch, note, vel, mpe, e));
            }
        } else {
            self.pending_note_ons.push(
                PendingNoteOn {
                    dest_name: audio_dest_name(slot),
                    ch,
                    note,
                    vel,
                    at_tick: on_tick,
                    gate_ticks: gate,
                    clip_key: None,
                    pitch_bend: e.pitch_bend,
                    pressure: e.pressure,
                    timbre: e.timbre,
                    use_mpe: false,
                },
            );
        }
        self.pending_note_offs.push(
            PendingNoteOff { dest_name: audio_dest_name(slot), ch, note, at_tick: on_tick + gate, clip_key: None },
        );
        r
    }

    /// Play one note of a hit on the clip's MIDI port `dest` (on channel
    /// `note_ch`, which an MPE clip allocates per note). The user is shown
    /// the note. When the port is connected: a note on the step's first tick
    /// sends its start messages now, a later one is queued for its tick, and
    /// its note-off is queued; an MPE note carries its clip key so the
    /// note-off frees its channel.
    pub fn fire_midi_note(
        &mut self,
        dest: &str,
        connected: bool,
        note_ch: u8,
        note: u8,
        vel: u8,
        offset: u64,
        gate: u64,
        use_mpe: bool,
        clip_key: &str,
        e: Expression,
    ) -> (r: Vec<Emit>)
        requires
            old(self).transport.elapsed_ticks + offset + gate <= u64::MAX,
            e.pitch_bend <= i16::MAX - 8192,
        ensures
            r@.len() >= 2,
            r@[0] == (Emit::UiNoteOn { note, vel, ch: note_ch }),
            r@[1] == (Emit::UiNoteOff { note, ch: note_ch }),
            ({
                let on_tick = old(self).transport.elapsed_ticks + offset;
                let key = if use_mpe {
                    Some(clip_key@)
                } else {
                    None
                };
                &&& !connected ==> r@.len() == 2 && final(self).pending_note_ons@ == old(self).pending_note_ons@
                    && final(self).pending_note_offs@ == old(self).pending_note_offs@
                &&& connected && offset == 0 ==> final(self).pending_note_ons@ == old(self).pending_note_ons@ && r@.len() == 2
                    + note_on_msgs(note_ch, note, vel, e.pitch_bend, e.pressure, e.timbre, use_mpe).len() && forall|k: int|
                    2 <= k < r@.len() ==> (#[trigger] r@[k] matches Emit::Send(m) && m@ == note_on_msgs(
                        note_ch,
                        note,
                        vel,
                        e.pitch_bend,
                        e.pressure,
                        e.timbre,
                        use_mpe,
                    )[k - 2])
                &&& connected && offset != 0 ==> r@.len() == 2 && final(self).pending_note_ons@.len() == old(self).pending_note_ons@.len() + 1
                    && final(self).pending_note_ons@.drop_last() == old(self).pending_note_ons@ && ({
                        let q = final(self).pending_note_ons@.last();
                        q.dest_name@ == dest@ && q.ch == note_ch && q.note == note && q.vel == vel && q.at_tick == on_tick
                            && q.gate_ticks == gate && q.pitch_bend == e.pitch_bend && q.pressure == e.pressure && q.timbre
                            == e.timbre && q.use_mpe == use_mpe && key_view(q.clip_key) == key
                    })
                &&& connected ==> final(self).pending_note_offs@.len() == old(self).pending_note_offs@.len() + 1
                    && final(self).pending_note_offs@.drop_last() == old(self).pending_note_offs@ && ({
                        let q = final(self).pending_note_offs@.last();
                        q.dest_name@ == dest@ && q.ch == note_ch && q.note == note && q.at_tick == on_tick + gate
                            && key_view(q.clip_key) == key
                    })
            }),
            final(self).transport == old(self).transport,
            final(self).absolute_step == old(self).absolute_step,
    {
        let mut r: Vec<Emit> = Vec::new();
        r.push(Emit::UiNoteOn { note, vel, ch: note_ch });
        r.push(Emit::UiNoteOff { note, ch: note_ch });
        if connected {
            let on_tick = self.transport.elapsed_ticks + offset;
            if offset == 0 {
                let msgs = note_on_messages(note_ch, note, vel, e.pitch_bend, e.pressure, e.timbre, use_mpe);
                let ghost mv = msgs_view(msgs@);
                let mut msgs = msgs;
                let mut k: usize = 0;
                let n = msgs.len();
                while k < n
                    invariant
                        k <= n,
                        n == mv.len(),
                        msgs@.len() == n - k,
                        forall|j: int| 0 <= j < msgs@.len() ==> (#[trigger] msgs@[j])@ == mv[k + j],
                        r@.len() == 2 + k,
                        r@[0] == (Emit::UiNoteOn { note, vel, ch: note_ch }),
                        r@[1] == (Emit::UiNoteOff { note, ch: note_ch }),
                        forall|j: int| 2 <= j < r@.len() ==> (#[trigger] r@[j] matches Emit::Send(m) && m@ == mv[j - 2]),
                    decreases n - k,
                {
                    let m = msgs.remove(0);
                    r.push(Emit::Send(m));
                    k = k + 1;
                }
            } else {
                let key = if use_mpe {
                    Some(String::from_str(clip_key))
                } else {
                    None
                };
                self.pending_note_ons.push(
                    PendingNoteOn {
                        dest_name: String::from_str(dest),
                        ch: note_ch,
                        note,
                        vel,
                        at_tick: on_tick,
                        gate_ticks: gate,
                        clip_key: key,
                        pitch_bend: e.pitch_bend,
                        pressure: e.pressure,
                        timbre: e.timbre,
                        use_mpe,
                    },
                );
            }
            let key = if use_mpe {
                Some(String::from_str(clip_key))
            } else {
                None
            };
            self.pending_note_offs.push(
                PendingNoteOff { dest_name: String::from_str(dest), ch: note_ch, note, at_tick: on_tick + gate, clip_key: key },
            );
        }
        r
    }
}

/// After a bent note on a plain (non-MPE) MIDI clip, the pitch bend is reset
/// to centre on the clip's channel.
pub fn bend_reset_message(use_mpe: bool, pitch_bend: i16, ch: u8) -> (r: Option<Vec<u8>>)
    ensures
        (!use_mpe && pitch_bend != 0) ==> (r matches Some(m) && m@ == seq![0xE0u8 | ch, 0x00u8, 0x40u8]),
        !(!use_mpe && pitch_bend != 0) ==> r.is_none(),
{
    if !use_mpe && pitch_bend != 0 {
        Some(msg3(0xE0u8 | ch, 0x00, 0x40))
    } else {
        None
    }
}

} // verus!
