//! Importing a Standard MIDI File as a session: the file's tracks are read
//! and checked, each track with notes becomes a matrix row of pattern clips
//! cut at a fixed number of bars (identical slices share one pattern) and an
//! arranger track of those clips.

use crate::matrix::Clip;
use crate::midi_import::{
    in_slice, max_step, with_step,
    build_tempo_map, build_time_sig_map, by_step, delta_sum, extract_notes, parse_smf, scan, seqs_of,
    signature_points, signatures_fit, smf_parsed, tempo_points, track_spans, NoteSpan, SmfEvent, SmfEventKind,
};
use crate::note::{midi_name, Note};
use crate::pattern::{is_blank, Pattern};
use crate::project::Track;
use crate::smf::{sanitized, sanitize_name, time_sig_at, time_sig_at_tick, MidiImportOptions};
use crate::text::pad2;
use vstd::prelude::*;
use vstd::string::*;

verus! {

/// Why a file could not be imported.
#[derive(Debug, Clone, Copy, PartialEq, Eq, Structural)]
pub enum ImportError {
    /// The bytes are not a valid Standard MIDI File.
    Invalid,
    /// The file times its events in SMPTE timecode, not ticks per beat.
    Timecode,
    /// A track runs past the last tick a 32-bit count can hold.
    TrackTooLong,
    /// The first track has a time signature whose denominator does not fit.
    TimeSignature,
}

/// A track of the file with notes: its position in the file, name, notes on
/// the step grid (by start step) and channel.
#[derive(Debug)]
pub struct SpanTrack {
    pub index: usize,
    pub name: String,
    pub spans: Vec<NoteSpan>,
    pub channel: u8,
}

/// What an import reads from a file before it builds the session.
#[derive(Debug)]
pub struct ImportSpans {
    /// Ticks per beat of the file.
    pub ticks_per_beat: u16,
    pub ticks_per_step: u32,
    pub steps_per_pattern: usize,
    /// `(tick, microseconds per beat)` of each tempo, first track only.
    pub tempo_map: Vec<(u32, u32)>,
    /// `(tick, numerator, denominator)` of each time signature.
    pub time_sigs: Vec<(u32, u8, u8)>,
    /// The tracks with notes, in file order, at most sixteen.
    pub tracks: Vec<SpanTrack>,
}

/// The import options keep the pattern size within 32 bits.
pub open spec fn options_ok(opts: MidiImportOptions) -> bool {
    &&& opts.steps_per_beat >= 1
    &&& opts.steps_per_beat * 255 <= u32::MAX
    &&& opts.bars_per_pattern * opts.steps_per_beat * 255 <= u32::MAX
}

/// The positions among `ts[..n]` of the tracks that yield notes.
pub open spec fn noted(ts: Seq<Seq<SmfEvent>>, n: int, tps: u32, drums: bool) -> Seq<int>
    decreases n,
{
    if n <= 0 {
        Seq::empty()
    } else if track_spans(ts[n - 1], tps, drums).len() > 0 {
        noted(ts, n - 1, tps, drums).push(n - 1)
    } else {
        noted(ts, n - 1, tps, drums)
    }
}

/// The time-signature map of the first track (4/4 when it has none).
pub open spec fn sig_map(ts: Seq<Seq<SmfEvent>>) -> Seq<(u32, u8, u8)> {
    let found = if ts.len() == 0 {
        Seq::empty()
    } else {
        signature_points(ts[0], ts[0].len() as int)
    };
    if found.len() == 0 {
        seq![(0u32, 4u8, 4u8)]
    } else {
        found
    }
}

/// The tempo map of the first track (120 BPM at tick 0 first).
pub open spec fn tempo_map_of(ts: Seq<Seq<SmfEvent>>) -> Seq<(u32, u32)> {
    if ts.len() == 0 {
        seq![(0u32, 500_000u32)]
    } else {
        tempo_points(ts[0], ts[0].len() as int)
    }
}

/// What [`read_import`] gives for a file that parses as `(tpq, ts)`.
pub open spec fn import_error(tpq: Option<u16>, ts: Seq<Seq<SmfEvent>>) -> Option<ImportError> {
    if tpq is None {
        Some(ImportError::Timecode)
    } else if exists|i: int| 0 <= i < ts.len() && delta_sum(#[trigger] ts[i], ts[i].len() as int) > u32::MAX {
        Some(ImportError::TrackTooLong)
    } else if ts.len() > 0 && !signatures_fit(ts[0]) {
        Some(ImportError::TimeSignature)
    } else {
        None
    }
}

/// `r` is what an import reads from tracks `ts` timed at `tpq` ticks per
/// beat, with `opts`.
pub open spec fn spans_read(r: ImportSpans, tpq: u16, ts: Seq<Seq<SmfEvent>>, opts: MidiImportOptions) -> bool {
    let tps = ((tpq as u32) / opts.steps_per_beat) as u32;
    let num = sig_map(ts)[0].1;
    let nt = noted(ts, ts.len() as int, tps, opts.detect_drums);
    let k = if nt.len() < 16 {
        nt.len() as int
    } else {
        16
    };
    &&& r.ticks_per_beat == tpq
    &&& r.ticks_per_step == tps
    &&& r.steps_per_pattern == opts.bars_per_pattern * (opts.steps_per_beat * num)
    &&& r.tempo_map@ == tempo_map_of(ts)
    &&& r.time_sigs@ == sig_map(ts)
    &&& r.tracks@.len() == k
    &&& forall|j: int|
        0 <= j < k ==> {
            let i = nt[j];
            let st = scan(ts[i], ts[i].len() as int, tps, opts.detect_drums);
            &&& (#[trigger] r.tracks@[j]).index == i
            &&& r.tracks@[j].name@ == st.name
            &&& r.tracks@[j].channel == st.ch_hint
            &&& r.tracks@[j].spans@.to_multiset() == track_spans(ts[i], tps, opts.detect_drums).to_multiset()
            &&& forall|st: usize| #[trigger] with_step(r.tracks@[j].spans@, st) == with_step(track_spans(ts[i], tps, opts.detect_drums), st)
            &&& by_step(r.tracks@[j].spans@)
        }
}

/// Read a MIDI file's bytes for import: refused when they do not parse,
/// when the file uses SMPTE timing, when a track runs past the last 32-bit
/// tick or when the first track's time signature does not fit; otherwise
/// the step size (ticks per beat over steps per beat), the pattern size
/// (bars times steps per bar at the file's first time signature), the
/// tempo and time-signature maps and the notes of the first sixteen tracks
/// that have any.
pub fn read_import(bytes: &[u8], opts: &MidiImportOptions) -> (r: Result<ImportSpans, ImportError>)
    requires
        options_ok(*opts),
    ensures
        match smf_parsed(bytes@) {
            None => r == Err::<ImportSpans, ImportError>(ImportError::Invalid),
            Some(x) => match import_error(x.0, x.1) {
                Some(e) => r == Err::<ImportSpans, ImportError>(e),
                None => r matches Ok(s) && spans_read(s, x.0.unwrap(), x.1, *opts),
            },
        },
{
    let parsed = match parse_smf(bytes) {
        None => {
            return Err(ImportError::Invalid);
        },
        Some(p) => p,
    };
    let ghost ts = seqs_of(parsed.1@);
    let tracks = parsed.1;
    proof {
        assert(smf_parsed(bytes@).unwrap().1 == ts);
        assert(ts.len() == tracks@.len());
        assert forall|i: int| 0 <= i < tracks@.len() implies #[trigger] ts[i] == tracks@[i]@ by {}
    }
    let tpq = match parsed.0 {
        None => {
            return Err(ImportError::Timecode);
        },
        Some(t) => t,
    };
    proof {
        assert(smf_parsed(bytes@).unwrap().0 == Some(tpq));
    }
    let mut i: usize = 0;
    while i < tracks.len()
        invariant
            i <= tracks@.len(),
            smf_parsed(bytes@) is Some,
            smf_parsed(bytes@).unwrap().1 == ts,
            smf_parsed(bytes@).unwrap().0 == Some(tpq),
            ts.len() == tracks@.len(),
            forall|k: int| 0 <= k < tracks@.len() ==> #[trigger] ts[k] == tracks@[k]@,
            forall|k: int| 0 <= k < i ==> delta_sum(#[trigger] ts[k], ts[k].len() as int) <= u32::MAX,
        decreases tracks@.len() - i,
    {
        if !track_fits(tracks[i].as_slice()) {
            proof {
                assert(delta_sum(ts[i as int], ts[i as int].len() as int) > u32::MAX);
            }
            return Err(ImportError::TrackTooLong);
        }
        i = i + 1;
    }
    if tracks.len() > 0 && !signatures_ok(tracks[0].as_slice()) {
        return Err(ImportError::TimeSignature);
    }
    let tempo_map = build_tempo_map(tracks.as_slice());
    let time_sigs = build_time_sig_map(tracks.as_slice());
    proof {
        assert(tempo_map@ == tempo_map_of(ts));
        assert(time_sigs@ == sig_map(ts));
    }
    let num = time_sigs[0].1;
    let tps: u32 = (tpq as u32) / opts.steps_per_beat;
    proof {
        assert(opts.steps_per_beat * num <= opts.steps_per_beat * 255) by (nonlinear_arith)
            requires
                num <= 255,
        ;
        assert(opts.bars_per_pattern * (opts.steps_per_beat * num) <= opts.bars_per_pattern * opts.steps_per_beat * 255)
            by (nonlinear_arith)
            requires
                opts.steps_per_beat * num <= opts.steps_per_beat * 255,
        ;
    }
    let spp: usize = opts.bars_per_pattern * ((opts.steps_per_beat * (num as u32)) as usize);
    let mut out: Vec<SpanTrack> = Vec::new();
    let mut t: usize = 0;
    while t < tracks.len() && out.len() < 16
        invariant
            t <= tracks@.len(),
            ts.len() == tracks@.len(),
            forall|k: int| 0 <= k < tracks@.len() ==> #[trigger] ts[k] == tracks@[k]@,
            forall|k: int| 0 <= k < tracks@.len() ==> delta_sum(#[trigger] ts[k], ts[k].len() as int) <= u32::MAX,
            out@.len() <= 16,
            out@.len() == noted(ts, t as int, tps, opts.detect_drums).len(),
            forall|j: int|
                0 <= j < out@.len() ==> {
                    let i = noted(ts, t as int, tps, opts.detect_drums)[j];
                    let st = scan(ts[i], ts[i].len() as int, tps, opts.detect_drums);
                    &&& (#[trigger] out@[j]).index == i
                    &&& out@[j].name@ == st.name
                    &&& out@[j].channel == st.ch_hint
                    &&& out@[j].spans@.to_multiset() == track_spans(ts[i], tps, opts.detect_drums).to_multiset()
                    &&& forall|st: usize| #[trigger] with_step(out@[j].spans@, st) == with_step(track_spans(ts[i], tps, opts.detect_drums), st)
                    &&& by_step(out@[j].spans@)
                },
        decreases tracks@.len() - t,
    {
        let ghost before = noted(ts, t as int, tps, opts.detect_drums);
        proof {
            assert(ts[t as int] == tracks@[t as int]@);
        }
        let (name, spans, ch) = extract_notes(tracks[t].as_slice(), tps, opts.detect_drums);
        proof {
            assert(ts[t as int] == tracks@[t as int]@);
            assert(spans@.len() == track_spans(ts[t as int], tps, opts.detect_drums).len()) by {
                spans@.to_multiset_ensures();
                track_spans(ts[t as int], tps, opts.detect_drums).to_multiset_ensures();
            }
        }
        if spans.len() > 0 {
            out.push(SpanTrack { index: t, name, spans, channel: ch });
            proof {
                let now = noted(ts, t as int + 1, tps, opts.detect_drums);
                assert(now == before.push(t as int));
                assert forall|j: int| 0 <= j < out@.len() implies {
                    let i = now[j];
                    let st = scan(ts[i], ts[i].len() as int, tps, opts.detect_drums);
                    &&& (#[trigger] out@[j]).index == i
                    &&& out@[j].name@ == st.name
                    &&& out@[j].channel == st.ch_hint
                    &&& out@[j].spans@.to_multiset() == track_spans(ts[i], tps, opts.detect_drums).to_multiset()
                    &&& forall|st: usize| #[trigger] with_step(out@[j].spans@, st) == with_step(track_spans(ts[i], tps, opts.detect_drums), st)
                    &&& by_step(out@[j].spans@)
                } by {
                    if j < before.len() {
                        assert(now[j] == before[j]);
                    }
                }
            }
        } else {
            proof {
                assert(noted(ts, t as int + 1, tps, opts.detect_drums) == before);
            }
        }
        t = t + 1;
    }
    proof {
        lemma_noted_prefix(ts, t as int, tps, opts.detect_drums);
        let nt = noted(ts, ts.len() as int, tps, opts.detect_drums);
        if t < tracks@.len() {
            assert(out@.len() == 16);
            lemma_noted_extends(ts, t as int, ts.len() as int, tps, opts.detect_drums);
        } else {
            assert(t == tracks@.len());
        }
    }
    Ok(ImportSpans { ticks_per_beat: tpq, ticks_per_step: tps, steps_per_pattern: spp, tempo_map, time_sigs, tracks: out })
}

proof fn lemma_noted_prefix(ts: Seq<Seq<SmfEvent>>, n: int, tps: u32, drums: bool)
    ensures
        noted(ts, n, tps, drums).len() <= if n < 0 {
            0
        } else {
            n
        },
    decreases n,
{
    if n > 0 {
        lemma_noted_prefix(ts, n - 1, tps, drums);
    }
}

/// The tracks with notes among `ts[..m]` begin with those among `ts[..n]`.
proof fn lemma_noted_extends(ts: Seq<Seq<SmfEvent>>, n: int, m: int, tps: u32, drums: bool)
    requires
        0 <= n <= m,
    ensures
        noted(ts, m, tps, drums).len() >= noted(ts, n, tps, drums).len(),
        forall|j: int|
            0 <= j < noted(ts, n, tps, drums).len() ==> #[trigger] noted(ts, m, tps, drums)[j] == noted(ts, n, tps, drums)[j],
    decreases m - n,
{
    if m > n {
        lemma_noted_extends(ts, n, m - 1, tps, drums);
    }
}

/// The track's ticks all fit 32 bits.
fn track_fits(track: &[SmfEvent]) -> (r: bool)
    ensures
        r == (delta_sum(track@, track@.len() as int) <= u32::MAX),
{
    let mut total: u64 = 0;
    let mut i: usize = 0;
    while i < track.len()
        invariant
            i <= track@.len(),
            total == delta_sum(track@, i as int),
            total <= u32::MAX,
        decreases track@.len() - i,
    {
        let next = total + track[i].delta as u64;
        if next > u32::MAX as u64 {
            proof {
                crate::midi_import::lemma_delta_sum_mono(track@, i as int + 1, track@.len() as int);
            }
            return false;
        }
        total = next;
        i = i + 1;
    }
    true
}

/// Every time signature of the track has a denominator exponent below 8.
fn signatures_ok(track: &[SmfEvent]) -> (r: bool)
    ensures
        r == signatures_fit(track@),
{
    let mut i: usize = 0;
    while i < track.len()
        invariant
            i <= track@.len(),
            forall|k: int|
                0 <= k < i ==> match #[trigger] track@[k].kind {
                    SmfEventKind::TimeSignature(_, exp) => exp < 8,
                    _ => true,
                },
        decreases track@.len() - i,
    {
        if let SmfEventKind::TimeSignature(_, exp) = &track[i].kind {
            if *exp >= 8 {
                return false;
            }
        }
        i = i + 1;
    }
    true
}

// ─── Building the session ────────────────────────────────────────────────────

/// What a step of an imported pattern holds: the note's pitch, velocity,
/// gate, micro-timing, CC 1, CC 74 and pitch bend.
#[derive(Debug, Clone, Copy, PartialEq, Eq, Structural)]
pub struct StepNote {
    pub pitch: u8,
    pub vel: u8,
    pub gate: u16,
    pub micro: i8,
    pub cc01: u8,
    pub cc74: u8,
    pub bend: i16,
}

/// What two imported slices are compared by: each step's pitch, velocity,
/// gate, micro-timing, CC 1 and CC 74 (the bend is not compared).
pub open spec fn step_key(n: Option<StepNote>) -> Option<(u8, u8, u16, i8, u8, u8)> {
    match n {
        Some(x) => Some((x.pitch, x.vel, x.gate, x.micro, x.cc01, x.cc74)),
        None => None,
    }
}

/// The note that the last of the spans `idxs[..m]` starting on `step` (with
/// a MIDI pitch) leaves there, if any.
pub open spec fn last_note(spans: Seq<NoteSpan>, mic: Seq<i8>, idxs: Seq<usize>, m: int, step: int) -> Option<StepNote>
    decreases m,
{
    if m <= 0 {
        None
    } else {
        let k = idxs[m - 1] as int;
        let s = spans[k];
        if s.step == step && s.pitch <= 127 {
            Some(StepNote { pitch: s.pitch, vel: s.vel, gate: s.gate, micro: mic[k], cc01: s.cc01, cc74: s.cc74, bend: s.bend })
        } else {
            last_note(spans, mic, idxs, m - 1, step)
        }
    }
}

/// Step `i` of a pattern of `len` steps built from spans `idxs` of a slice
/// starting at step `lo`.
pub open spec fn slice_content(spans: Seq<NoteSpan>, mic: Seq<i8>, idxs: Seq<usize>, lo: int, len: int) -> Seq<Option<StepNote>> {
    Seq::new(len as nat, |i: int| last_note(spans, mic, idxs, idxs.len() as int, lo + i))
}

/// Step `n` of an imported pattern holds `c`: the note named by the pitch
/// with its velocity, gate, micro, CCs and bend and every other field at its
/// default, or a blank step.
pub open spec fn holds_step(n: Note, c: Option<StepNote>) -> bool {
    match c {
        None => is_blank(n),
        Some(x) => {
            &&& n.note@ == midi_name(x.pitch as int)
            &&& n.velocity == x.vel
            &&& n.gate == x.gate
            &&& n.micro == x.micro
            &&& n.cc01 == x.cc01
            &&& n.cc74 == x.cc74
            &&& n.pitch_bend == x.bend
            &&& (Note { gate: 100, micro: 0, cc01: 64, cc74: 32, pitch_bend: 0, ..n }).is_default_payload()
        },
    }
}

/// The steps an imported pattern of `spp` steps has.
pub open spec fn pat_len(spp: int) -> int {
    if spp < 1 {
        1
    } else if spp > 8192 {
        8192
    } else {
        spp
    }
}

/// Build the pattern of one slice: `spp` steps (at most 8192) starting at
/// step `lo` of the track, each span of `idxs` (in order) placed on its
/// step with its micro-timing from `mic`; unnamed, with time signature `sig`.
/// Also returns the slice's comparison key.
fn slice_pattern(
    spans: &Vec<NoteSpan>,
    mic: &Vec<i8>,
    idxs: &Vec<usize>,
    lo: usize,
    spp: usize,
    sig: (u8, u8),
) -> (r: (Pattern, Vec<Option<(u8, u8, u16, i8, u8, u8)>>))
    requires
        spp >= 1,
        lo + pat_len(spp as int) <= usize::MAX,
        mic@.len() == spans@.len(),
        forall|q: int| 0 <= q < idxs@.len() ==> (#[trigger] idxs@[q]) < spans@.len() && spans@[idxs@[q] as int].step >= lo,
    ensures
        r.0.name@.len() == 0,
        r.0.length == pat_len(spp as int),
        r.0.steps@.len() == pat_len(spp as int),
        r.0.time_sig_num == sig.0 && r.0.time_sig_den == sig.1,
        forall|i: int|
            0 <= i < pat_len(spp as int) ==> holds_step(
                #[trigger] r.0.steps@[i],
                slice_content(spans@, mic@, idxs@, lo as int, pat_len(spp as int))[i],
            ),
        r.1@ == slice_content(spans@, mic@, idxs@, lo as int, pat_len(spp as int)).map_values(|c: Option<StepNote>| step_key(c)),
{
    let mut pat = Pattern::new(String::new(), spp);
    pat.time_sig_num = sig.0;
    pat.time_sig_den = sig.1;
    let len = pat.steps.len();
    let ghost sp = spans@;
    let ghost mc = mic@;
    let ghost ix = idxs@;
    let mut m: usize = 0;
    while m < idxs.len()
        invariant
            m <= ix.len(),
            sp == spans@,
            mc == mic@,
            ix == idxs@,
            mic@.len() == spans@.len(),
            forall|q: int| 0 <= q < ix.len() ==> (#[trigger] ix[q]) < sp.len() && sp[ix[q] as int].step >= lo,
            spp >= 1,
            len == pat_len(spp as int),
            pat.steps@.len() == len,
            pat.length == len,
            pat.name@.len() == 0,
            pat.time_sig_num == sig.0 && pat.time_sig_den == sig.1,
            forall|i: int| 0 <= i < len ==> holds_step(#[trigger] pat.steps@[i], last_note(sp, mc, ix, m as int, lo + i)),
        decreases ix.len() - m,
    {
        let k = idxs[m];
        let s = spans[k];
        proof {
            assert(ix[m as int] < sp.len() && sp[ix[m as int] as int].step >= lo);
        }
        let local = s.step - lo;
        let ghost before = pat.steps@;
        if local < spp {
            if let Ok(mut note) = Note::from_midi(s.pitch, s.vel) {
                let ghost n0 = note;
                note.gate = s.gate;
                note.micro = mic[k];
                note.cc01 = s.cc01;
                note.cc74 = s.cc74;
                note.pitch_bend = s.bend;
                proof {
                    assert((Note { gate: 100, micro: 0, cc01: 64, cc74: 32, pitch_bend: 0, ..note }) == n0);
                }
                pat.set_step(local, note);
            }
        }
        proof {
            assert forall|i: int| 0 <= i < len implies holds_step(#[trigger] pat.steps@[i], last_note(sp, mc, ix, m as int + 1, lo + i)) by {
                assert(last_note(sp, mc, ix, m as int + 1, lo + i) == if s.step == lo + i && s.pitch <= 127 {
                    Some(StepNote { pitch: s.pitch, vel: s.vel, gate: s.gate, micro: mc[k as int], cc01: s.cc01, cc74: s.cc74, bend: s.bend })
                } else {
                    last_note(sp, mc, ix, m as int, lo + i)
                });
                if s.step == lo + i {
                    assert(local == i);
                    assert(local < spp);
                } else {
                    assert(local != i);
                    assert(pat.steps@[i] == before[i]);
                }
            }
        }
        m = m + 1;
    }
    let mut key: Vec<Option<(u8, u8, u16, i8, u8, u8)>> = Vec::new();
    let mut i: usize = 0;
    while i < len
        invariant
            i <= len,
            len == pat_len(spp as int),
            sp == spans@,
            mc == mic@,
            ix == idxs@,
            mic@.len() == spans@.len(),
            forall|q: int| 0 <= q < ix.len() ==> (#[trigger] ix[q]) < sp.len(),
            lo + len <= usize::MAX,
            key@ == slice_content(sp, mc, ix, lo as int, len as int).map_values(|c: Option<StepNote>| step_key(c)).take(
                i as int,
            ),
        decreases len - i,
    {
        let c = last_note_at(spans, mic, idxs, lo + i);
        let kk = match c {
            Some(x) => Some((x.pitch, x.vel, x.gate, x.micro, x.cc01, x.cc74)),
            None => None,
        };
        key.push(kk);
        proof {
            let full = slice_content(sp, mc, ix, lo as int, len as int).map_values(|c: Option<StepNote>| step_key(c));
            assert(full.take(i as int + 1) =~= full.take(i as int).push(kk));
        }
        i = i + 1;
    }
    proof {
        let full = slice_content(sp, mc, ix, lo as int, len as int).map_values(|c: Option<StepNote>| step_key(c));
        assert(full.take(len as int) =~= full);
    }
    (pat, key)
}

/// Compute [`last_note`] over all of `idxs`.
fn last_note_at(spans: &Vec<NoteSpan>, mic: &Vec<i8>, idxs: &Vec<usize>, step: usize) -> (r: Option<StepNote>)
    requires
        mic@.len() == spans@.len(),
        forall|q: int| 0 <= q < idxs@.len() ==> (#[trigger] idxs@[q]) < spans@.len(),
    ensures
        r == last_note(spans@, mic@, idxs@, idxs@.len() as int, step as int),
{
    let mut m = idxs.len();
    while m > 0
        invariant
            m <= idxs@.len(),
            mic@.len() == spans@.len(),
            forall|q: int| 0 <= q < idxs@.len() ==> (#[trigger] idxs@[q]) < spans@.len(),
            last_note(spans@, mic@, idxs@, idxs@.len() as int, step as int) == last_note(spans@, mic@, idxs@, m as int, step as int),
        decreases m,
    {
        let k = idxs[m - 1];
        let s = spans[k];
        if s.step == step && s.pitch <= 127 {
            return Some(StepNote { pitch: s.pitch, vel: s.vel, gate: s.gate, micro: mic[k], cc01: s.cc01, cc74: s.cc74, bend: s.bend });
        }
        m = m - 1;
    }
    None
}


// ─── Rows of clips ───────────────────────────────────────────────────────────

/// The start steps of a track's notes.
pub open spec fn starts_of(spans: Seq<NoteSpan>) -> Seq<usize> {
    spans.map_values(|s: NoteSpan| s.step)
}

/// How many slices of `spp` steps a track's notes take: up to the last
/// start step.
pub open spec fn slice_count(spans: Seq<NoteSpan>, spp: int) -> int {
    max_step(starts_of(spans), spans.len() as int) / spp + 1
}

/// The positions of the notes that start in slice `p`, in order.
pub open spec fn slice_of(spans: Seq<NoteSpan>, spp: int, p: int) -> Seq<usize> {
    in_slice(starts_of(spans), spans.len() as int, p * spp, (p + 1) * spp)
}

/// What slice `p` is compared by.
pub open spec fn slice_key(spans: Seq<NoteSpan>, mic: Seq<i8>, spp: int, p: int) -> Seq<Option<(u8, u8, u16, i8, u8, u8)>> {
    slice_content(spans, mic, slice_of(spans, spp, p), p * spp, pat_len(spp)).map_values(
        |c: Option<StepNote>| step_key(c),
    )
}

/// The first entry among `t[i..]` with key `k`, if any.
pub open spec fn first_key(t: Seq<(Seq<Option<(u8, u8, u16, i8, u8, u8)>>, Seq<char>)>, k: Seq<Option<(u8, u8, u16, i8, u8, u8)>>, i: int) -> Option<int>
    decreases t.len() - i,
{
    if i < 0 || i >= t.len() {
        None
    } else if t[i].0 == k {
        Some(i)
    } else {
        first_key(t, k, i + 1)
    }
}

/// The name slice `p` of `n` asks for: the track's name, numbered from 01
/// when the track has several slices.
pub open spec fn slice_candidate(base: Seq<char>, n: int, p: int) -> Seq<char> {
    if n == 1 {
        base
    } else {
        base + pad2((p + 1) as nat)
    }
}

/// The table of named slices after slices `..p` of a track: each slice with
/// notes whose key is not yet in the table adds its key and its name.
pub open spec fn table_after(
    t: Seq<(Seq<Option<(u8, u8, u16, i8, u8, u8)>>, Seq<char>)>,
    spans: Seq<NoteSpan>,
    mic: Seq<i8>,
    spp: int,
    base: Seq<char>,
    p: int,
) -> Seq<(Seq<Option<(u8, u8, u16, i8, u8, u8)>>, Seq<char>)>
    decreases p,
{
    if p <= 0 {
        t
    } else {
        let t1 = table_after(t, spans, mic, spp, base, p - 1);
        let k = slice_key(spans, mic, spp, p - 1);
        if slice_of(spans, spp, p - 1).len() == 0 || first_key(t1, k, 0) is Some {
            t1
        } else {
            t1.push((k, slice_candidate(base, slice_count(spans, spp), p - 1)))
        }
    }
}

/// Slice `p` has notes and its key is new: it makes a pattern.
pub open spec fn slice_fresh(
    t: Seq<(Seq<Option<(u8, u8, u16, i8, u8, u8)>>, Seq<char>)>,
    spans: Seq<NoteSpan>,
    mic: Seq<i8>,
    spp: int,
    base: Seq<char>,
    p: int,
) -> bool {
    &&& slice_of(spans, spp, p).len() > 0
    &&& first_key(table_after(t, spans, mic, spp, base, p), slice_key(spans, mic, spp, p), 0) is None
}

/// The pattern name the clip of slice `p` plays: that of the first slice
/// (of this track or before) with the same key.
pub open spec fn slice_name(
    t: Seq<(Seq<Option<(u8, u8, u16, i8, u8, u8)>>, Seq<char>)>,
    spans: Seq<NoteSpan>,
    mic: Seq<i8>,
    spp: int,
    base: Seq<char>,
    p: int,
) -> Seq<char> {
    let t1 = table_after(t, spans, mic, spp, base, p + 1);
    t1[first_key(t1, slice_key(spans, mic, spp, p), 0).unwrap()].1
}

/// The arranger blocks of slices `..p`: one per slice with notes, at bar
/// `p * bars`, `bars` long, playing the slice's pattern.
pub open spec fn row_blocks(
    t: Seq<(Seq<Option<(u8, u8, u16, i8, u8, u8)>>, Seq<char>)>,
    spans: Seq<NoteSpan>,
    mic: Seq<i8>,
    spp: int,
    base: Seq<char>,
    bars: u32,
    p: int,
) -> Seq<(u32, u32, Seq<char>)>
    decreases p,
{
    if p <= 0 {
        Seq::empty()
    } else {
        let b = row_blocks(t, spans, mic, spp, base, bars, p - 1);
        if slice_of(spans, spp, p - 1).len() > 0 {
            b.push((((p - 1) * bars) as u32, bars, slice_name(t, spans, mic, spp, base, p - 1)))
        } else {
            b
        }
    }
}

/// The views of a table of named slices.
pub open spec fn table_view(t: Seq<(Vec<Option<(u8, u8, u16, i8, u8, u8)>>, String)>) -> Seq<(Seq<Option<(u8, u8, u16, i8, u8, u8)>>, Seq<char>)> {
    t.map_values(|e: (Vec<Option<(u8, u8, u16, i8, u8, u8)>>, String)| (e.0@, e.1@))
}

/// The views of arranger blocks.
pub open spec fn blocks_view(b: Seq<(u32, u32, String)>) -> Seq<(u32, u32, Seq<char>)> {
    b.map_values(|e: (u32, u32, String)| (e.0, e.1, e.2@))
}

/// The name an imported track goes by: its own, cleaned, or `TRKnn` after
/// its position in the file when it has none.
pub open spec fn row_base(name: Seq<char>, index: int) -> Seq<char> {
    if name.len() == 0 {
        "TRK"@ + pad2((index + 1) as nat)
    } else {
        sanitized(name)
    }
}

/// `c` is the clip an import places at (`row`, `col`): named after and
/// playing pattern `name`, on the track's channel plus one (within 1-16),
/// otherwise as [`Clip::new`] makes it.
pub open spec fn placed_clip(c: Clip, name: Seq<char>, row: usize, col: usize, channel: u8) -> bool {
    &&& c.name@ == name
    &&& c.pattern_key matches Some(k) && k@ == name
    &&& !c.playing && c.current_step == 0
    &&& c.row == row && c.col == col
    &&& c.enabled && c.midi_out is None
    &&& c.midi_channel == (if channel + 1 > 16 { 16 } else { channel + 1 })
    &&& c.source is Midi && c.mpe_zone is None
    &&& !c.frozen && c.freeze_source is None
}

/// `pat` is the pattern of slice `p`, named `name`, with time signature `sig`.
pub open spec fn slice_pattern_is(pat: Pattern, spans: Seq<NoteSpan>, mic: Seq<i8>, spp: int, p: int, sig: (u8, u8), name: Seq<char>) -> bool {
    &&& pat.name@ == name
    &&& pat.length == pat_len(spp)
    &&& pat.steps@.len() == pat_len(spp)
    &&& pat.time_sig_num == sig.0 && pat.time_sig_den == sig.1
    &&& forall|i: int|
        0 <= i < pat_len(spp) ==> holds_step(
            #[trigger] pat.steps@[i],
            slice_content(spans, mic, slice_of(spans, spp, p), p * spp, pat_len(spp))[i],
        )
}

/// The time signature at the first tick of slice `p`.
pub open spec fn slice_sig(sigs: Seq<(u32, u8, u8)>, spp: int, tps: u32, p: int) -> (u8, u8) {
    time_sig_at(sigs, (p * spp * tps) as u32, sigs.len() as int)
}

proof fn lemma_first_key_push(t: Seq<(Seq<Option<(u8, u8, u16, i8, u8, u8)>>, Seq<char>)>, k: Seq<Option<(u8, u8, u16, i8, u8, u8)>>, c: Seq<char>, i: int)
    requires
        0 <= i <= t.len(),
        first_key(t, k, i) is None,
    ensures
        first_key(t.push((k, c)), k, i) == Some(t.len() as int),
    decreases t.len() - i,
{
    if i < t.len() {
        assert(t.push((k, c))[i] == t[i]);
        lemma_first_key_push(t, k, c, i + 1);
    }
}

proof fn lemma_first_key_bound(t: Seq<(Seq<Option<(u8, u8, u16, i8, u8, u8)>>, Seq<char>)>, k: Seq<Option<(u8, u8, u16, i8, u8, u8)>>, i: int)
    ensures
        first_key(t, k, i) matches Some(j) ==> i <= j < t.len() && t[j].0 == k,
    decreases t.len() - i,
{
    if 0 <= i < t.len() && t[i].0 != k {
        lemma_first_key_bound(t, k, i + 1);
    }
}

/// Slices are compared by everything an imported step plays but its pitch
/// bend: two slices with equal keys have a note on the same steps, with the
/// same pitch, velocity, gate, micro-timing, CC 1 and CC 74. So slices that
/// differ in any of these (a velocity, say) never share a pattern.
pub proof fn lemma_equal_keys_same_notes(c1: Seq<Option<StepNote>>, c2: Seq<Option<StepNote>>)
    requires
        c1.map_values(|c: Option<StepNote>| step_key(c)) == c2.map_values(|c: Option<StepNote>| step_key(c)),
    ensures
        c1.len() == c2.len(),
        forall|i: int|
            0 <= i < c1.len() ==> {
                &&& ((#[trigger] c1[i]) is None <==> c2[i] is None)
                &&& c1[i] matches Some(a) ==> c2[i] matches Some(b) && a.pitch == b.pitch && a.vel == b.vel && a.gate == b.gate
                    && a.micro == b.micro && a.cc01 == b.cc01 && a.cc74 == b.cc74
            },
{
    assert(c1.len() == c1.map_values(|c: Option<StepNote>| step_key(c)).len());
    assert forall|i: int| 0 <= i < c1.len() implies {
        &&& ((#[trigger] c1[i]) is None <==> c2[i] is None)
        &&& c1[i] matches Some(a) ==> c2[i] matches Some(b) && a.pitch == b.pitch && a.vel == b.vel && a.gate == b.gate
            && a.micro == b.micro && a.cc01 == b.cc01 && a.cc74 == b.cc74
    } by {
        assert(c1.map_values(|c: Option<StepNote>| step_key(c))[i] == step_key(c1[i]));
        assert(c2.map_values(|c: Option<StepNote>| step_key(c))[i] == step_key(c2[i]));
    }
}

/// The clip of a slice with notes plays the entry of the table whose key is
/// that slice's own key: the first earlier slice with the same key, or the
/// slice itself when its key is new.
pub proof fn lemma_slice_plays_its_key(
    t: Seq<(Seq<Option<(u8, u8, u16, i8, u8, u8)>>, Seq<char>)>,
    spans: Seq<NoteSpan>,
    mic: Seq<i8>,
    spp: int,
    base: Seq<char>,
    p: int,
)
    requires
        0 <= p,
        slice_of(spans, spp, p).len() > 0,
    ensures
        ({
            let t1 = table_after(t, spans, mic, spp, base, p + 1);
            let k = slice_key(spans, mic, spp, p);
            &&& first_key(t1, k, 0) is Some
            &&& t1[first_key(t1, k, 0).unwrap()].0 == k
            &&& slice_name(t, spans, mic, spp, base, p) == t1[first_key(t1, k, 0).unwrap()].1
        }),
{
    let t0 = table_after(t, spans, mic, spp, base, p);
    let k = slice_key(spans, mic, spp, p);
    if first_key(t0, k, 0) is None {
        lemma_first_key_push(t0, k, slice_candidate(base, slice_count(spans, spp), p), 0);
    }
    lemma_first_key_bound(table_after(t, spans, mic, spp, base, p + 1), k, 0);
}

/// Two slice keys are equal.
fn same_key(a: &Vec<Option<(u8, u8, u16, i8, u8, u8)>>, b: &Vec<Option<(u8, u8, u16, i8, u8, u8)>>) -> (r: bool)
    ensures
        r == (a@ == b@),
{
    if a.len() != b.len() {
        return false;
    }
    let mut i: usize = 0;
    while i < a.len()
        invariant
            i <= a@.len(),
            a@.len() == b@.len(),
            forall|j: int| 0 <= j < i ==> a@[j] == b@[j],
        decreases a@.len() - i,
    {
        let eq = match (a[i], b[i]) {
            (None, None) => true,
            (Some(x), Some(y)) => x.0 == y.0 && x.1 == y.1 && x.2 == y.2 && x.3 == y.3 && x.4 == y.4 && x.5 == y.5,
            _ => false,
        };
        if !eq {
            return false;
        }
        i = i + 1;
    }
    proof {
        assert(a@ =~= b@);
    }
    true
}

/// The first entry of `table` with key `key`, if any.
fn find_key(table: &Vec<(Vec<Option<(u8, u8, u16, i8, u8, u8)>>, String)>, key: &Vec<Option<(u8, u8, u16, i8, u8, u8)>>) -> (r: Option<usize>)
    ensures
        r matches Some(i) ==> first_key(table_view(table@), key@, 0) == Some(i as int),
        r is None ==> first_key(table_view(table@), key@, 0) is None,
{
    let ghost tv = table_view(table@);
    let mut i: usize = 0;
    while i < table.len()
        invariant
            i <= table@.len(),
            tv == table_view(table@),
            first_key(tv, key@, 0) == first_key(tv, key@, i as int),
        decreases table@.len() - i,
    {
        if same_key(&table[i].0, key) {
            return Some(i);
        }
        i = i + 1;
    }
    None
}


/// Build the matrix row and arranger track of one imported track at matrix
/// row `row`: its notes are cut into slices of `spp` steps, up to the last
/// note; each slice with notes gets a clip in its column playing the
/// pattern of its first equal slice in `table` (identical slices share one
/// pattern), and each slice whose key is new there adds its key and name to
/// `table` and its pattern to `patterns`. The arranger track, named after
/// the track, holds one block of `bars` bars per clip.
pub fn import_row(
    table: &mut Vec<(Vec<Option<(u8, u8, u16, i8, u8, u8)>>, String)>,
    patterns: &mut Vec<Pattern>,
    track: &SpanTrack,
    mic: &Vec<i8>,
    row: usize,
    spp: usize,
    tps: u32,
    time_sigs: &Vec<(u32, u8, u8)>,
    bars: u32,
) -> (r: (Vec<Option<Clip>>, Track))
    requires
        spp >= 1,
        mic@.len() == track.spans@.len(),
        track.channel < 255,
        track.index < usize::MAX,
        slice_count(track.spans@, spp as int) * spp <= usize::MAX,
        (slice_count(track.spans@, spp as int) - 1) * spp <= u32::MAX,
        (slice_count(track.spans@, spp as int) - 1) * spp * tps <= u32::MAX,
        slice_count(track.spans@, spp as int) * bars <= u32::MAX,
        old(patterns)@.len() == old(table)@.len(),
    ensures
        ({
            let t0 = table_view(old(table)@);
            let sp = track.spans@;
            let n = slice_count(sp, spp as int);
            let base = row_base(track.name@, track.index as int);
            &&& table_view(final(table)@) == table_after(t0, sp, mic@, spp as int, base, n)
            &&& final(patterns)@.len() == final(table)@.len()
            &&& final(patterns)@.subrange(0, old(patterns)@.len() as int) == old(patterns)@
            &&& forall|p: int|
                0 <= p < n && slice_fresh(t0, sp, mic@, spp as int, base, p) ==> slice_pattern_is(
                    #[trigger] final(patterns)@[table_after(t0, sp, mic@, spp as int, base, p).len() as int],
                    sp,
                    mic@,
                    spp as int,
                    p,
                    slice_sig(time_sigs@, spp as int, tps, p),
                    slice_candidate(base, n, p),
                )
            &&& r.0@.len() == n
            &&& forall|p: int|
                0 <= p < n ==> match #[trigger] r.0@[p] {
                    None => slice_of(sp, spp as int, p).len() == 0,
                    Some(c) => slice_of(sp, spp as int, p).len() > 0 && placed_clip(
                        c,
                        slice_name(t0, sp, mic@, spp as int, base, p),
                        row,
                        p as usize,
                        track.channel,
                    ),
                }
            &&& r.1.name@ == base
            &&& !r.1.mute
            &&& blocks_view(r.1.blocks@) == row_blocks(t0, sp, mic@, spp as int, base, bars, n)
        }),
{
    let ghost t0 = table_view(table@);
    let ghost old_pats = patterns@;
    let ghost sp = track.spans@;
    let ghost mc = mic@;
    let spans = &track.spans;
    let base = if track.name.unicode_len() == 0 {
        let mut s = String::from_str("TRK");
        proof {
            reveal_strlit("TRK");
        }
        crate::text::append_pad2(&mut s, (track.index + 1) as u64);
        s
    } else {
        sanitize_name(track.name.as_str())
    };
    let ghost bv = base@;
    let mut starts: Vec<usize> = Vec::new();
    let mut i: usize = 0;
    while i < spans.len()
        invariant
            i <= sp.len(),
            sp == spans@,
            starts@ == starts_of(sp).take(i as int),
        decreases sp.len() - i,
    {
        starts.push(spans[i].step);
        proof {
            assert(starts_of(sp).take(i as int + 1) =~= starts_of(sp).take(i as int).push(sp[i as int].step));
        }
        i = i + 1;
    }
    proof {
        assert(starts_of(sp).take(sp.len() as int) =~= starts_of(sp));
        assert(max_step(starts_of(sp), sp.len() as int) / (spp as int) < usize::MAX) by (nonlinear_arith)
            requires
                spp >= 1,
                (max_step(starts_of(sp), sp.len() as int) / (spp as int) + 1) * spp <= usize::MAX,
        ;
    }
    let slices = crate::midi_import::slice_notes(&starts, spp);
    let n = slices.len();
    let total = spans.len();
    let ghost nn = n as int;
    let mut slots: Vec<Option<Clip>> = Vec::new();
    let mut out = Track::new(base.clone());
    let mut p: usize = 0;
    while p < n
        invariant
            p <= n,
            nn == n,
            total == sp.len(),
            n == slice_count(sp, spp as int),
            spp >= 1,
            sp == spans@,
            mc == mic@,
            bv == base@,
            bv == row_base(track.name@, track.index as int),
            starts@ == starts_of(sp),
            slices@.len() == n,
            forall|q: int| 0 <= q < n ==> (#[trigger] slices@[q])@ == slice_of(sp, spp as int, q),
            mic@.len() == sp.len(),
            track.channel < 255,
            n * spp <= usize::MAX,
            (n - 1) * spp <= u32::MAX,
            (n - 1) * spp * tps <= u32::MAX,
            n * bars <= u32::MAX,
            table_view(table@) == table_after(t0, sp, mc, spp as int, bv, p as int),
            patterns@.len() == table@.len(),
            patterns@.subrange(0, old_pats.len() as int) == old_pats,
            old_pats.len() <= patterns@.len(),
            forall|q: int|
                0 <= q < p && #[trigger] slice_fresh(t0, sp, mc, spp as int, bv, q) ==> {
                    &&& table_after(t0, sp, mc, spp as int, bv, q).len() < patterns@.len()
                    &&& slice_pattern_is(
                        patterns@[table_after(t0, sp, mc, spp as int, bv, q).len() as int],
                        sp,
                        mc,
                        spp as int,
                        q,
                        slice_sig(time_sigs@, spp as int, tps, q),
                        slice_candidate(bv, nn, q),
                    )
                },
            slots@.len() == p,
            forall|q: int|
                0 <= q < p ==> match #[trigger] slots@[q] {
                    None => slice_of(sp, spp as int, q).len() == 0,
                    Some(c) => slice_of(sp, spp as int, q).len() > 0 && placed_clip(
                        c,
                        slice_name(t0, sp, mc, spp as int, bv, q),
                        row,
                        q as usize,
                        track.channel,
                    ),
                },
            out.name@ == bv,
            !out.mute,
            blocks_view(out.blocks@) == row_blocks(t0, sp, mc, spp as int, bv, bars, p as int),
        decreases n - p,
    {
        let idxs = &slices[p];
        proof {
            assert(idxs@ == slice_of(sp, spp as int, p as int));
            assert(p * spp <= (n - 1) * spp) by (nonlinear_arith)
                requires
                    p < n,
            ;
            assert(p * spp * tps <= (n - 1) * spp * tps) by (nonlinear_arith)
                requires
                    p * spp <= (n - 1) * spp,
            ;
            assert(p * spp + spp <= n * spp) by (nonlinear_arith)
                requires
                    p < n,
            ;
            assert(p * bars <= n * bars) by (nonlinear_arith)
                requires
                    p < n,
            ;
            assert(p <= (n - 1) * spp) by (nonlinear_arith)
                requires
                    p < n,
                    spp >= 1,
            ;
        }
        let ghost tb = table_view(table@);
        let ghost pats_before = patterns@;
        let ghost blocks_before = blocks_view(out.blocks@);
        if idxs.len() == 0 {
            slots.push(None);
            proof {
                assert(table_after(t0, sp, mc, spp as int, bv, p as int + 1) == tb);
                assert(row_blocks(t0, sp, mc, spp as int, bv, bars, p as int + 1) == blocks_before);
            }
        } else {
            let lo = p * spp;
            proof {
                assert forall|q: int| 0 <= q < idxs@.len() implies (#[trigger] idxs@[q]) < spans@.len() && spans@[idxs@[q] as int].step >= lo by {
                    crate::midi_import::lemma_in_slice_members(starts_of(sp), sp.len() as int, lo as int, (p as int + 1) * spp, q);
                }
                assert(pat_len(spp as int) <= spp);
            }
            let tick = (lo as u32) * tps;
            let sig = time_sig_at_tick(time_sigs.as_slice(), tick);
            let (mut pat, key) = slice_pattern(spans, mic, idxs, lo, spp, sig);
            let candidate = if n == 1 {
                base.clone()
            } else {
                let mut c = base.clone();
                crate::text::append_pad2(&mut c, (p + 1) as u64);
                c
            };
            let name = match find_key(table, &key) {
                Some(j) => {
                    proof {
                        lemma_first_key_bound(tb, key@, 0);
                        assert(table_after(t0, sp, mc, spp as int, bv, p as int + 1) == tb);
                    }
                    table[j].1.clone()
                },
                None => {
                    pat.name = candidate.clone();
                    let ghost before = patterns@;
                    patterns.push(pat);
                    table.push((key, candidate.clone()));
                    proof {
                        assert(table_view(table@) =~= tb.push((key@, candidate@)));
                        lemma_first_key_push(tb, key@, candidate@, 0);
                        assert(sig == slice_sig(time_sigs@, spp as int, tps, p as int));
                        assert(candidate@ == slice_candidate(bv, nn, p as int));
                        assert(slice_pattern_is(patterns@[tb.len() as int], sp, mc, spp as int, p as int, sig, candidate@));
                        assert(patterns@.subrange(0, old_pats.len() as int) =~= before.subrange(0, old_pats.len() as int));
                        assert forall|q: int|
                            0 <= q < p && #[trigger] slice_fresh(t0, sp, mc, spp as int, bv, q) implies patterns@[table_after(t0, sp, mc, spp as int, bv, q).len() as int]
                                == before[table_after(t0, sp, mc, spp as int, bv, q).len() as int] by {}
                    }
                    candidate
                },
            };
            assert(pats_before.len() <= patterns@.len());
            assert(forall|j: int| 0 <= j < pats_before.len() ==> patterns@[j] == pats_before[j]);
            let clip = Clip::new(name.clone(), row, p).with_pattern(name.clone()).with_channel(track.channel + 1);
            slots.push(Some(clip));
            out.blocks.push(((p as u32) * bars, bars, name));
            proof {
                assert(blocks_view(out.blocks@) =~= blocks_before.push((((p as int) * bars) as u32, bars, slice_name(t0, sp, mc, spp as int, bv, p as int))));
            }
        }
        proof {
            assert forall|q: int|
                0 <= q < p as int + 1 && #[trigger] slice_fresh(t0, sp, mc, spp as int, bv, q) implies {
                    &&& table_after(t0, sp, mc, spp as int, bv, q).len() < patterns@.len()
                    &&& slice_pattern_is(
                        patterns@[table_after(t0, sp, mc, spp as int, bv, q).len() as int],
                        sp,
                        mc,
                        spp as int,
                        q,
                        slice_sig(time_sigs@, spp as int, tps, q),
                        slice_candidate(bv, nn, q),
                    )
                } by {
                if q < p {
                    let j = table_after(t0, sp, mc, spp as int, bv, q).len() as int;
                    assert(j < pats_before.len());
                    assert(patterns@[j] == pats_before[j]);
                }
            }
            assert forall|q: int|
                0 <= q < p as int + 1 implies match #[trigger] slots@[q] {
                    None => slice_of(sp, spp as int, q).len() == 0,
                    Some(c) => slice_of(sp, spp as int, q).len() > 0 && placed_clip(
                        c,
                        slice_name(t0, sp, mc, spp as int, bv, q),
                        row,
                        q as usize,
                        track.channel,
                    ),
                } by {}
        }
        p = p + 1;
    }
    proof {
        assert(patterns@.subrange(0, old_pats.len() as int) == old_pats);
    }
    (slots, out)
}

} // verus!
