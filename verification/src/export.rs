//! Writing a session as a type-1 Standard MIDI File at 480 ticks per beat:
//! a tempo track, one track per matrix row (its clips' patterns one after
//! another) and one per controller automation lane.

use crate::note::note_value_fits;
use crate::pattern::Pattern;
use crate::project::AutomationLane;
use crate::smf::{
    by_tick, cc_target, encode_track, header_bytes, note_messages, note_pairs, parse_cc_target,
    pattern_note_events, pattern_notes, sort_by_tick, timed_view, track_body, varlen, write_midi_header, write_varlen,
};
use vstd::prelude::*;
use vstd::utf8::encode_utf8;

verus! {

/// Why a session cannot be written.
#[derive(Debug, Clone, Copy, PartialEq, Eq, Structural)]
pub enum ExportError {
    /// A clip's pattern would end past the last 32-bit tick.
    PatternTooLong,
    /// A row's clips would run past the last 32-bit tick.
    SessionTooLong,
    /// A note would end past the last 32-bit tick.
    NoteTooLong,
}

/// A matrix row to write: its name and, in column order, each clip's MIDI
/// channel (1-16) and pattern.
pub struct ExportRow {
    pub name: String,
    pub clips: Vec<(u8, Pattern)>,
}

/// Ticks per step of a written file (a sixteenth at 480 per beat).
pub open spec fn export_tps() -> int {
    120
}

/// The 0-based channel a clip on MIDI channel `c` writes on.
pub open spec fn export_channel(c: u8) -> u8 {
    ((if c >= 1 { c - 1 } else { 0 }) % 16) as u8
}

/// Big-endian four bytes of `n`.
pub open spec fn be32(n: u32) -> Seq<u8> {
    seq![(n / 0x100_0000 % 256) as u8, (n / 0x1_0000 % 256) as u8, (n / 256 % 256) as u8, (n % 256) as u8]
}

/// A track chunk around `body`.
pub open spec fn chunk(body: Seq<u8>) -> Seq<u8> {
    seq![0x4Du8, 0x54, 0x72, 0x6B] + be32(body.len() as u32) + body
}

/// The chunks of `bodies[..n]`, one after another.
pub open spec fn chunks(bodies: Seq<Seq<u8>>, n: int) -> Seq<u8>
    decreases n,
{
    if n <= 0 {
        Seq::empty()
    } else {
        chunks(bodies, n - 1) + chunk(bodies[n - 1])
    }
}

/// The tempo track: time signature `num` over two to the `pow2`, then the
/// tempo in microseconds per beat, then end-of-track.
pub open spec fn tempo_body(us: u32, num: u8, pow2: u8) -> Seq<u8> {
    varlen(0) + seq![0xFFu8, 0x58, 0x04, num, pow2, 24, 8] + varlen(0) + seq![
        0xFFu8,
        0x51,
        0x03,
        (us / 0x1_0000 % 256) as u8,
        (us / 256 % 256) as u8,
        (us % 256) as u8,
    ] + varlen(0) + seq![0xFFu8, 0x2F, 0x00]
}

/// The notes of a row's clips `..k` and the tick the next clip starts on,
/// or why they cannot be written: each clip's pattern is laid after the
/// previous one (its `length` steps of 120 ticks), on the clip's channel.
pub open spec fn row_scan(clips: Seq<(u8, Pattern)>, k: int) -> Result<(Seq<(u32, u8, u8, u8, u16)>, int), ExportError>
    decreases k,
{
    if k <= 0 {
        Ok((Seq::empty(), 0))
    } else {
        match row_scan(clips, k - 1) {
            Err(e) => Err(e),
            Ok((ns, off)) => {
                let c = clips[k - 1];
                if off + c.1.steps@.len() * export_tps() > u32::MAX {
                    Err(ExportError::PatternTooLong)
                } else if off + c.1.length * export_tps() > u32::MAX {
                    Err(ExportError::SessionTooLong)
                } else {
                    Ok(
                        (
                            ns + pattern_notes(c.1.steps@, export_channel(c.0), off as u32, 120, c.1.steps@.len() as int),
                            off + c.1.length * export_tps(),
                        ),
                    )
                }
            },
        }
    }
}

/// Every note ends within 32 bits of ticks.
pub open spec fn notes_end_ok(ns: Seq<(u32, u8, u8, u8, u16)>) -> bool {
    forall|i: int| 0 <= i < ns.len() ==> (#[trigger] ns[i]).0 + ns[i].4 <= u32::MAX
}

/// The notes a row writes (`None` when it has none), or why it cannot.
pub open spec fn row_notes(clips: Seq<(u8, Pattern)>) -> Result<Option<Seq<(u32, u8, u8, u8, u16)>>, ExportError> {
    match row_scan(clips, clips.len() as int) {
        Err(e) => Err(e),
        Ok((ns, _)) => if ns.len() == 0 {
            Ok(None)
        } else if !notes_end_ok(ns) {
            Err(ExportError::NoteTooLong)
        } else {
            Ok(Some(ns))
        },
    }
}

/// `body` is a track named `name` holding the events `pairs`, ordered by
/// tick (events on one tick in some order).
pub open spec fn track_of(body: Seq<u8>, name: Seq<u8>, pairs: Seq<(u32, Seq<u8>)>) -> bool {
    exists|evs: Seq<(u32, Seq<u8>)>| #[trigger] track_body(name, evs) == body && evs.to_multiset() == pairs.to_multiset() && by_tick(evs)
}

/// The first error among rows `..k`, if any.
pub open spec fn rows_error(rows: Seq<ExportRow>, k: int) -> Option<ExportError>
    decreases k,
{
    if k <= 0 {
        None
    } else if rows_error(rows, k - 1) is Some {
        rows_error(rows, k - 1)
    } else {
        match row_notes(rows[k - 1].clips@) {
            Err(e) => Some(e),
            Ok(_) => None,
        }
    }
}

/// The tracks of rows `..k` that have notes, as (name, note events).
pub open spec fn row_tracks(rows: Seq<ExportRow>, k: int) -> Seq<(Seq<u8>, Seq<(u32, Seq<u8>)>)>
    decreases k,
{
    if k <= 0 {
        Seq::empty()
    } else {
        let t = row_tracks(rows, k - 1);
        match row_notes(rows[k - 1].clips@) {
            Ok(Some(ns)) => t.push((encode_utf8(rows[k - 1].name@), note_pairs(ns))),
            _ => t,
        }
    }
}

/// The controller a lane writes (0-based channel, CC), when it is enabled,
/// has points and targets `channel.N.ccK`.
pub open spec fn lane_cc(lane: AutomationLane) -> Option<(u8, u8)> {
    if !lane.enabled || lane.points@.len() == 0 {
        None
    } else {
        match cc_target(lane.target@) {
            Some((ch, cc)) => Some(((ch % 16) as u8, cc as u8)),
            None => None,
        }
    }
}

/// A lane's events: a control change at each point's bar (1920 ticks each).
pub open spec fn lane_pairs(points: Seq<(u32, u8)>, ch: u8, cc: u8) -> Seq<(u32, Seq<u8>)> {
    points.map_values(|p: (u32, u8)| ((p.0 * 1920) as u32, seq![0xB0u8 | ch, cc, p.1]))
}

/// The tracks of lanes `..k` that write a controller.
pub open spec fn lane_tracks(lanes: Seq<AutomationLane>, k: int) -> Seq<(Seq<u8>, Seq<(u32, Seq<u8>)>)>
    decreases k,
{
    if k <= 0 {
        Seq::empty()
    } else {
        let t = lane_tracks(lanes, k - 1);
        match lane_cc(lanes[k - 1]) {
            Some((ch, cc)) => t.push((encode_utf8(lanes[k - 1].name@), lane_pairs(lanes[k - 1].points@, ch, cc))),
            None => t,
        }
    }
}

/// `bytes` is a type-1 file at 480 ticks per beat: the tempo track, then a
/// track per entry of `tracks`, each holding its events ordered by tick.
pub open spec fn file_of(bytes: Seq<u8>, tempo: Seq<u8>, tracks: Seq<(Seq<u8>, Seq<(u32, Seq<u8>)>)>) -> bool {
    exists|bodies: Seq<Seq<u8>>|
        {
            &&& #[trigger] bodies.len() == tracks.len() + 1
            &&& bodies[0] == tempo
            &&& forall|j: int| 0 <= j < tracks.len() ==> track_of(#[trigger] bodies[j + 1], tracks[j].0, tracks[j].1)
            &&& bytes == header_bytes((tracks.len() + 1) as u16, 480) + chunks(bodies, bodies.len() as int)
        }
}


/// Clip `k` of a row is reached with room for its steps: the row's clips
/// before it were laid out and its pattern ends within 32 bits of ticks.
pub open spec fn clip_reached(clips: Seq<(u8, Pattern)>, k: int) -> bool {
    row_scan(clips, k) matches Ok((_, off)) && off + clips[k].1.steps@.len() * export_tps() <= u32::MAX
}

/// What writing a row needs: its name fits a track-name event, each clip's
/// pattern length in ticks fits 32 bits, and each clip reached has only
/// notes that a MIDI note number can hold.
pub open spec fn row_writable(row: ExportRow) -> bool {
    &&& encode_utf8(row.name@).len() <= u32::MAX
    &&& forall|k: int| 0 <= k < row.clips@.len() ==> (#[trigger] row.clips@[k]).1.length * export_tps() <= u32::MAX
    &&& forall|k: int|
        0 <= k < row.clips@.len() && clip_reached(row.clips@, k) ==> forall|i: int|
            0 <= i < row.clips@[k].1.steps@.len() ==> note_value_fits((#[trigger] row.clips@[k].1.steps@[i]).note@)
}

/// What writing a lane needs: its name fits a track-name event and, when it
/// writes a controller, each point's bar times 1920 fits 32 bits.
pub open spec fn lane_writable(lane: AutomationLane) -> bool {
    &&& encode_utf8(lane.name@).len() <= u32::MAX
    &&& lane_cc(lane) is Some ==> forall|i: int| 0 <= i < lane.points@.len() ==> (#[trigger] lane.points@[i]).0 * 1920 <= u32::MAX
}

proof fn lemma_row_scan_err(clips: Seq<(u8, Pattern)>, k: int, n: int)
    requires
        0 <= k <= n,
        row_scan(clips, k) is Err,
    ensures
        row_scan(clips, n) == row_scan(clips, k),
    decreases n - k,
{
    if k < n {
        lemma_row_scan_err(clips, k, n - 1);
    }
}

proof fn lemma_rows_error_settles(rows: Seq<ExportRow>, k: int, n: int)
    requires
        0 <= k <= n,
        rows_error(rows, k) is Some,
    ensures
        rows_error(rows, n) == rows_error(rows, k),
    decreases n - k,
{
    if k < n {
        lemma_rows_error_settles(rows, k, n - 1);
    }
}

/// Append `n` as four big-endian bytes.
fn write_be32(buf: &mut Vec<u8>, n: u32)
    ensures
        final(buf)@ == old(buf)@ + be32(n),
{
    buf.push((n / 0x100_0000 % 256) as u8);
    buf.push((n / 0x1_0000 % 256) as u8);
    buf.push((n / 256 % 256) as u8);
    buf.push((n % 256) as u8);
    proof {
        assert(final(buf)@ =~= old(buf)@ + be32(n));
    }
}

/// Append the track chunk around `body`.
fn write_chunk(buf: &mut Vec<u8>, body: &Vec<u8>)
    ensures
        final(buf)@ == old(buf)@ + chunk(body@),
{
    buf.push(0x4D);
    buf.push(0x54);
    buf.push(0x72);
    buf.push(0x6B);
    let ghost mid = buf@;
    write_be32(buf, body.len() as u32);
    let ghost mid2 = buf@;
    let mut i: usize = 0;
    while i < body.len()
        invariant
            i <= body@.len(),
            buf@ == mid2 + body@.take(i as int),
        decreases body@.len() - i,
    {
        buf.push(body[i]);
        proof {
            assert(body@.take(i as int + 1) =~= body@.take(i as int).push(body@[i as int]));
        }
        i = i + 1;
    }
    proof {
        assert(body@.take(body@.len() as int) =~= body@);
        assert(final(buf)@ =~= old(buf)@ + chunk(body@));
    }
}

/// The tempo track of a written file.
pub fn tempo_track(us_per_beat: u32, ts_num: u8, ts_den_pow2: u8) -> (r: Vec<u8>)
    ensures
        r@ == tempo_body(us_per_beat, ts_num, ts_den_pow2),
{
    let mut t: Vec<u8> = Vec::new();
    write_varlen(&mut t, 0);
    t.push(0xFF);
    t.push(0x58);
    t.push(0x04);
    t.push(ts_num);
    t.push(ts_den_pow2);
    t.push(24);
    t.push(8);
    write_varlen(&mut t, 0);
    t.push(0xFF);
    t.push(0x51);
    t.push(0x03);
    t.push((us_per_beat / 0x1_0000 % 256) as u8);
    t.push((us_per_beat / 256 % 256) as u8);
    t.push((us_per_beat % 256) as u8);
    write_varlen(&mut t, 0);
    t.push(0xFF);
    t.push(0x2F);
    t.push(0x00);
    proof {
        assert(t@ =~= tempo_body(us_per_beat, ts_num, ts_den_pow2));
    }
    t
}

/// The track of a matrix row: its clips' patterns one after another from
/// tick 0 (each `length` steps of 120 ticks), on each clip's channel;
/// `None` when the row has no notes.
pub fn row_track(row: &ExportRow) -> (r: Result<Option<Vec<u8>>, ExportError>)
    requires
        row_writable(*row),
    ensures
        match row_notes(row.clips@) {
            Err(e) => r == Err::<Option<Vec<u8>>, ExportError>(e),
            Ok(None) => r matches Ok(None),
            Ok(Some(ns)) => r matches Ok(Some(b)) && track_of(b@, encode_utf8(row.name@), note_pairs(ns)),
        },
{
    let ghost cl = row.clips@;
    let mut notes: Vec<(u32, u8, u8, u8, u16)> = Vec::new();
    let mut offset: u32 = 0;
    let mut k: usize = 0;
    while k < row.clips.len()
        invariant
            k <= cl.len(),
            cl == row.clips@,
            row_writable(*row),
            row_scan(cl, k as int) == Ok::<(Seq<(u32, u8, u8, u8, u16)>, int), ExportError>((notes@, offset as int)),
        decreases cl.len() - k,
    {
        let c = row.clips[k].0;
        let pat = &row.clips[k].1;
        let end: u128 = offset as u128 + pat.steps.len() as u128 * 120;
        if end > u32::MAX as u128 {
            proof {
                lemma_row_scan_err(cl, k as int + 1, cl.len() as int);
            }
            return Err(ExportError::PatternTooLong);
        }
        proof {
            assert(clip_reached(cl, k as int));
            assert(cl[k as int].1.length * export_tps() <= u32::MAX);
        }
        let ch: u8 = (if c >= 1 { c - 1 } else { 0 }) % 16;
        let mut ev = pattern_note_events(pat.steps.as_slice(), ch, offset, 120);
        let span: u64 = pat.length as u64 * 120;
        if offset as u64 + span > u32::MAX as u64 {
            proof {
                lemma_row_scan_err(cl, k as int + 1, cl.len() as int);
            }
            return Err(ExportError::SessionTooLong);
        }
        notes.append(&mut ev);
        offset = offset + span as u32;
        k = k + 1;
    }
    if notes.len() == 0 {
        return Ok(None);
    }
    let mut i: usize = 0;
    while i < notes.len()
        invariant
            i <= notes@.len(),
            cl == row.clips@,
            notes@.len() > 0,
            row_scan(cl, cl.len() as int) == Ok::<(Seq<(u32, u8, u8, u8, u16)>, int), ExportError>((notes@, offset as int)),
            forall|j: int| 0 <= j < i ==> (#[trigger] notes@[j]).0 + notes@[j].4 <= u32::MAX,
        decreases notes@.len() - i,
    {
        if notes[i].0 as u64 + notes[i].4 as u64 > u32::MAX as u64 {
            proof {
                assert(!notes_end_ok(notes@)) by {
                    assert(notes@[i as int].0 + notes@[i as int].4 > u32::MAX);
                }
                assert(row_notes(cl) == Err::<Option<Seq<(u32, u8, u8, u8, u16)>>, ExportError>(ExportError::NoteTooLong));
            }
            return Err(ExportError::NoteTooLong);
        }
        i = i + 1;
    }
    let events = note_messages(notes.as_slice());
    let body = encode_track(row.name.as_str().as_bytes(), events.as_slice());
    proof {
        let evs = timed_view(events@);
        assert(track_body(encode_utf8(row.name@), evs) == body@);
    }
    Ok(Some(body))
}

/// The track of an automation lane that writes a controller: a control
/// change at each point's bar, ordered by tick; `None` for a disabled or
/// empty lane, or one whose target is not `channel.N.ccK`.
pub fn lane_track(lane: &AutomationLane) -> (r: Option<Vec<u8>>)
    requires
        lane_writable(*lane),
    ensures
        match lane_cc(*lane) {
            None => r is None,
            Some((ch, cc)) => r matches Some(b) && track_of(b@, encode_utf8(lane.name@), lane_pairs(lane.points@, ch, cc)),
        },
{
    if !lane.enabled || lane.points.len() == 0 {
        return None;
    }
    let (ch_idx, cc) = match parse_cc_target(lane.target.as_str()) {
        Some(x) => x,
        None => return None,
    };
    let ch = ch_idx % 16;
    let ghost pairs = lane_pairs(lane.points@, ch, cc);
    let mut events: Vec<(u32, Vec<u8>)> = Vec::new();
    let mut i: usize = 0;
    while i < lane.points.len()
        invariant
            i <= lane.points@.len(),
            lane_cc(*lane) == Some((ch, cc)),
            lane_writable(*lane),
            pairs == lane_pairs(lane.points@, ch, cc),
            timed_view(events@) == pairs.take(i as int),
        decreases lane.points@.len() - i,
    {
        let (bar, val) = lane.points[i];
        proof {
            assert(lane.points@[i as int].0 * 1920 <= u32::MAX);
        }
        let m = vec![0xB0u8 | ch, cc, val];
        proof {
            assert(m@ =~= seq![0xB0u8 | ch, cc, val]);
            assert(lane_pairs(lane.points@, ch, cc)[i as int] == ((bar * 1920) as u32, m@));
        }
        let ghost before = events@;
        let tick = bar * 1920;
        events.push((tick, m));
        proof {
            assert(events@ == before.push((tick, m)));
            assert(timed_view(events@) =~= timed_view(before).push((tick, m@)));
            assert(pairs.take(i as int + 1) =~= pairs.take(i as int).push(pairs[i as int]));
            assert(timed_view(events@) =~= pairs.take(i as int + 1));
        }
        i = i + 1;
    }
    proof {
        assert(pairs.take(lane.points@.len() as int) =~= pairs);
    }
    let sorted = sort_by_tick(events);
    let body = encode_track(lane.name.as_str().as_bytes(), sorted.as_slice());
    proof {
        assert(track_body(encode_utf8(lane.name@), timed_view(sorted@)) == body@);
    }
    Some(body)
}


/// The views of track bodies.
pub open spec fn bodies_view(b: Seq<Vec<u8>>) -> Seq<Seq<u8>> {
    b.map_values(|x: Vec<u8>| x@)
}

/// Write a session as a type-1 Standard MIDI File at 480 ticks per beat:
/// the tempo track (time signature `ts_num` over two to the `ts_den_pow2`,
/// tempo `us_per_beat`), then a track per row with notes, in the given
/// order, then a track per lane that writes a controller. Refused with the
/// first row's error, in row order, when a row cannot be written.
pub fn smf_export_bytes(
    us_per_beat: u32,
    ts_num: u8,
    ts_den_pow2: u8,
    rows: &Vec<ExportRow>,
    lanes: &Vec<AutomationLane>,
) -> (r: Result<Vec<u8>, ExportError>)
    requires
        forall|i: int| 0 <= i < rows@.len() && rows_error(rows@, i) is None ==> row_writable(#[trigger] rows@[i]),
        forall|i: int| 0 <= i < lanes@.len() ==> lane_writable(#[trigger] lanes@[i]),
    ensures
        match rows_error(rows@, rows@.len() as int) {
            Some(e) => r == Err::<Vec<u8>, ExportError>(e),
            None => r matches Ok(b) && file_of(
                b@,
                tempo_body(us_per_beat, ts_num, ts_den_pow2),
                row_tracks(rows@, rows@.len() as int) + lane_tracks(lanes@, lanes@.len() as int),
            ),
        },
{
    let tempo = tempo_track(us_per_beat, ts_num, ts_den_pow2);
    let mut bodies: Vec<Vec<u8>> = Vec::new();
    bodies.push(tempo);
    let ghost tb = tempo_body(us_per_beat, ts_num, ts_den_pow2);
    let mut i: usize = 0;
    while i < rows.len()
        invariant
            i <= rows@.len(),
            forall|q: int| 0 <= q < rows@.len() && rows_error(rows@, q) is None ==> row_writable(#[trigger] rows@[q]),
            rows_error(rows@, i as int) is None,
            bodies@.len() == row_tracks(rows@, i as int).len() + 1,
            bodies@[0]@ == tb,
            forall|j: int|
                0 <= j < row_tracks(rows@, i as int).len() ==> track_of(
                    (#[trigger] bodies@[j + 1])@,
                    row_tracks(rows@, i as int)[j].0,
                    row_tracks(rows@, i as int)[j].1,
                ),
        decreases rows@.len() - i,
    {
        match row_track(&rows[i]) {
            Err(e) => {
                proof {
                    assert(rows_error(rows@, i as int + 1) == Some(e));
                    lemma_rows_error_settles(rows@, i as int + 1, rows@.len() as int);
                }
                return Err(e);
            },
            Ok(None) => {},
            Ok(Some(b)) => {
                bodies.push(b);
            },
        }
        i = i + 1;
    }
    let ghost rt = row_tracks(rows@, rows@.len() as int);
    let mut j: usize = 0;
    while j < lanes.len()
        invariant
            j <= lanes@.len(),
            forall|q: int| 0 <= q < lanes@.len() ==> lane_writable(#[trigger] lanes@[q]),
            bodies@.len() == rt.len() + lane_tracks(lanes@, j as int).len() + 1,
            bodies@[0]@ == tb,
            forall|q: int|
                0 <= q < (rt + lane_tracks(lanes@, j as int)).len() ==> track_of(
                    (#[trigger] bodies@[q + 1])@,
                    (rt + lane_tracks(lanes@, j as int))[q].0,
                    (rt + lane_tracks(lanes@, j as int))[q].1,
                ),
        decreases lanes@.len() - j,
    {
        let ghost before = rt + lane_tracks(lanes@, j as int);
        match lane_track(&lanes[j]) {
            None => {
                proof {
                    assert(rt + lane_tracks(lanes@, j as int + 1) == before);
                }
            },
            Some(b) => {
                bodies.push(b);
                proof {
                    assert(rt + lane_tracks(lanes@, j as int + 1) =~= before.push(lane_tracks(lanes@, j as int + 1).last()));
                }
            },
        }
        j = j + 1;
    }
    let ghost all = rt + lane_tracks(lanes@, lanes@.len() as int);
    let ghost bv = bodies_view(bodies@);
    let mut out: Vec<u8> = Vec::new();
    write_midi_header(&mut out, bodies.len() as u16, 480);
    let ghost head = out@;
    let mut k: usize = 0;
    while k < bodies.len()
        invariant
            k <= bodies@.len(),
            bv == bodies_view(bodies@),
            out@ == head + chunks(bv, k as int),
        decreases bodies@.len() - k,
    {
        write_chunk(&mut out, &bodies[k]);
        k = k + 1;
    }
    proof {
        assert(bv.len() == all.len() + 1);
        assert(bv[0] == tb);
        assert forall|q: int| 0 <= q < all.len() implies track_of(#[trigger] bv[q + 1], all[q].0, all[q].1) by {
            assert(bv[q + 1] == bodies@[q + 1]@);
        }
        assert(head == header_bytes((all.len() + 1) as u16, 480));
    }
    Ok(out)
}

} // verus!
