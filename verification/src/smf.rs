//! Standard MIDI File writing: variable-length quantities, the header
//! chunk, track chunks of timed events, and the names and targets that
//! import and export read.

use crate::note::{is_rest, note_midi_raw, note_value_fits, parse_note_name, Note};
use vstd::prelude::*;

verus! {

/// Options for importing a MIDI file.
#[derive(Debug, Clone, PartialEq, Eq, Structural)]
pub struct MidiImportOptions {
    /// Bars per pattern slice (1, 2, 4 or 8).
    pub bars_per_pattern: usize,
    /// Steps per beat: 4 = sixteenths, 8 = thirty-seconds.
    pub steps_per_beat: u32,
    /// Mark channel 10 (index 9) as percussion.
    pub detect_drums: bool,
}

impl Default for MidiImportOptions {
    fn default() -> (r: MidiImportOptions)
        ensures
            r == (MidiImportOptions { bars_per_pattern: 4, steps_per_beat: 4, detect_drums: true }),
    {
        MidiImportOptions { bars_per_pattern: 4, steps_per_beat: 4, detect_drums: true }
    }
}

/// What a quick scan learns about one track of a MIDI file.
#[derive(Debug, Clone)]
pub struct MidiTrackInfo {
    pub name: String,
    pub channel: u8,
    pub note_count: usize,
    pub is_drum: bool,
}

/// The continuation bytes (top bit set) encoding `m`'s 7-bit groups, most
/// significant first.
pub open spec fn varlen_hi(m: nat) -> Seq<u8>
    decreases m,
{
    if m < 128 {
        seq![(m + 128) as u8]
    } else {
        varlen_hi(m / 128).push((m % 128 + 128) as u8)
    }
}

/// The variable-length quantity of `n`: 7-bit groups, most significant
/// first, every byte but the last with its top bit set.
pub open spec fn varlen(n: nat) -> Seq<u8> {
    if n < 128 {
        seq![n as u8]
    } else {
        varlen_hi(n / 128).push((n % 128) as u8)
    }
}

/// The number a sequence of 7-bit groups spells (top bits ignored).
pub open spec fn varlen_value(b: Seq<u8>) -> nat
    decreases b.len(),
{
    if b.len() == 0 {
        0
    } else {
        varlen_value(b.drop_last()) * 128 + (b.last() % 128) as nat
    }
}

fn push_varlen_hi(buf: &mut Vec<u8>, m: u32)
    ensures
        final(buf)@ == old(buf)@ + varlen_hi(m as nat),
    decreases m,
{
    if m >= 128 {
        push_varlen_hi(buf, m / 128);
    }
    buf.push((m % 128 + 128) as u8);
    proof {
        if m >= 128 {
            assert(final(buf)@ =~= old(buf)@ + varlen_hi(m as nat));
        } else {
            assert(final(buf)@ =~= old(buf)@ + varlen_hi(m as nat));
        }
    }
}

/// Append the variable-length quantity of `n`.
pub fn write_varlen(buf: &mut Vec<u8>, n: u32)
    ensures
        final(buf)@ == old(buf)@ + varlen(n as nat),
{
    if n >= 128 {
        push_varlen_hi(buf, n / 128);
    }
    buf.push((n % 128) as u8);
    proof {
        assert(final(buf)@ =~= old(buf)@ + varlen(n as nat));
    }
}

proof fn lemma_varlen_hi(m: nat)
    ensures
        varlen_value(varlen_hi(m)) == m,
        varlen_hi(m).len() >= 1,
        forall|i: int| 0 <= i < varlen_hi(m).len() ==> #[trigger] varlen_hi(m)[i] >= 128,
    decreases m,
{
    if m >= 128 {
        lemma_varlen_hi(m / 128);
        let s = varlen_hi(m / 128).push((m % 128 + 128) as u8);
        assert(s.drop_last() =~= varlen_hi(m / 128));
        assert(((m % 128 + 128) as u8) % 128 == m % 128);
        assert(varlen_value(s) == varlen_value(varlen_hi(m / 128)) * 128 + m % 128);
        vstd::arithmetic::div_mod::lemma_fundamental_div_mod(m as int, 128);
        assert(varlen_value(s) == m);
        assert(varlen_hi(m) == s);
    } else {
        let s = seq![(m + 128) as u8];
        assert(s.drop_last() =~= Seq::<u8>::empty());
        assert(((m + 128) as u8) % 128 == m);
        assert(varlen_value(s.drop_last()) == 0);
        assert(varlen_value(s) == m);
        assert(varlen_hi(m) == s);
    }
}

/// Reading back a variable-length quantity gives the number written, and
/// exactly its last byte has the top bit clear.
pub proof fn lemma_varlen_roundtrip(n: nat)
    requires
        n <= u32::MAX,
    ensures
        varlen_value(varlen(n)) == n,
        varlen(n).last() < 128,
        forall|i: int| 0 <= i < varlen(n).len() - 1 ==> #[trigger] varlen(n)[i] >= 128,
        1 <= varlen(n).len() <= 5,
{
    if n >= 128 {
        lemma_varlen_hi(n / 128);
        lemma_varlen_hi_len(n / 128);
        let s = varlen_hi(n / 128).push((n % 128) as u8);
        assert(s.drop_last() =~= varlen_hi(n / 128));
        assert(varlen_value(s) == varlen_value(varlen_hi(n / 128)) * 128 + n % 128);
        vstd::arithmetic::div_mod::lemma_fundamental_div_mod(n as int, 128);
        assert forall|i: int| 0 <= i < varlen(n).len() - 1 implies #[trigger] varlen(n)[i] >= 128 by {
            assert(varlen(n)[i] == varlen_hi(n / 128)[i]);
        }
    } else {
        assert(seq![n as u8].drop_last() =~= Seq::<u8>::empty());
        assert(varlen_value(seq![n as u8].drop_last()) == 0);
    }
}

proof fn lemma_varlen_hi_len(m: nat)
    requires
        m <= u32::MAX / 128,
    ensures
        varlen_hi(m).len() <= 4,
{
    let m1 = m / 128;
    let m2 = m1 / 128;
    let m3 = m2 / 128;
    assert(m3 < 128);
    assert(varlen_hi(m3).len() == 1);
    if m2 >= 128 {
        assert(varlen_hi(m2).len() == varlen_hi(m3).len() + 1);
    }
    assert(varlen_hi(m2).len() <= 2);
    if m1 >= 128 {
        assert(varlen_hi(m1).len() == varlen_hi(m2).len() + 1);
    }
    assert(varlen_hi(m1).len() <= 3);
    if m >= 128 {
        assert(varlen_hi(m).len() == varlen_hi(m1).len() + 1);
    }
}

/// The header chunk: `MThd`, length 6, format (0 for a single track, else
/// 1), the track count and the ticks per quarter note, big-endian.
pub open spec fn header_bytes(num_tracks: u16, ppq: u16) -> Seq<u8> {
    seq![0x4Du8, 0x54, 0x68, 0x64, 0, 0, 0, 6, 0, if num_tracks == 1 { 0u8 } else { 1u8 }, (num_tracks / 256) as u8, (
    num_tracks % 256) as u8, (ppq / 256) as u8, (ppq % 256) as u8]
}

/// Append the header chunk.
pub fn write_midi_header(buf: &mut Vec<u8>, num_tracks: u16, ppq: u16)
    ensures
        final(buf)@ == old(buf)@ + header_bytes(num_tracks, ppq),
{
    buf.push(0x4D);
    buf.push(0x54);
    buf.push(0x68);
    buf.push(0x64);
    buf.push(0);
    buf.push(0);
    buf.push(0);
    buf.push(6);
    buf.push(0);
    buf.push(if num_tracks == 1 { 0 } else { 1 });
    buf.push((num_tracks / 256) as u8);
    buf.push((num_tracks % 256) as u8);
    buf.push((ppq / 256) as u8);
    buf.push((ppq % 256) as u8);
    proof {
        assert(final(buf)@ =~= old(buf)@ + header_bytes(num_tracks, ppq));
    }
}

/// Timed events as a track body: each event's delta from the previous one
/// (never negative) and its bytes, after a track-name meta event, ending with
/// end-of-track.
pub open spec fn events_bytes(events: Seq<(u32, Seq<u8>)>, last: u32, k: int) -> Seq<u8>
    decreases k,
{
    if k <= 0 {
        Seq::empty()
    } else {
        let prev_last = if k >= 2 {
            events[k - 2].0
        } else {
            last
        };
        let delta = if events[k - 1].0 >= prev_last {
            events[k - 1].0 - prev_last
        } else {
            0
        };
        events_bytes(events, last, k - 1) + varlen(delta as nat) + events[k - 1].1
    }
}

/// The bytes of a track chunk body named `name` holding `events`.
pub open spec fn track_body(name: Seq<u8>, events: Seq<(u32, Seq<u8>)>) -> Seq<u8> {
    varlen(0) + seq![0xFFu8, 0x03] + varlen(name.len()) + name + events_bytes(events, 0, events.len() as int) + varlen(0)
        + seq![0xFFu8, 0x2F, 0x00]
}

/// Build a track body: the name meta event, the events as deltas (in the
/// given order), and end-of-track.
pub fn encode_track(name: &[u8], events: &[(u32, Vec<u8>)]) -> (r: Vec<u8>)
    requires
        name@.len() <= u32::MAX,
    ensures
        r@ == track_body(name@, events@.map_values(|e: (u32, Vec<u8>)| (e.0, e.1@))),
{
    let ghost ev = events@.map_values(|e: (u32, Vec<u8>)| (e.0, e.1@));
    let mut t: Vec<u8> = Vec::new();
    write_varlen(&mut t, 0);
    t.push(0xFF);
    t.push(0x03);
    write_varlen(&mut t, name.len() as u32);
    let mut i: usize = 0;
    while i < name.len()
        invariant
            i <= name@.len(),
            t@ == varlen(0) + seq![0xFFu8, 0x03] + varlen(name@.len()) + name@.take(i as int),
        decreases name@.len() - i,
    {
        t.push(name[i]);
        proof {
            assert(name@.take(i + 1) =~= name@.take(i as int).push(name@[i as int]));
        }
        i = i + 1;
    }
    proof {
        assert(name@.take(name@.len() as int) =~= name@);
    }
    let ghost head = t@;
    let mut last: u32 = 0;
    let mut k: usize = 0;
    while k < events.len()
        invariant
            k <= events@.len(),
            ev == events@.map_values(|e: (u32, Vec<u8>)| (e.0, e.1@)),
            t@ == head + events_bytes(ev, 0, k as int),
            last == (if k == 0 {
                0
            } else {
                events@[k - 1].0
            }),
        decreases events@.len() - k,
    {
        let tick = events[k].0;
        let delta = if tick >= last {
            tick - last
        } else {
            0
        };
        write_varlen(&mut t, delta);
        let msg = &events[k].1;
        let ghost mid = t@;
        let mut j: usize = 0;
        while j < msg.len()
            invariant
                j <= msg@.len(),
                t@ == mid + msg@.take(j as int),
            decreases msg@.len() - j,
        {
            t.push(msg[j]);
            proof {
                assert(msg@.take(j + 1) =~= msg@.take(j as int).push(msg@[j as int]));
            }
            j = j + 1;
        }
        proof {
            assert(msg@.take(msg@.len() as int) =~= msg@);
            assert(ev[k as int] == (events@[k as int].0, msg@));
            assert(t@ =~= head + events_bytes(ev, 0, k + 1));
        }
        last = tick;
        k = k + 1;
    }
    write_varlen(&mut t, 0);
    t.push(0xFF);
    t.push(0x2F);
    t.push(0x00);
    proof {
        assert(t@ =~= track_body(name@, ev));
    }
    t
}

/// The CC a `channel.N.ccM` lane target names: channel `N` (1-based, so
/// `N - 1`, and 0 for 0) and CC `M`, each a decimal of at most 255.
pub open spec fn cc_target(t: Seq<char>) -> Option<(int, int)> {
    let d = crate::text::find_spec(t, 8, '.');
    if t.len() >= 8 && t.take(8) == "channel."@ && d < t.len() && d + 3 <= t.len() && t[d + 1] == 'c' && t[d + 2] == 'c' {
        match (crate::text::parse_dec_spec(t.subrange(8, d), 255), crate::text::parse_dec_spec(t.skip(d + 3), 255)) {
            (Some(ch), Some(cc)) => Some((if ch >= 1 { ch - 1 } else { 0 }, cc)),
            _ => None,
        }
    } else {
        None
    }
}

/// Read a `channel.N.ccM` automation target as (0-based channel, CC).
pub fn parse_cc_target(target: &str) -> (r: Option<(u8, u8)>)
    ensures
        match r {
            Some((ch, cc)) => cc_target(target@) == Some((ch as int, cc as int)),
            None => cc_target(target@) is None,
        },
{
    proof {
        reveal_strlit("channel.");
    }
    let n = target.unicode_len();
    if !crate::text::has_at(target, 0, "channel.") {
        proof {
            if target@.len() >= 8 {
                assert(target@.subrange(0, 8) =~= target@.take(8));
            }
        }
        return None;
    }
    proof {
        assert(target@.subrange(0, 8) =~= target@.take(8));
    }
    let d = crate::text::find_char(target, 8, '.');
    if d >= n || n - d < 3 || target.get_char(d + 1) != 'c' || target.get_char(d + 2) != 'c' {
        return None;
    }
    let ch = crate::text::parse_dec_range(target, 8, d, 255);
    let cc = crate::text::parse_dec(target, d + 3, 255);
    match (ch, cc) {
        (Some(c), Some(m)) => Some((if c >= 1 { (c - 1) as u8 } else { 0 }, m as u8)),
        _ => None,
    }
}

/// The time signature in force at `tick`: the last entry of `map`
/// (`(tick, numerator, denominator)`) at or before it, else 4/4.
pub open spec fn time_sig_at(map: Seq<(u32, u8, u8)>, tick: u32, k: int) -> (u8, u8)
    decreases k,
{
    if k <= 0 {
        (4, 4)
    } else if map[k - 1].0 <= tick {
        (map[k - 1].1, map[k - 1].2)
    } else {
        time_sig_at(map, tick, k - 1)
    }
}

/// Look up the time signature in force at `tick`.
pub fn time_sig_at_tick(map: &[(u32, u8, u8)], tick: u32) -> (r: (u8, u8))
    ensures
        r == time_sig_at(map@, tick, map@.len() as int),
{
    let mut k = map.len();
    while k > 0
        invariant
            k <= map@.len(),
            time_sig_at(map@, tick, map@.len() as int) == time_sig_at(map@, tick, k as int),
        decreases k,
    {
        if map[k - 1].0 <= tick {
            return (map[k - 1].1, map[k - 1].2);
        }
        k = k - 1;
    }
    (4, 4)
}

/// A character kept in a pattern name: ASCII letter or digit, `_` or `-`.
pub open spec fn name_char(c: char) -> bool {
    ('a' <= c <= 'z') || ('A' <= c <= 'Z') || ('0' <= c <= '9') || c == '_' || c == '-'
}

/// `c` in upper case (ASCII letters only).
pub open spec fn upper(c: char) -> char {
    if 'a' <= c <= 'z' {
        ((c as int) - 32) as char
    } else {
        c
    }
}

/// The kept characters of `s[..k]`, upper-cased.
pub open spec fn kept_upper(s: Seq<char>, k: int) -> Seq<char>
    decreases k,
{
    if k <= 0 {
        Seq::empty()
    } else if name_char(s[k - 1]) {
        kept_upper(s, k - 1).push(upper(s[k - 1]))
    } else {
        kept_upper(s, k - 1)
    }
}

/// The one-character string of an upper-case name character.
fn char_str(c: char) -> (r: &'static str)
    requires
        ('A' <= c <= 'Z') || ('0' <= c <= '9') || c == '_' || c == '-',
    ensures
        r@ == seq![c],
{
    proof {
        reveal_strlit("A");
        reveal_strlit("B");
        reveal_strlit("C");
        reveal_strlit("D");
        reveal_strlit("E");
        reveal_strlit("F");
        reveal_strlit("G");
        reveal_strlit("H");
        reveal_strlit("I");
        reveal_strlit("J");
        reveal_strlit("K");
        reveal_strlit("L");
        reveal_strlit("M");
        reveal_strlit("N");
        reveal_strlit("O");
        reveal_strlit("P");
        reveal_strlit("Q");
        reveal_strlit("R");
        reveal_strlit("S");
        reveal_strlit("T");
        reveal_strlit("U");
        reveal_strlit("V");
        reveal_strlit("W");
        reveal_strlit("X");
        reveal_strlit("Y");
        reveal_strlit("Z");
        reveal_strlit("0");
        reveal_strlit("1");
        reveal_strlit("2");
        reveal_strlit("3");
        reveal_strlit("4");
        reveal_strlit("5");
        reveal_strlit("6");
        reveal_strlit("7");
        reveal_strlit("8");
        reveal_strlit("9");
        reveal_strlit("_");
        reveal_strlit("-");
    }
    match c {
        'A' => "A",
        'B' => "B",
        'C' => "C",
        'D' => "D",
        'E' => "E",
        'F' => "F",
        'G' => "G",
        'H' => "H",
        'I' => "I",
        'J' => "J",
        'K' => "K",
        'L' => "L",
        'M' => "M",
        'N' => "N",
        'O' => "O",
        'P' => "P",
        'Q' => "Q",
        'R' => "R",
        'S' => "S",
        'T' => "T",
        'U' => "U",
        'V' => "V",
        'W' => "W",
        'X' => "X",
        'Y' => "Y",
        'Z' => "Z",
        '0' => "0",
        '1' => "1",
        '2' => "2",
        '3' => "3",
        '4' => "4",
        '5' => "5",
        '6' => "6",
        '7' => "7",
        '8' => "8",
        '9' => "9",
        '_' => "_",
        _ => "-",
    }
}

/// A track name as a pattern name: its letters, digits, `_` and `-`,
/// upper-cased, at most eight of them; `TRK` when none is left.
pub open spec fn sanitized(s: Seq<char>) -> Seq<char> {
    let k = kept_upper(s, s.len() as int);
    if k.len() == 0 {
        "TRK"@
    } else if k.len() > 8 {
        k.take(8)
    } else {
        k
    }
}

/// Turn a track name into a pattern name as [`sanitized`] says.
pub fn sanitize_name(s: &str) -> (r: String)
    ensures
        r@ == sanitized(s@),
{
    proof {
        reveal_strlit("TRK");
    }
    let n = s.unicode_len();
    let mut out: Vec<char> = Vec::new();
    let mut i: usize = 0;
    while i < n
        invariant
            i <= n,
            n == s@.len(),
            out@ == kept_upper(s@, i as int),
            forall|m: int| 0 <= m < out@.len() ==> ('A' <= #[trigger] out@[m] <= 'Z') || ('0' <= out@[m] <= '9') || out@[m] == '_' || out@[m] == '-',
        decreases n - i,
    {
        let c = s.get_char(i);
        if (c >= 'a' && c <= 'z') || (c >= 'A' && c <= 'Z') || (c >= '0' && c <= '9') || c == '_' || c == '-' {
            let u = if c >= 'a' && c <= 'z' {
                ((c as u32) - 32) as u8 as char
            } else {
                c
            };
            proof {
                assert(u == upper(c));
            }
            out.push(u);
        }
        i = i + 1;
    }
    if out.len() == 0 {
        return String::from_str("TRK");
    }
    let take = if out.len() > 8 {
        8
    } else {
        out.len()
    };
    let mut r = String::new();
    let mut j: usize = 0;
    while j < take
        invariant
            j <= take,
            take <= out@.len(),
            r@ == out@.take(j as int),
            forall|m: int| 0 <= m < out@.len() ==> ('A' <= #[trigger] out@[m] <= 'Z') || ('0' <= out@[m] <= '9') || out@[m] == '_' || out@[m] == '-',
        decreases take - j,
    {
        r = r.concat(char_str(out[j]));
        proof {
            assert(out@.take(j + 1) =~= out@.take(j as int).push(out@[j as int]));
        }
        j = j + 1;
    }
    proof {
        if out@.len() <= 8 {
            assert(out@.take(out@.len() as int) =~= out@);
        }
    }
    r
}

/// The notes of pattern steps `steps[..n]` placed from tick `offset` on a
/// grid of `tps` ticks per step, on channel `ch`: for each sounding step
/// whose note name reads as a MIDI note, `(tick, channel, pitch, velocity,
/// length)` in step order. A note's length is its gate percentage of a
/// step in ticks, at least 10 and kept to 16 bits.
pub open spec fn pattern_notes(steps: Seq<Note>, ch: u8, offset: u32, tps: u32, n: int) -> Seq<(u32, u8, u8, u8, u16)>
    decreases n,
{
    if n <= 0 {
        Seq::empty()
    } else {
        let note = steps[n - 1];
        let g = note.gate as int * tps / 100;
        pattern_notes(steps, ch, offset, tps, n - 1) + if is_rest(note.note@) {
            Seq::empty()
        } else {
            match note_midi_raw(note.note@) {
                Some(pitch) => seq![
                    (
                        (offset + (n - 1) * tps) as u32,
                        ch,
                        pitch,
                        note.velocity,
                        (if g < 10 {
                            10
                        } else {
                            g
                        }) as u16,
                    ),
                ],
                None => Seq::empty(),
            }
        }
    }
}

/// Collect the notes of a pattern's steps for export: see [`pattern_notes`].
pub fn pattern_note_events(steps: &[Note], ch: u8, offset: u32, tps: u32) -> (r: Vec<(u32, u8, u8, u8, u16)>)
    requires
        offset + steps@.len() * tps <= u32::MAX,
        forall|i: int| 0 <= i < steps@.len() ==> note_value_fits((#[trigger] steps@[i]).note@),
    ensures
        r@ == pattern_notes(steps@, ch, offset, tps, steps@.len() as int),
{
    let mut out: Vec<(u32, u8, u8, u8, u16)> = Vec::new();
    let mut i: usize = 0;
    while i < steps.len()
        invariant
            i <= steps@.len(),
            offset + steps@.len() * tps <= u32::MAX,
            forall|k: int| 0 <= k < steps@.len() ==> note_value_fits((#[trigger] steps@[k]).note@),
            out@ == pattern_notes(steps@, ch, offset, tps, i as int),
        decreases steps@.len() - i,
    {
        let note = &steps[i];
        proof {
            assert(note_value_fits(steps@[i as int].note@));
            assert(offset + i * tps <= offset + steps@.len() * tps) by (nonlinear_arith)
                requires
                    i < steps@.len(),
            ;
        }
        if !note.is_empty() {
            if let Some(pitch) = parse_note_name(note.note.as_str()) {
                proof {
                    assert((note.gate as u64) * (tps as u64) <= 0xFFFF * 0xFFFF_FFFFu64) by (nonlinear_arith)
                        requires
                            note.gate <= 0xFFFF,
                            tps <= 0xFFFF_FFFFu32,
                    ;
                }
                let prod: u64 = (i as u64) * (tps as u64);
                let tick: u32 = (offset as u64 + prod) as u32;
                let g: u64 = (note.gate as u64) * (tps as u64) / 100;
                let gate: u64 = if g < 10 {
                    10
                } else {
                    g
                };
                out.push((tick, ch, pitch, note.velocity, #[verifier::truncate] (gate as u16)));
            }
        }
        proof {
            assert(out@ =~= pattern_notes(steps@, ch, offset, tps, i as int + 1));
        }
        i = i + 1;
    }
    out
}

/// The note-on and note-off of each note: `(tick, [0x90 | ch, pitch,
/// vel])` and `(tick + length, [0x80 | ch, pitch, 0])`.
pub open spec fn note_pairs(notes: Seq<(u32, u8, u8, u8, u16)>) -> Seq<(u32, Seq<u8>)>
    decreases notes.len(),
{
    if notes.len() == 0 {
        Seq::empty()
    } else {
        let e = notes.last();
        note_pairs(notes.drop_last()) + seq![
            (e.0, seq![0x90u8 | e.1, e.2, e.3]),
            ((e.0 + e.4) as u32, seq![0x80u8 | e.1, e.2, 0u8]),
        ]
    }
}

/// The messages of timed events, by view.
pub open spec fn timed_view(v: Seq<(u32, Vec<u8>)>) -> Seq<(u32, Seq<u8>)> {
    v.map_values(|e: (u32, Vec<u8>)| (e.0, e.1@))
}

/// Ordered by tick.
pub open spec fn by_tick(s: Seq<(u32, Seq<u8>)>) -> bool {
    forall|i: int, j: int| 0 <= i < j < s.len() ==> s[i].0 <= s[j].0
}

/// The note-on and note-off messages of `notes`, ordered by tick (events
/// on one tick keep no promised order).
pub fn note_messages(notes: &[(u32, u8, u8, u8, u16)]) -> (r: Vec<(u32, Vec<u8>)>)
    requires
        forall|i: int| 0 <= i < notes@.len() ==> (#[trigger] notes@[i]).0 + notes@[i].4 <= u32::MAX,
    ensures
        timed_view(r@).to_multiset() == note_pairs(notes@).to_multiset(),
        by_tick(timed_view(r@)),
{
    let mut raw: Vec<(u32, Vec<u8>)> = Vec::new();
    let mut i: usize = 0;
    while i < notes.len()
        invariant
            i <= notes@.len(),
            forall|k: int| 0 <= k < notes@.len() ==> (#[trigger] notes@[k]).0 + notes@[k].4 <= u32::MAX,
            timed_view(raw@) == note_pairs(notes@.take(i as int)),
        decreases notes@.len() - i,
    {
        let (tick, ch, pitch, vel, gate) = notes[i];
        proof {
            assert(notes@[i as int].0 + notes@[i as int].4 <= u32::MAX);
        }
        let ghost before = raw@;
        raw.push((tick, vec![0x90u8 | ch, pitch, vel]));
        raw.push((tick + gate as u32, vec![0x80u8 | ch, pitch, 0]));
        proof {
            let t = notes@.take(i as int + 1);
            assert(t.drop_last() =~= notes@.take(i as int));
            assert(timed_view(raw@) =~= note_pairs(t));
        }
        i = i + 1;
    }
    proof {
        assert(notes@.take(notes@.len() as int) =~= notes@);
    }
    sort_by_tick(raw)
}

/// The events ordered by tick, keeping events on one tick in their order.
pub(crate) fn sort_by_tick(v: Vec<(u32, Vec<u8>)>) -> (r: Vec<(u32, Vec<u8>)>)
    ensures
        timed_view(r@).to_multiset() == timed_view(v@).to_multiset(),
        by_tick(timed_view(r@)),
{
    let mut out: Vec<(u32, Vec<u8>)> = Vec::new();
    let mut src = v;
    let ghost all = timed_view(src@);
    let ghost mut done: Seq<(u32, Seq<u8>)> = Seq::empty();
    proof {
        assert(all =~= done + timed_view(src@));
        assert(timed_view(out@) =~= done);
    }
    while src.len() > 0
        invariant
            all == done + timed_view(src@),
            timed_view(out@).to_multiset() == done.to_multiset(),
            by_tick(timed_view(out@)),
        decreases src@.len(),
    {
        let ghost prev = src@;
        let x = src.remove(0);
        let ghost xv = (x.0, x.1@);
        proof {
            assert(timed_view(prev) =~= seq![xv] + timed_view(src@));
            assert(all =~= done.push(xv) + timed_view(src@));
        }
        let ghost before = timed_view(out@);
        let mut k: usize = out.len();
        while k > 0 && x.0 < out[k - 1].0
            invariant
                k <= out@.len(),
                timed_view(out@) == before,
                before.len() == out@.len(),
                forall|j: int| k <= j < before.len() ==> x.0 < #[trigger] before[j].0,
            decreases k,
        {
            proof {
                assert(before[k - 1] == (out@[k - 1].0, out@[k - 1].1@));
            }
            k = k - 1;
        }
        proof {
            if k > 0 {
                assert(before[k - 1] == (out@[k - 1].0, out@[k - 1].1@));
            }
        }
        out.insert(k, x);
        proof {
            let tv = timed_view(out@);
            assert(tv =~= before.insert(k as int, xv));
            vstd::seq_lib::to_multiset_insert(before, k as int, xv);
            assert(done.push(xv).to_multiset() =~= done.to_multiset().insert(xv)) by {
                done.to_multiset_ensures();
            }
            assert forall|a: int, b: int| 0 <= a < b < tv.len() implies tv[a].0 <= tv[b].0 by {
                if b < k {
                    assert(tv[a] == before[a] && tv[b] == before[b]);
                } else if b == k as int {
                    assert(tv[b] == xv && tv[a] == before[a]);
                } else if a == k as int {
                    assert(tv[a] == xv && tv[b] == before[b - 1]);
                } else if a < k {
                    assert(tv[a] == before[a] && tv[b] == before[b - 1]);
                } else {
                    assert(tv[a] == before[a - 1] && tv[b] == before[b - 1]);
                }
            }
            done = done.push(xv);
        }
    }
    proof {
        assert(done =~= all);
    }
    out
}

} // verus!
