//! The demonstration live set's musical content: its patterns, which matrix
//! row plays which, arranger tracks, automation lanes, scenes, MIDI ports
//! and OSC routes. (Tempo and mixer levels are set by the application.)

use crate::note::Note;
use crate::pattern::{is_blank, Pattern};
use crate::project::{AutomationLane, MidiPort, OscRoute, Scene, Track};
use vstd::prelude::*;
use vstd::string::*;

verus! {

/// A step note: name, velocity and gate set, everything else default.
pub open spec fn is_step_note(n: Note, name: Seq<char>, velocity: u8, gate: u16) -> bool {
    &&& n.note@ == name
    &&& n.velocity == velocity
    &&& n.gate == gate
    &&& (Note { gate: 100, ..n }).is_default_payload()
}

/// A note named `name` with this velocity and gate, otherwise default.
pub fn step_note(name: &str, velocity: u8, gate: u16) -> (n: Note)
    ensures
        is_step_note(n, name@, velocity, gate),
{
    let mut n = Note::with_name(String::from_str(name), velocity);
    n.gate = gate;
    n
}

/// The last entry of `table[..k]` placing a note on step `i`, or -1.
pub open spec fn placed_at(table: Seq<(usize, &str, u8, u16)>, k: int, i: int) -> int
    decreases k,
{
    if k <= 0 {
        -1
    } else if table[k - 1].0 == i {
        k - 1
    } else {
        placed_at(table, k - 1, i)
    }
}

/// A pattern named `name` of `len` steps with the notes of `table`
/// (`(step, note, velocity, gate)`, later entries winning) on its steps; the
/// other steps stay empty and entries past the end are ignored.
pub fn demo_pattern(name: &str, len: usize, table: &[(usize, &str, u8, u16)]) -> (p: Pattern)
    requires
        1 <= len <= crate::pattern::MAX_STEPS,
    ensures
        p.name@ == name@,
        p.length == len,
        p.steps@.len() == len,
        forall|i: int|
            0 <= i < len ==> {
                let k = placed_at(table@, table@.len() as int, i);
                if k < 0 {
                    is_blank(#[trigger] p.steps@[i])
                } else {
                    is_step_note(p.steps@[i], table@[k].1@, table@[k].2, table@[k].3)
                }
            },
{
    let mut p = Pattern::new(String::from_str(name), len);
    let mut k: usize = 0;
    while k < table.len()
        invariant
            k <= table@.len(),
            p.name@ == name@,
            p.length == len,
            p.steps@.len() == len,
            forall|i: int|
                0 <= i < len ==> {
                    let j = placed_at(table@, k as int, i);
                    if j < 0 {
                        is_blank(#[trigger] p.steps@[i])
                    } else {
                        is_step_note(p.steps@[i], table@[j].1@, table@[j].2, table@[j].3)
                    }
                },
        decreases table@.len() - k,
    {
        let e = table[k];
        let n = step_note(e.1, e.2, e.3);
        p.set_step(e.0, n);
        k = k + 1;
    }
    p
}

/// A table whose entry `k` is for step `k` places each step `i < m` by entry
/// `i`.
proof fn lemma_placed_at_in_order(table: Seq<(usize, &str, u8, u16)>, m: int, i: int)
    requires
        0 <= m <= table.len(),
        forall|k: int| 0 <= k < table.len() ==> (#[trigger] table[k]).0 == k,
    ensures
        placed_at(table, m, i) == if 0 <= i < m {
            i
        } else {
            -1
        },
    decreases m,
{
    if m > 0 {
        assert(table[m - 1].0 == m - 1);
        lemma_placed_at_in_order(table, m - 1, i);
    }
}

/// The bass line's note names, step by step.
pub open spec fn bass_names() -> Seq<Seq<char>> {
    seq!["C-2"@, "---"@, "---"@, "G-2"@, "---"@, "A#2"@, "---"@, "---"@, "C-2"@, "---"@, "D-2"@, "---"@, "F-2"@, "---"@, "---"@, "---"@]
}

/// The sequence line's note names, step by step.
pub open spec fn seq_names() -> Seq<Seq<char>> {
    seq!["E-3"@, "G-3"@, "A-3"@, "C-4"@, "E-3"@, "D-3"@, "B-2"@, "A-2"@, "E-3"@, "G-3"@, "A-3"@, "C-4"@, "G-3"@, "E-3"@, "D-3"@, "C-3"@]
}

/// The arpeggio's note names, step by step.
pub open spec fn arp_names() -> Seq<Seq<char>> {
    seq!["C-4"@, "E-4"@, "G-4"@, "B-4"@, "C-5"@, "B-4"@, "G-4"@, "E-4"@, "C-4"@, "E-4"@, "G-4"@, "B-4"@, "A-4"@, "G-4"@, "F-4"@, "E-4"@]
}

/// The seven demo patterns, keyed by name: KCK01 (C-1 at 110 on every
/// fourth step), SNR01 (D-1 at 100 on steps 4 and 12), HAT01 (F#1 on every
/// step, 90 on even steps and 60 on odd ones), BASS1, SEQ01 and ARP01 (a note
/// on every step, from [`bass_names`], [`seq_names`] and [`arp_names`]; ARP01
/// at half gate), all of 16 steps, and PAD01 of 32 steps (C-3, E-3, G-3, A-3
/// at double gate on steps 0, 8, 16 and 24).
pub fn demo_patterns() -> (r: Vec<(String, Pattern)>)
    ensures
        r@.len() == 7,
        r@[0].0@ == "KCK01"@ && r@[1].0@ == "SNR01"@ && r@[2].0@ == "HAT01"@ && r@[3].0@ == "BASS1"@
            && r@[4].0@ == "SEQ01"@ && r@[5].0@ == "ARP01"@ && r@[6].0@ == "PAD01"@,
        forall|i: int| 0 <= i < 7 ==> (#[trigger] r@[i]).1.name@ == r@[i].0@,
        forall|i: int| 0 <= i < 6 ==> (#[trigger] r@[i]).1.length == 16 && r@[i].1.steps@.len() == 16,
        r@[6].1.length == 32 && r@[6].1.steps@.len() == 32,
        forall|i: int|
            0 <= i < 16 ==> if i % 4 == 0 {
                is_step_note(#[trigger] r@[0].1.steps@[i], "C-1"@, 110, 100)
            } else {
                is_blank(r@[0].1.steps@[i])
            },
        forall|i: int|
            0 <= i < 16 ==> if i == 4 || i == 12 {
                is_step_note(#[trigger] r@[1].1.steps@[i], "D-1"@, 100, 100)
            } else {
                is_blank(r@[1].1.steps@[i])
            },
        forall|i: int|
            0 <= i < 16 ==> is_step_note(
                #[trigger] r@[2].1.steps@[i],
                "F#1"@,
                if i % 2 == 0 {
                    90
                } else {
                    60
                },
                100,
            ),
        forall|i: int| 0 <= i < 16 ==> is_step_note(#[trigger] r@[3].1.steps@[i], bass_names()[i], 95, 100),
        forall|i: int| 0 <= i < 16 ==> is_step_note(#[trigger] r@[4].1.steps@[i], seq_names()[i], 85, 100),
        forall|i: int| 0 <= i < 16 ==> is_step_note(#[trigger] r@[5].1.steps@[i], arp_names()[i], 80, 50),
        is_step_note(r@[6].1.steps@[0], "C-3"@, 70, 200),
        is_step_note(r@[6].1.steps@[8], "E-3"@, 65, 200),
        is_step_note(r@[6].1.steps@[16], "G-3"@, 68, 200),
        is_step_note(r@[6].1.steps@[24], "A-3"@, 65, 200),
        forall|i: int| 0 <= i < 32 && i % 8 != 0 ==> is_blank(#[trigger] r@[6].1.steps@[i]),
{
    let mut r: Vec<(String, Pattern)> = Vec::new();
    let kck: [(usize, &str, u8, u16); 4] = [(0, "C-1", 110, 100), (4, "C-1", 110, 100), (8, "C-1", 110, 100), (12, "C-1", 110, 100)];
    let kp = demo_pattern("KCK01", 16, &kck);
    proof {
        assert forall|i: int| 0 <= i < 16 implies if i % 4 == 0 {
            is_step_note(#[trigger] kp.steps@[i], "C-1"@, 110, 100)
        } else {
            is_blank(kp.steps@[i])
        } by {
            reveal_with_fuel(placed_at, 5);
            assert(kck@[0].0 == 0 && kck@[1].0 == 4 && kck@[2].0 == 8 && kck@[3].0 == 12);
        }
    }
    r.push((String::from_str("KCK01"), kp));
    let snr: [(usize, &str, u8, u16); 2] = [(4, "D-1", 100, 100), (12, "D-1", 100, 100)];
    let sp = demo_pattern("SNR01", 16, &snr);
    proof {
        assert forall|i: int| 0 <= i < 16 implies if i == 4 || i == 12 {
            is_step_note(#[trigger] sp.steps@[i], "D-1"@, 100, 100)
        } else {
            is_blank(sp.steps@[i])
        } by {
            reveal_with_fuel(placed_at, 3);
            assert(snr@[0].0 == 4 && snr@[1].0 == 12);
        }
    }
    r.push((String::from_str("SNR01"), sp));
    let mut hat: Vec<(usize, &str, u8, u16)> = Vec::new();
    let mut s: usize = 0;
    while s < 16
        invariant
            s <= 16,
            hat@.len() == s,
            forall|k: int|
                0 <= k < s ==> (#[trigger] hat@[k]).0 == k && hat@[k].1@ == "F#1"@ && hat@[k].2 == (if k % 2 == 0 {
                    90u8
                } else {
                    60u8
                }) && hat@[k].3 == 100,
        decreases 16 - s,
    {
        hat.push((s, "F#1", if s % 2 == 0 { 90 } else { 60 }, 100));
        s = s + 1;
    }
    let hp = demo_pattern("HAT01", 16, hat.as_slice());
    proof {
        assert forall|i: int| 0 <= i < 16 implies is_step_note(
            #[trigger] hp.steps@[i],
            "F#1"@,
            if i % 2 == 0 {
                90
            } else {
                60
            },
            100,
        ) by {
            lemma_placed_at_in_order(hat@, 16, i);
        }
    }
    r.push((String::from_str("HAT01"), hp));
    let bass: [(usize, &str, u8, u16); 16] = [
        (0, "C-2", 95, 100), (1, "---", 95, 100), (2, "---", 95, 100), (3, "G-2", 95, 100),
        (4, "---", 95, 100), (5, "A#2", 95, 100), (6, "---", 95, 100), (7, "---", 95, 100),
        (8, "C-2", 95, 100), (9, "---", 95, 100), (10, "D-2", 95, 100), (11, "---", 95, 100),
        (12, "F-2", 95, 100), (13, "---", 95, 100), (14, "---", 95, 100), (15, "---", 95, 100),
    ];
    let bass_p = demo_pattern("BASS1", 16, &bass);
    proof {
        assert forall|k: int| 0 <= k < 16 implies (#[trigger] bass@[k]).0 == k && bass@[k].1@ == bass_names()[k]
            && bass@[k].2 == 95 && bass@[k].3 == 100 by {}
        assert forall|i: int| 0 <= i < 16 implies is_step_note(#[trigger] bass_p.steps@[i], bass_names()[i], 95, 100) by {
            lemma_placed_at_in_order(bass@, 16, i);
        }
    }
    r.push((String::from_str("BASS1"), bass_p));
    let seqn: [(usize, &str, u8, u16); 16] = [
        (0, "E-3", 85, 100), (1, "G-3", 85, 100), (2, "A-3", 85, 100), (3, "C-4", 85, 100),
        (4, "E-3", 85, 100), (5, "D-3", 85, 100), (6, "B-2", 85, 100), (7, "A-2", 85, 100),
        (8, "E-3", 85, 100), (9, "G-3", 85, 100), (10, "A-3", 85, 100), (11, "C-4", 85, 100),
        (12, "G-3", 85, 100), (13, "E-3", 85, 100), (14, "D-3", 85, 100), (15, "C-3", 85, 100),
    ];
    let seqn_p = demo_pattern("SEQ01", 16, &seqn);
    proof {
        assert forall|k: int| 0 <= k < 16 implies (#[trigger] seqn@[k]).0 == k && seqn@[k].1@ == seq_names()[k]
            && seqn@[k].2 == 85 && seqn@[k].3 == 100 by {}
        assert forall|i: int| 0 <= i < 16 implies is_step_note(#[trigger] seqn_p.steps@[i], seq_names()[i], 85, 100) by {
            lemma_placed_at_in_order(seqn@, 16, i);
        }
    }
    r.push((String::from_str("SEQ01"), seqn_p));
    let arp: [(usize, &str, u8, u16); 16] = [
        (0, "C-4", 80, 50), (1, "E-4", 80, 50), (2, "G-4", 80, 50), (3, "B-4", 80, 50),
        (4, "C-5", 80, 50), (5, "B-4", 80, 50), (6, "G-4", 80, 50), (7, "E-4", 80, 50),
        (8, "C-4", 80, 50), (9, "E-4", 80, 50), (10, "G-4", 80, 50), (11, "B-4", 80, 50),
        (12, "A-4", 80, 50), (13, "G-4", 80, 50), (14, "F-4", 80, 50), (15, "E-4", 80, 50),
    ];
    let arp_p = demo_pattern("ARP01", 16, &arp);
    proof {
        assert forall|k: int| 0 <= k < 16 implies (#[trigger] arp@[k]).0 == k && arp@[k].1@ == arp_names()[k]
            && arp@[k].2 == 80 && arp@[k].3 == 50 by {}
        assert forall|i: int| 0 <= i < 16 implies is_step_note(#[trigger] arp_p.steps@[i], arp_names()[i], 80, 50) by {
            lemma_placed_at_in_order(arp@, 16, i);
        }
    }
    r.push((String::from_str("ARP01"), arp_p));
    let pad: [(usize, &str, u8, u16); 4] = [(0, "C-3", 70, 200), (8, "E-3", 65, 200), (16, "G-3", 68, 200), (24, "A-3", 65, 200)];
    let pp = demo_pattern("PAD01", 32, &pad);
    proof {
        reveal_with_fuel(placed_at, 5);
        assert(pad@[0].0 == 0 && pad@[1].0 == 8 && pad@[2].0 == 16 && pad@[3].0 == 24);
        assert(is_step_note(pp.steps@[0], "C-3"@, 70, 200));
        assert(is_step_note(pp.steps@[8], "E-3"@, 65, 200));
        assert(is_step_note(pp.steps@[16], "G-3"@, 68, 200));
        assert(is_step_note(pp.steps@[24], "A-3"@, 65, 200));
        assert forall|i: int| 0 <= i < 32 && i % 8 != 0 implies is_blank(#[trigger] pp.steps@[i]) by {
            reveal_with_fuel(placed_at, 5);
        }
    }
    r.push((String::from_str("PAD01"), pp));
    r
}

/// Which pattern the first clip of each matrix row plays.
pub fn demo_matrix() -> (r: Vec<(String, String)>)
    ensures
        r@.len() == 7,
        r@[0].0@ == "A"@ && r@[0].1@ == "KCK01"@,
        r@[1].0@ == "B"@ && r@[1].1@ == "SNR01"@,
        r@[2].0@ == "C"@ && r@[2].1@ == "HAT01"@,
        r@[3].0@ == "D"@ && r@[3].1@ == "BASS1"@,
        r@[4].0@ == "E"@ && r@[4].1@ == "SEQ01"@,
        r@[5].0@ == "F"@ && r@[5].1@ == "ARP01"@,
        r@[6].0@ == "G"@ && r@[6].1@ == "PAD01"@,
{
    let mut r: Vec<(String, String)> = Vec::new();
    r.push((String::from_str("A"), String::from_str("KCK01")));
    r.push((String::from_str("B"), String::from_str("SNR01")));
    r.push((String::from_str("C"), String::from_str("HAT01")));
    r.push((String::from_str("D"), String::from_str("BASS1")));
    r.push((String::from_str("E"), String::from_str("SEQ01")));
    r.push((String::from_str("F"), String::from_str("ARP01")));
    r.push((String::from_str("G"), String::from_str("PAD01")));
    r
}

/// An arranger block starting at bar `start`, `len` bars long, playing
/// pattern `name`.
pub open spec fn block_is(b: (u32, u32, String), start: u32, len: u32, name: Seq<char>) -> bool {
    b.0 == start && b.1 == len && b.2@ == name
}

fn track_with(name: &str, blocks: &[(u32, u32, &str)]) -> (t: Track)
    ensures
        t.name@ == name@,
        !t.mute,
        t.blocks@.len() == blocks@.len(),
        forall|i: int|
            0 <= i < blocks@.len() ==> (#[trigger] t.blocks@[i]).0 == blocks@[i].0 && t.blocks@[i].1 == blocks@[i].1
                && t.blocks@[i].2@ == blocks@[i].2@,
{
    let mut t = Track::new(String::from_str(name));
    let mut i: usize = 0;
    while i < blocks.len()
        invariant
            i <= blocks@.len(),
            t.name@ == name@,
            !t.mute,
            t.blocks@.len() == i,
            forall|j: int|
                0 <= j < i ==> (#[trigger] t.blocks@[j]).0 == blocks@[j].0 && t.blocks@[j].1 == blocks@[j].1
                    && t.blocks@[j].2@ == blocks@[j].2@,
        decreases blocks@.len() - i,
    {
        let b = blocks[i];
        t.blocks.push((b.0, b.1, String::from_str(b.2)));
        i = i + 1;
    }
    t
}

/// The arranger tracks: intro, build, drop, break and outro, with their
/// `(start_bar, length_bars, pattern)` blocks.
pub fn demo_tracks() -> (r: Vec<Track>)
    ensures
        r@.len() == 5,
        forall|t: int| 0 <= t < 5 ==> !(#[trigger] r@[t]).mute,
        r@[0].name@ == "INTRO"@ && r@[0].blocks@.len() == 2,
        block_is(r@[0].blocks@[0], 0, 4, "KCK01"@) && block_is(r@[0].blocks@[1], 0, 4, "HAT01"@),
        r@[1].name@ == "BUILD"@ && r@[1].blocks@.len() == 2,
        block_is(r@[1].blocks@[0], 4, 8, "BASS1"@) && block_is(r@[1].blocks@[1], 4, 8, "SEQ01"@),
        r@[2].name@ == "DROP"@ && r@[2].blocks@.len() == 3,
        block_is(r@[2].blocks@[0], 12, 8, "KCK01"@) && block_is(r@[2].blocks@[1], 12, 8, "BASS1"@)
            && block_is(r@[2].blocks@[2], 12, 8, "ARP01"@),
        r@[3].name@ == "BREAK"@ && r@[3].blocks@.len() == 2,
        block_is(r@[3].blocks@[0], 20, 4, "PAD01"@) && block_is(r@[3].blocks@[1], 20, 4, "SEQ01"@),
        r@[4].name@ == "OUTRO"@ && r@[4].blocks@.len() == 2,
        block_is(r@[4].blocks@[0], 24, 8, "KCK01"@) && block_is(r@[4].blocks@[1], 24, 8, "BASS1"@),
{
    let mut r: Vec<Track> = Vec::new();
    let intro: [(u32, u32, &str); 2] = [(0, 4, "KCK01"), (0, 4, "HAT01")];
    r.push(track_with("INTRO", &intro));
    let build: [(u32, u32, &str); 2] = [(4, 8, "BASS1"), (4, 8, "SEQ01")];
    r.push(track_with("BUILD", &build));
    let drop: [(u32, u32, &str); 3] = [(12, 8, "KCK01"), (12, 8, "BASS1"), (12, 8, "ARP01")];
    r.push(track_with("DROP", &drop));
    let brk: [(u32, u32, &str); 2] = [(20, 4, "PAD01"), (20, 4, "SEQ01")];
    r.push(track_with("BREAK", &brk));
    let outro: [(u32, u32, &str); 2] = [(24, 8, "KCK01"), (24, 8, "BASS1")];
    r.push(track_with("OUTRO", &outro));
    r
}

fn lane_with(name: &str, target: &str, points: &[(u32, u8)]) -> (l: AutomationLane)
    ensures
        l.name@ == name@,
        l.target@ == target@,
        l.points@ == points@,
        l.enabled,
{
    let mut l = AutomationLane::new(String::from_str(name), String::from_str(target));
    let mut i: usize = 0;
    while i < points.len()
        invariant
            i <= points@.len(),
            l.name@ == name@,
            l.target@ == target@,
            l.enabled,
            l.points@ == points@.take(i as int),
        decreases points@.len() - i,
    {
        l.points.push(points[i]);
        proof {
            assert(points@.take(i + 1) =~= points@.take(i as int).push(points@[i as int]));
        }
        i = i + 1;
    }
    proof {
        assert(points@.take(points@.len() as int) =~= points@);
    }
    l
}

/// The automation lanes: a filter sweep on CC 74 of output 4, a reverb send
/// on output 5 and a tempo lane.
pub fn demo_automation() -> (r: Vec<AutomationLane>)
    ensures
        r@.len() == 3,
        r@[0].name@ == "FILTER"@ && r@[0].target@ == "channel.4.cc74"@ && r@[0].points@ == seq![
            (0u32, 20u8),
            (4, 40),
            (8, 80),
            (12, 127),
            (20, 60),
            (28, 20),
        ],
        r@[1].name@ == "REVERB"@ && r@[1].target@ == "channel.5.send_a"@ && r@[1].points@ == seq![
            (0u32, 0u8),
            (8, 40),
            (16, 80),
            (24, 40),
            (32, 0),
        ],
        r@[2].name@ == "TEMPO"@ && r@[2].target@ == "project.bpm"@ && r@[2].points@ == seq![(0u32, 64u8), (16, 80), (32, 64)],
{
    let mut r: Vec<AutomationLane> = Vec::new();
    let f: [(u32, u8); 6] = [(0, 20), (4, 40), (8, 80), (12, 127), (20, 60), (28, 20)];
    r.push(lane_with("FILTER", "channel.4.cc74", &f));
    let v: [(u32, u8); 5] = [(0, 0), (8, 40), (16, 80), (24, 40), (32, 0)];
    r.push(lane_with("REVERB", "channel.5.send_a", &v));
    let t: [(u32, u8); 3] = [(0, 64), (16, 80), (32, 64)];
    r.push(lane_with("TEMPO", "project.bpm", &t));
    proof {
        assert(f@ =~= seq![(0u32, 20u8), (4, 40), (8, 80), (12, 127), (20, 60), (28, 20)]);
        assert(v@ =~= seq![(0u32, 0u8), (8, 40), (16, 80), (24, 40), (32, 0)]);
        assert(t@ =~= seq![(0u32, 64u8), (16, 80), (32, 64)]);
    }
    r
}

fn scene_with(name: &str, clips: &[(usize, &str)]) -> (s: Scene)
    requires
        forall|i: int| 0 <= i < clips@.len() ==> (#[trigger] clips@[i]).0 < 8,
    ensures
        s.name@ == name@,
        s.active_clips@.len() == 8,
        forall|i: int| 0 <= i < clips@.len() ==> (#[trigger] s.active_clips@[clips@[i].0 as int]) is Some,
{
    let mut s = Scene::new(String::from_str(name));
    let mut i: usize = 0;
    while i < clips.len()
        invariant
            i <= clips@.len(),
            forall|j: int| 0 <= j < clips@.len() ==> (#[trigger] clips@[j]).0 < 8,
            s.name@ == name@,
            s.active_clips@.len() == 8,
            forall|j: int| 0 <= j < i ==> (#[trigger] s.active_clips@[clips@[j].0 as int]) is Some,
        decreases clips@.len() - i,
    {
        let c = clips[i];
        s.active_clips.set(c.0, Some(String::from_str(c.1)));
        i = i + 1;
    }
    s
}

/// The scenes: intro, build, drop, break and outro, with the patterns active
/// per row.
pub fn demo_scenes() -> (r: Vec<Scene>)
    ensures
        r@.len() == 5,
        r@[0].name@ == "INTRO"@ && r@[1].name@ == "BUILD"@ && r@[2].name@ == "DROP"@ && r@[3].name@ == "BREAK"@
            && r@[4].name@ == "OUTRO"@,
        forall|i: int| 0 <= i < 5 ==> (#[trigger] r@[i]).active_clips@.len() == 8,
{
    let mut r: Vec<Scene> = Vec::new();
    let a: [(usize, &str); 2] = [(0, "KCK01"), (2, "HAT01")];
    r.push(scene_with("INTRO", &a));
    let b: [(usize, &str); 3] = [(0, "KCK01"), (1, "SNR01"), (3, "BASS1")];
    r.push(scene_with("BUILD", &b));
    let c: [(usize, &str); 6] = [(0, "KCK01"), (1, "SNR01"), (2, "HAT01"), (3, "BASS1"), (4, "SEQ01"), (5, "ARP01")];
    r.push(scene_with("DROP", &c));
    let d: [(usize, &str); 2] = [(5, "ARP01"), (6, "PAD01")];
    r.push(scene_with("BREAK", &d));
    let e: [(usize, &str); 2] = [(0, "KCK01"), (3, "BASS1")];
    r.push(scene_with("OUTRO", &e));
    r
}

fn ports(list: &[(&str, u8)]) -> (r: Vec<MidiPort>)
    ensures
        r@.len() == list@.len(),
        forall|i: int| 0 <= i < list@.len() ==> (#[trigger] r@[i]).name@ == list@[i].0@ && r@[i].channel == list@[i].1 && r@[i].enabled,
{
    let mut r: Vec<MidiPort> = Vec::new();
    let mut i: usize = 0;
    while i < list.len()
        invariant
            i <= list@.len(),
            r@.len() == i,
            forall|j: int| 0 <= j < i ==> (#[trigger] r@[j]).name@ == list@[j].0@ && r@[j].channel == list@[j].1 && r@[j].enabled,
        decreases list@.len() - i,
    {
        let p = list[i];
        r.push(MidiPort::new(String::from_str(p.0), p.1));
        i = i + 1;
    }
    r
}

/// The MIDI inputs the demo set lists.
pub fn demo_midi_inputs() -> (r: Vec<MidiPort>)
    ensures
        r@.len() == 4,
        r@[0].name@ == "USB MIDI Interface"@ && r@[0].channel == 1,
        r@[1].name@ == "Arturia KeyStep"@ && r@[1].channel == 2,
        r@[2].name@ == "KORG nanoKONTROL2"@ && r@[2].channel == 3,
        r@[3].name@ == "IAC Driver Bus 1"@ && r@[3].channel == 1,
{
    let l: [(&str, u8); 4] = [("USB MIDI Interface", 1), ("Arturia KeyStep", 2), ("KORG nanoKONTROL2", 3), ("IAC Driver Bus 1", 1)];
    ports(&l)
}

/// The MIDI outputs the demo set lists.
pub fn demo_midi_outputs() -> (r: Vec<MidiPort>)
    ensures
        r@.len() == 5,
        r@[0].name@ == "USB MIDI Interface"@ && r@[0].channel == 1,
        r@[1].name@ == "Elektron Digitakt"@ && r@[1].channel == 10,
        r@[2].name@ == "Roland TR-8S"@ && r@[2].channel == 10,
        r@[3].name@ == "IAC Driver Bus 1"@ && r@[3].channel == 1,
        r@[4].name@ == "Ableton Live (loopback)"@ && r@[4].channel == 1,
{
    let l: [(&str, u8); 5] = [
        ("USB MIDI Interface", 1),
        ("Elektron Digitakt", 10),
        ("Roland TR-8S", 10),
        ("IAC Driver Bus 1", 1),
        ("Ableton Live (loopback)", 1),
    ];
    ports(&l)
}

/// The OSC routes of the demo set.
pub fn demo_osc_routes() -> (r: Vec<OscRoute>)
    ensures
        r@.len() == 4,
        r@[0].address@ == "/seq/bpm"@ && r@[0].target@ == "project.bpm"@,
        r@[1].address@ == "/seq/play"@ && r@[1].target@ == "engine.play"@,
        r@[2].address@ == "/seq/stop"@ && r@[2].target@ == "engine.stop"@,
        r@[3].address@ == "/mixer/vol/*"@ && r@[3].target@ == "channel.volume"@,
{
    let mut r: Vec<OscRoute> = Vec::new();
    r.push(OscRoute::new(String::from_str("/seq/bpm"), String::from_str("project.bpm")));
    r.push(OscRoute::new(String::from_str("/seq/play"), String::from_str("engine.play")));
    r.push(OscRoute::new(String::from_str("/seq/stop"), String::from_str("engine.stop")));
    r.push(OscRoute::new(String::from_str("/mixer/vol/*"), String::from_str("channel.volume")));
    r
}

} // verus!
