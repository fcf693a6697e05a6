//! Sequencer steps: tracker-style note names ("C-4", "A#5", "---") and the
//! per-step note record with its expressive payload.

use crate::rational::RationalTime;
use vstd::prelude::*;
use vstd::string::*;

verus! {

/// Tracker note-name prefixes, indexed by semitone (0 = C).
pub const NOTE_NAMES: [&'static str; 12] = ["C-", "C#", "D-", "D#", "E-", "F-", "F#", "G-", "G#", "A-", "A#", "B-"];

/// The two-character prefix of semitone `i` (0 = C ... 11 = B).
pub open spec fn semitone_name(i: int) -> Seq<char> {
    if i == 0 {
        seq!['C', '-']
    } else if i == 1 {
        seq!['C', '#']
    } else if i == 2 {
        seq!['D', '-']
    } else if i == 3 {
        seq!['D', '#']
    } else if i == 4 {
        seq!['E', '-']
    } else if i == 5 {
        seq!['F', '-']
    } else if i == 6 {
        seq!['F', '#']
    } else if i == 7 {
        seq!['G', '-']
    } else if i == 8 {
        seq!['G', '#']
    } else if i == 9 {
        seq!['A', '-']
    } else if i == 10 {
        seq!['A', '#']
    } else {
        seq!['B', '-']
    }
}

/// The semitone whose two-character prefix is `p`, if any.
pub open spec fn semitone_of(p: Seq<char>) -> Option<int> {
    if p.len() != 2 {
        None
    } else if p[1] == '-' {
        if p[0] == 'C' {
            Some(0)
        } else if p[0] == 'D' {
            Some(2)
        } else if p[0] == 'E' {
            Some(4)
        } else if p[0] == 'F' {
            Some(5)
        } else if p[0] == 'G' {
            Some(7)
        } else if p[0] == 'A' {
            Some(9)
        } else if p[0] == 'B' {
            Some(11)
        } else {
            None
        }
    } else if p[1] == '#' {
        if p[0] == 'C' {
            Some(1)
        } else if p[0] == 'D' {
            Some(3)
        } else if p[0] == 'F' {
            Some(6)
        } else if p[0] == 'G' {
            Some(8)
        } else if p[0] == 'A' {
            Some(10)
        } else {
            None
        }
    } else {
        None
    }
}

/// The ASCII digit for `d` in `0..10`.
pub open spec fn digit_char(d: int) -> char {
    if d == 0 {
        '0'
    } else if d == 1 {
        '1'
    } else if d == 2 {
        '2'
    } else if d == 3 {
        '3'
    } else if d == 4 {
        '4'
    } else if d == 5 {
        '5'
    } else if d == 6 {
        '6'
    } else if d == 7 {
        '7'
    } else if d == 8 {
        '8'
    } else {
        '9'
    }
}

/// Decimal spelling of `n`, most significant digit first.
pub open spec fn decimal(n: nat) -> Seq<char>
    decreases n,
{
    if n < 10 {
        seq![digit_char(n as int)]
    } else {
        decimal(n / 10).push(digit_char((n % 10) as int))
    }
}

pub open spec fn is_digit(c: char) -> bool {
    '0' <= c <= '9'
}

/// Value of a string of decimal digits (any length).
pub open spec fn digits_value(s: Seq<char>) -> int
    decreases s.len(),
{
    if s.len() == 0 {
        0
    } else {
        10 * digits_value(s.drop_last()) + ((s.last() as int) - ('0' as int))
    }
}

pub open spec fn all_digits(s: Seq<char>) -> bool {
    forall|i: int| 0 <= i < s.len() ==> is_digit(#[trigger] s[i])
}

/// What parsing `s` as a `u8` gives: an optional `+`, then one or more
/// decimal digits whose value is at most 255.
pub open spec fn parse_u8_spec(s: Seq<char>) -> Option<int> {
    let d = if s.len() > 0 && s[0] == '+' {
        s.skip(1)
    } else {
        s
    };
    if d.len() > 0 && all_digits(d) && digits_value(d) <= 255 {
        Some(digits_value(d))
    } else {
        None
    }
}

/// `s` is the empty-step marker `---`.
pub open spec fn is_rest(s: Seq<char>) -> bool {
    s == seq!['-', '-', '-']
}

/// The MIDI number a note name denotes before the `u8` range is applied:
/// `octave * 12 + semitone` for a recognised prefix and octave.
pub open spec fn note_value(s: Seq<char>) -> Option<int> {
    if is_rest(s) || s.len() < 3 {
        None
    } else {
        match (semitone_of(s.take(2)), parse_u8_spec(s.skip(2))) {
            (Some(semi), Some(oct)) => Some(oct * 12 + semi),
            _ => None,
        }
    }
}

/// Parsing `s` does not overflow a `u8` (octaves above 21 would).
pub open spec fn note_value_fits(s: Seq<char>) -> bool {
    note_value(s) matches Some(v) ==> v <= 255
}

/// The note name of MIDI number `m`: semitone prefix followed by the octave.
pub open spec fn midi_name(m: int) -> Seq<char> {
    semitone_name(m % 12) + decimal((m / 12) as nat)
}

/// Errors of note construction.
#[derive(Debug, Clone)]
pub enum NoteError {
    InvalidNoteName(String),
    MidiOutOfRange(u8),
}

/// A single sequencer step / note event.
#[derive(Debug, PartialEq, Eq, Hash)]
pub struct Note {
    /// Primary note name like "C-4" or "---" for an empty step.
    pub note: String,
    /// Instrument/patch index (0-based).
    pub instrument: u8,
    /// Note velocity 0-127.
    pub velocity: u8,
    /// Effect command 1 (two hex chars or "--").
    pub fx1: String,
    /// Effect command 2.
    pub fx2: String,
    /// MIDI CC 01 (modulation) value 0-127.
    pub cc01: u8,
    /// MIDI CC 74 (filter cutoff) value 0-127.
    pub cc74: u8,
    /// Gate time 0-400 (100 = 100% of step length).
    pub gate: u16,
    /// Microtiming offset -99 to +99 (percent of a step).
    pub micro: i8,
    /// Trigger probability 0-100.
    pub prob: u8,
    /// Gain / volume automation 0-127.
    pub gain: u8,
    /// Stereo pan 0-127 (64 = center).
    pub pan: u8,
    /// Low-pass filter cutoff 0-127.
    pub lp: u8,
    /// High-pass filter cutoff 0-127.
    pub hp: u8,
    /// LFO depth 0-127.
    pub lfo: u8,
    /// Playback speed 0-127 (64 = normal).
    pub speed: u8,
    /// Amplitude envelope 0-127.
    pub amp: u8,
    /// Pitch bend -8192..=8191, 0 = none.
    pub pitch_bend: i16,
    /// Per-note channel pressure 0-127.
    pub pressure: u8,
    /// Per-note timbre 0-127, 64 = default.
    pub timbre: u8,
    /// Additional chord notes, parallel to `chord_velocities`.
    pub chord_notes: Vec<String>,
    /// Per-voice velocity for `chord_notes`; missing entries use `velocity`.
    pub chord_velocities: Vec<u8>,
}

impl Note {
    /// `self` and `o` hold the same values (the chord lists compared by contents).
    pub open spec fn same_as(self, o: Note) -> bool {
        &&& self.note == o.note
        &&& self.instrument == o.instrument
        &&& self.velocity == o.velocity
        &&& self.fx1 == o.fx1
        &&& self.fx2 == o.fx2
        &&& self.cc01 == o.cc01
        &&& self.cc74 == o.cc74
        &&& self.gate == o.gate
        &&& self.micro == o.micro
        &&& self.prob == o.prob
        &&& self.gain == o.gain
        &&& self.pan == o.pan
        &&& self.lp == o.lp
        &&& self.hp == o.hp
        &&& self.lfo == o.lfo
        &&& self.speed == o.speed
        &&& self.amp == o.amp
        &&& self.pitch_bend == o.pitch_bend
        &&& self.pressure == o.pressure
        &&& self.timbre == o.timbre
        &&& self.chord_notes@ == o.chord_notes@
        &&& self.chord_velocities@ == o.chord_velocities@
    }
}

impl Clone for Note {
    fn clone(&self) -> (r: Note)
        ensures
            r.same_as(*self),
    {
        let chord_notes = clone_strings(&self.chord_notes);
        let chord_velocities = self.chord_velocities.clone();
        proof {
            assert(chord_velocities@ =~= self.chord_velocities@);
        }
        Note {
            note: self.note.clone(),
            instrument: self.instrument,
            velocity: self.velocity,
            fx1: self.fx1.clone(),
            fx2: self.fx2.clone(),
            cc01: self.cc01,
            cc74: self.cc74,
            gate: self.gate,
            micro: self.micro,
            prob: self.prob,
            gain: self.gain,
            pan: self.pan,
            lp: self.lp,
            hp: self.hp,
            lfo: self.lfo,
            speed: self.speed,
            amp: self.amp,
            pitch_bend: self.pitch_bend,
            pressure: self.pressure,
            timbre: self.timbre,
            chord_notes,
            chord_velocities,
        }
    }
}

impl Note {
    /// The default step: empty (`---`) with neutral expression values.
    pub open spec fn is_default_payload(self) -> bool {
        &&& self.instrument == 0
        &&& self.fx1@ == seq!['-', '-']
        &&& self.fx2@ == seq!['-', '-']
        &&& self.cc01 == 64
        &&& self.cc74 == 32
        &&& self.gate == 100
        &&& self.micro == 0
        &&& self.prob == 100
        &&& self.gain == 100
        &&& self.pan == 64
        &&& self.lp == 127
        &&& self.hp == 0
        &&& self.lfo == 0
        &&& self.speed == 64
        &&& self.amp == 127
        &&& self.pitch_bend == 0
        &&& self.pressure == 0
        &&& self.timbre == 64
        &&& self.chord_notes@.len() == 0
        &&& self.chord_velocities@.len() == 0
    }

    /// A note named `name` with velocity `velocity` and every other field at its default.
    pub fn with_name(name: String, velocity: u8) -> (n: Note)
        ensures
            n.note == name,
            n.velocity == velocity,
            n.is_default_payload(),
    {
        let fx1 = String::from_str("--");
        let fx2 = String::from_str("--");
        proof {
            reveal_strlit("--");
            assert(fx1@ =~= seq!['-', '-']);
            assert(fx2@ =~= seq!['-', '-']);
        }
        Note {
            note: name,
            instrument: 0,
            velocity,
            fx1,
            fx2,
            cc01: 64,
            cc74: 32,
            gate: 100,
            micro: 0,
            prob: 100,
            gain: 100,
            pan: 64,
            lp: 127,
            hp: 0,
            lfo: 0,
            speed: 64,
            amp: 127,
            pitch_bend: 0,
            pressure: 0,
            timbre: 64,
            chord_notes: Vec::new(),
            chord_velocities: Vec::new(),
        }
    }

    /// Returns `true` if this step is empty (no note triggered).
    pub fn is_empty(&self) -> (r: bool)
        ensures
            r == is_rest(self.note@),
    {
        is_rest_str(self.note.as_str())
    }

    /// Construct a note from a MIDI note number (0-127).
    pub fn from_midi(midi: u8, velocity: u8) -> (r: Result<Note, NoteError>)
        ensures
            midi > 127 ==> (r matches Err(NoteError::MidiOutOfRange(m)) && m == midi),
            midi <= 127 ==> (r matches Ok(n) && n.note@ == midi_name(midi as int) && n.velocity
                == velocity && n.is_default_payload()),
    {
        if midi > 127 {
            return Err(NoteError::MidiOutOfRange(midi));
        }
        let octave = midi / 12;
        let semitone = midi % 12;
        let mut name = String::from_str(semitone_str(semitone as usize));
        name.append(octave_str(octave));
        Ok(Note::with_name(name, velocity))
    }

    /// This note's MIDI number, or `None` for an empty step or an unknown name.
    pub fn to_midi(&self) -> (r: Option<u8>)
        requires
            note_value_fits(self.note@),
        ensures
            r == note_midi(self.note@),
    {
        if self.is_empty() {
            return None;
        }
        parse_note_name(self.note.as_str())
    }

    /// `(midi_note, velocity)` if the step is active.
    pub fn note_on(&self) -> (r: Option<(u8, u8)>)
        requires
            note_value_fits(self.note@),
        ensures
            r == (match note_midi(self.note@) {
                Some(m) => Some((m, self.velocity)),
                None => None,
            }),
    {
        match self.to_midi() {
            Some(n) => Some((n, self.velocity)),
            None => None,
        }
    }

    /// Velocity of chord voice `i` (0 = primary); a voice without its own
    /// velocity uses the primary one.
    pub open spec fn voice_velocity_spec(self, i: int) -> u8 {
        if i == 0 {
            self.velocity
        } else if i - 1 < self.chord_velocities@.len() {
            self.chord_velocities@[i - 1]
        } else {
            self.velocity
        }
    }

    /// Note-on tuples for all voices: the primary note (if it sounds), then each
    /// chord note whose name parses, with its voice velocity.
    pub fn all_note_ons(&self) -> (out: Vec<(u8, u8)>)
        requires
            note_value_fits(self.note@),
            forall|i: int| 0 <= i < self.chord_notes@.len() ==> note_value_fits(#[trigger] self.chord_notes@[i]@),
        ensures
            out@ == all_note_ons_spec(*self),
    {
        let mut out: Vec<(u8, u8)> = Vec::new();
        if let Some((midi, vel)) = self.note_on() {
            out.push((midi, vel));
        }
        let mut i: usize = 0;
        while i < self.chord_notes.len()
            invariant
                0 <= i <= self.chord_notes@.len(),
                forall|j: int| 0 <= j < self.chord_notes@.len() ==> note_value_fits(#[trigger] self.chord_notes@[j]@),
                out@ == primary_on(*self) + chord_ons(*self, i as int),
            decreases self.chord_notes@.len() - i,
        {
            let m = parse_note_name(self.chord_notes[i].as_str());
            if let Some(midi) = m {
                let vel = if i < self.chord_velocities.len() {
                    self.chord_velocities[i]
                } else {
                    self.velocity
                };
                out.push((midi, vel));
            }
            proof {
                assert(chord_ons(*self, i as int + 1) == chord_ons(*self, i as int) + (match note_midi_raw(self.chord_notes@[i as int]@) {
                    Some(mm) => seq![(mm, self.voice_velocity_spec(i as int + 1))],
                    None => Seq::empty(),
                }));
            }
            i = i + 1;
        }
        out
    }

    /// Velocity for chord voice `i` (0 = primary).
    pub fn voice_velocity(&self, i: usize) -> (r: u8)
        ensures
            r == self.voice_velocity_spec(i as int),
    {
        if i == 0 {
            self.velocity
        } else if i - 1 < self.chord_velocities.len() {
            self.chord_velocities[i - 1]
        } else {
            self.velocity
        }
    }

    /// Number of sounding voices: 0 for an empty step, else 1 + chord notes.
    pub fn voice_count(&self) -> (r: usize)
        requires
            self.chord_notes@.len() < usize::MAX,
        ensures
            r == (if is_rest(self.note@) {
                0
            } else {
                1 + self.chord_notes@.len()
            }),
    {
        if self.is_empty() {
            0
        } else {
            1 + self.chord_notes.len()
        }
    }
}

impl Default for Note {
    fn default() -> (n: Note)
        ensures
            is_rest(n.note@),
            n.velocity == 100,
            n.is_default_payload(),
    {
        let name = String::from_str("---");
        proof {
            reveal_strlit("---");
            assert(name@ =~= seq!['-', '-', '-']);
        }
        Note::with_name(name, 100)
    }
}

/// A note placed at an exact rational position with an exact duration (beats).
#[derive(Debug)]
pub struct NoteEvent {
    pub start: RationalTime,
    pub duration: RationalTime,
    pub note: Note,
}

impl NoteEvent {
    pub fn new(start: RationalTime, duration: RationalTime, note: Note) -> (e: NoteEvent)
        ensures
            e.start == start,
            e.duration == duration,
            e.note == note,
    {
        NoteEvent { start, duration, note }
    }

    /// The MIDI number of the embedded note, if it sounds.
    pub fn to_midi(&self) -> (r: Option<u8>)
        requires
            note_value_fits(self.note.note@),
        ensures
            r == note_midi(self.note.note@),
    {
        self.note.to_midi()
    }
}

impl Clone for NoteEvent {
    fn clone(&self) -> (e: NoteEvent)
        ensures
            e.start == self.start,
            e.duration == self.duration,
            e.note.same_as(self.note),
    {
        NoteEvent { start: self.start, duration: self.duration, note: self.note.clone() }
    }
}

/// What [`Note::to_midi`] gives for a name: `None` for `---`, else the parsed value.
pub open spec fn note_midi(s: Seq<char>) -> Option<u8> {
    if is_rest(s) {
        None
    } else {
        note_midi_raw(s)
    }
}

/// What [`parse_note_name`] gives for a name.
pub open spec fn note_midi_raw(s: Seq<char>) -> Option<u8> {
    match note_value(s) {
        Some(v) => Some(v as u8),
        None => None,
    }
}

/// The primary note-on of `n`, as a sequence of zero or one tuples.
pub open spec fn primary_on(n: Note) -> Seq<(u8, u8)> {
    match note_midi(n.note@) {
        Some(m) => seq![(m, n.velocity)],
        None => Seq::empty(),
    }
}

/// Note-ons of the first `k` chord notes of `n` whose names parse.
pub open spec fn chord_ons(n: Note, k: int) -> Seq<(u8, u8)>
    decreases k,
{
    if k <= 0 {
        Seq::empty()
    } else {
        chord_ons(n, k - 1) + (match note_midi_raw(n.chord_notes@[k - 1]@) {
            Some(m) => seq![(m, n.voice_velocity_spec(k))],
            None => Seq::empty(),
        })
    }
}

pub open spec fn all_note_ons_spec(n: Note) -> Seq<(u8, u8)> {
    primary_on(n) + chord_ons(n, n.chord_notes@.len() as int)
}

fn clone_strings(v: &Vec<String>) -> (r: Vec<String>)
    ensures
        r@ == v@,
{
    let mut r: Vec<String> = Vec::new();
    let mut i: usize = 0;
    while i < v.len()
        invariant
            0 <= i <= v@.len(),
            r@ == v@.take(i as int),
        decreases v@.len() - i,
    {
        r.push(v[i].clone());
        proof {
            assert(v@.take(i as int + 1) =~= v@.take(i as int).push(v@[i as int]));
        }
        i = i + 1;
    }
    proof {
        assert(v@.take(v@.len() as int) =~= v@);
    }
    r
}

fn is_rest_str(s: &str) -> (r: bool)
    ensures
        r == is_rest(s@),
{
    let n = s.unicode_len();
    if n != 3 {
        return false;
    }
    let r = s.get_char(0) == '-' && s.get_char(1) == '-' && s.get_char(2) == '-';
    proof {
        if r {
            assert(s@ =~= seq!['-', '-', '-']);
        }
    }
    r
}

fn semitone_str(i: usize) -> (r: &'static str)
    requires
        i < 12,
    ensures
        r@ == semitone_name(i as int),
{
    proof {
        reveal_strlit("C-");
        reveal_strlit("C#");
        reveal_strlit("D-");
        reveal_strlit("D#");
        reveal_strlit("E-");
        reveal_strlit("F-");
        reveal_strlit("F#");
        reveal_strlit("G-");
        reveal_strlit("G#");
        reveal_strlit("A-");
        reveal_strlit("A#");
        reveal_strlit("B-");
    }
    let r = if i == 0 {
        "C-"
    } else if i == 1 {
        "C#"
    } else if i == 2 {
        "D-"
    } else if i == 3 {
        "D#"
    } else if i == 4 {
        "E-"
    } else if i == 5 {
        "F-"
    } else if i == 6 {
        "F#"
    } else if i == 7 {
        "G-"
    } else if i == 8 {
        "G#"
    } else if i == 9 {
        "A-"
    } else if i == 10 {
        "A#"
    } else {
        "B-"
    };
    proof {
        assert(r@ =~= semitone_name(i as int));
    }
    r
}

fn octave_str(o: u8) -> (r: &'static str)
    requires
        o <= 10,
    ensures
        r@ == decimal(o as nat),
{
    proof {
        reveal_strlit("0");
        reveal_strlit("1");
        reveal_strlit("2");
        reveal_strlit("3");
        reveal_strlit("4");
        reveal_strlit("5");
        reveal_strlit("6");
        reveal_strlit("7");
        reveal_strlit("8");
        reveal_strlit("9");
        reveal_strlit("10");
        reveal_with_fuel(decimal, 2);
    }
    let r = if o == 0 {
        "0"
    } else if o == 1 {
        "1"
    } else if o == 2 {
        "2"
    } else if o == 3 {
        "3"
    } else if o == 4 {
        "4"
    } else if o == 5 {
        "5"
    } else if o == 6 {
        "6"
    } else if o == 7 {
        "7"
    } else if o == 8 {
        "8"
    } else if o == 9 {
        "9"
    } else {
        "10"
    };
    proof {
        assert(r@ =~= decimal(o as nat));
    }
    r
}

/// Parse a note string like "C-4" or "A#5" into a MIDI number: `None` for
/// `---`, for names shorter than three characters, for an unknown two-character
/// prefix and for an octave that is not a `u8`.
pub fn parse_note_name(name: &str) -> (r: Option<u8>)
    requires
        note_value_fits(name@),
    ensures
        r == note_midi_raw(name@),
{
    if is_rest_str(name) {
        return None;
    }
    let n = name.unicode_len();
    if n < 3 {
        return None;
    }
    let c0 = name.get_char(0);
    let c1 = name.get_char(1);
    proof {
        assert(name@.take(2) =~= seq![c0, c1]);
    }
    let semi = semitone_index(c0, c1);
    let oct = parse_u8_from(name, 2);
    match (semi, oct) {
        (Some(s), Some(o)) => {
            let v: u32 = (o as u32) * 12 + (s as u32);
            Some(v as u8)
        },
        _ => None,
    }
}

/// Whether reading `name` as a note stays within a byte: a recognised name
/// with an octave above 21 does not.
pub fn note_name_fits(name: &str) -> (r: bool)
    ensures
        r == note_value_fits(name@),
{
    if is_rest_str(name) {
        return true;
    }
    let n = name.unicode_len();
    if n < 3 {
        return true;
    }
    let c0 = name.get_char(0);
    let c1 = name.get_char(1);
    proof {
        assert(name@.take(2) =~= seq![c0, c1]);
    }
    let semi = semitone_index(c0, c1);
    let oct = parse_u8_from(name, 2);
    match (semi, oct) {
        (Some(s), Some(o)) => (o as u32) * 12 + (s as u32) <= 255,
        _ => true,
    }
}

fn semitone_index(c0: char, c1: char) -> (r: Option<u8>)
    ensures
        match r {
            Some(i) => semitone_of(seq![c0, c1]) == Some(i as int) && i < 12,
            None => semitone_of(seq![c0, c1]) is None,
        },
{
    let ghost p = seq![c0, c1];
    proof {
        assert(p.len() == 2 && p[0] == c0 && p[1] == c1);
    }
    let r = if c1 == '-' {
        if c0 == 'C' {
            Some(0u8)
        } else if c0 == 'D' {
            Some(2u8)
        } else if c0 == 'E' {
            Some(4u8)
        } else if c0 == 'F' {
            Some(5u8)
        } else if c0 == 'G' {
            Some(7u8)
        } else if c0 == 'A' {
            Some(9u8)
        } else if c0 == 'B' {
            Some(11u8)
        } else {
            None
        }
    } else if c1 == '#' {
        if c0 == 'C' {
            Some(1u8)
        } else if c0 == 'D' {
            Some(3u8)
        } else if c0 == 'F' {
            Some(6u8)
        } else if c0 == 'G' {
            Some(8u8)
        } else if c0 == 'A' {
            Some(10u8)
        } else {
            None
        }
    } else {
        None
    };
    r
}

pub(crate) proof fn lemma_digits_mono(d: Seq<char>, k: int)
    requires
        all_digits(d),
        0 <= k <= d.len(),
    ensures
        digits_value(d.take(k)) <= digits_value(d),
        digits_value(d) >= 0,
    decreases d.len(),
{
    if d.len() > 0 {
        assert(is_digit(d[d.len() - 1]));
        assert(all_digits(d.drop_last()));
        if k == d.len() {
            assert(d.take(k) =~= d);
            lemma_digits_mono(d.drop_last(), 0);
        } else {
            lemma_digits_mono(d.drop_last(), k);
            assert(d.drop_last().take(k) =~= d.take(k));
        }
    } else {
        assert(d.take(k) =~= d);
    }
}

fn parse_u8_from(s: &str, start: usize) -> (r: Option<u8>)
    requires
        start <= s@.len(),
    ensures
        match r {
            Some(v) => parse_u8_spec(s@.skip(start as int)) == Some(v as int),
            None => parse_u8_spec(s@.skip(start as int)) is None,
        },
{
    let n = s.unicode_len();
    let ghost t = s@.skip(start as int);
    let mut i = start;
    if i < n && s.get_char(i) == '+' {
        i = i + 1;
    }
    let ghost d = s@.skip(i as int);
    proof {
        if t.len() > 0 && t[0] == '+' {
            assert(d =~= t.skip(1));
        } else {
            assert(d =~= t);
        }
    }
    if i >= n {
        return None;
    }
    let i0 = i;
    let mut acc: u32 = 0;
    while i < n
        invariant
            i0 <= i <= n,
            n == s@.len(),
            d == s@.skip(i0 as int),
            t == s@.skip(start as int),
            parse_u8_spec(t) == (if d.len() > 0 && all_digits(d) && digits_value(d) <= 255 {
                Some(digits_value(d))
            } else {
                None
            }),
            acc <= 255,
            all_digits(s@.subrange(i0 as int, i as int)),
            acc == digits_value(s@.subrange(i0 as int, i as int)),
        decreases n - i,
    {
        let c = s.get_char(i);
        proof {
            assert(s@.subrange(i0 as int, i as int + 1).drop_last() =~= s@.subrange(i0 as int, i as int));
            assert(s@.subrange(i0 as int, i as int + 1).last() == c);
        }
        if !(c >= '0' && c <= '9') {
            proof {
                assert(d[i - i0] == c);
            }
            return None;
        }
        acc = acc * 10 + ((c as u32) - ('0' as u32));
        if acc > 255 {
            proof {
                let k = i - i0 + 1;
                assert(d.take(k) =~= s@.subrange(i0 as int, i as int + 1));
                if all_digits(d) {
                    lemma_digits_mono(d, k);
                }
            }
            return None;
        }
        i = i + 1;
    }
    proof {
        assert(s@.subrange(i0 as int, n as int) =~= d);
    }
    Some(acc as u8)
}

/// Every MIDI note 0..=127 survives the trip through its note name:
/// parsing the name that [`Note::from_midi`] gives returns the same number.
pub proof fn lemma_note_name_roundtrip(m: int)
    requires
        0 <= m <= 127,
    ensures
        note_value(midi_name(m)) == Some(m),
        note_value_fits(midi_name(m)),
        note_midi(midi_name(m)) == Some(m as u8),
{
    let semi = m % 12;
    let o = m / 12;
    let s = midi_name(m);
    reveal_with_fuel(decimal, 2);
    let ds = decimal(o as nat);
    reveal_with_fuel(digits_value, 3);
    if o < 10 {
        assert(ds =~= seq![digit_char(o)]);
        assert(ds.drop_last() =~= Seq::<char>::empty());
        assert((digit_char(o) as int) - ('0' as int) == o) by {
            if o == 0 {} else if o == 1 {} else if o == 2 {} else if o == 3 {} else if o == 4 {
            } else if o == 5 {} else if o == 6 {} else if o == 7 {} else if o == 8 {} else {}
        }
        assert(digits_value(ds) == 10 * digits_value(ds.drop_last()) + ((ds.last() as int) - ('0' as int)));
    } else {
        assert(o == 10);
        assert(ds =~= seq!['1', '0']);
        assert(ds.drop_last() =~= seq!['1']);
        assert(ds.drop_last().drop_last() =~= Seq::<char>::empty());
    }
    assert(all_digits(ds));
    assert(digits_value(ds) == o);
    assert(parse_u8_spec(ds) == Some(o));
    assert(s.take(2) =~= semitone_name(semi));
    assert(s.skip(2) =~= ds);
    assert(semitone_of(semitone_name(semi)) == Some(semi));
    assert(s.len() >= 3);
    assert(!is_rest(s)) by {
        if is_rest(s) {
            assert(s[1] == semitone_name(semi)[1]);
        }
    }
}

} // verus!
