//! The session matrix: clips in (row, column) slots, each referencing a
//! pattern and naming what drives its sound.

use crate::arrangement::clone_opt_string;
use crate::mpe::MpeZone;
use vstd::prelude::*;

verus! {

/// What drives a clip's sound.
///
/// Floating-point settings are kept as the bits of their IEEE values, so the
/// source is carried through unchanged.
#[derive(Debug)]
pub enum PatternSource {
    /// MIDI notes routed to an external port or synth.
    Midi,
    /// A SoundFont bank and preset.
    Sf2 { path: String, bank: u8, preset: u8, preset_name: String },
    /// Sample playback of an audio file; `original_bpm_bits` and `gain_bits`
    /// are the bits of the 64-bit BPM hint and the 32-bit gain.
    AudioFile { path: String, looping: bool, original_bpm_bits: u64, gain_bits: u32 },
    /// An external synthesizer plugin.
    Plugin { id: String, format: String, name: String },
}

impl Clone for PatternSource {
    fn clone(&self) -> (r: Self)
        ensures
            r == *self,
    {
        match self {
            PatternSource::Midi => PatternSource::Midi,
            PatternSource::Sf2 { path, bank, preset, preset_name } => PatternSource::Sf2 {
                path: path.clone(),
                bank: *bank,
                preset: *preset,
                preset_name: preset_name.clone(),
            },
            PatternSource::AudioFile { path, looping, original_bpm_bits, gain_bits } => PatternSource::AudioFile {
                path: path.clone(),
                looping: *looping,
                original_bpm_bits: *original_bpm_bits,
                gain_bits: *gain_bits,
            },
            PatternSource::Plugin { id, format, name } => PatternSource::Plugin {
                id: id.clone(),
                format: format.clone(),
                name: name.clone(),
            },
        }
    }
}

/// The bits of the 32-bit float `1.0`, the unity gain.
pub const UNITY_GAIN_BITS: u32 = 0x3f80_0000;

impl Default for PatternSource {
    fn default() -> (r: PatternSource)
        ensures
            r is Midi,
    {
        PatternSource::Midi
    }
}

impl PatternSource {
    /// The value of [`PatternSource::kind_label`] for each variant.
    pub open spec fn kind_label_spec(self) -> Seq<char> {
        match self {
            PatternSource::Midi => "MIDI"@,
            PatternSource::Sf2 { .. } => "SF2"@,
            PatternSource::AudioFile { .. } => "AUDIO"@,
            PatternSource::Plugin { .. } => "SYNTH"@,
        }
    }

    /// Short display label for matrix cells.
    pub fn kind_label(&self) -> (r: &'static str)
        ensures
            r@ == self.kind_label_spec(),
    {
        match self {
            PatternSource::Midi => "MIDI",
            PatternSource::Sf2 { .. } => "SF2",
            PatternSource::AudioFile { .. } => "AUDIO",
            PatternSource::Plugin { .. } => "SYNTH",
        }
    }

    /// The value of [`PatternSource::icon`] for each variant.
    pub open spec fn icon_spec(self) -> char {
        match self {
            PatternSource::Midi => ' ',
            PatternSource::Sf2 { .. } => '\u{266A}',
            PatternSource::AudioFile { .. } => '\u{25B6}',
            PatternSource::Plugin { .. } => '\u{25C7}',
        }
    }

    /// Icon character for matrix cells: blank for MIDI, a note for SF2, a
    /// play sign for audio, a diamond for plugins.
    pub fn icon(&self) -> (r: char)
        ensures
            r == self.icon_spec(),
    {
        match self {
            PatternSource::Midi => ' ',
            PatternSource::Sf2 { .. } => '\u{266A}',
            PatternSource::AudioFile { .. } => '\u{25B6}',
            PatternSource::Plugin { .. } => '\u{25C7}',
        }
    }

    pub fn is_midi(&self) -> (r: bool)
        ensures
            r == (*self is Midi),
    {
        matches!(self, PatternSource::Midi)
    }

    pub fn is_sf2(&self) -> (r: bool)
        ensures
            r == (*self is Sf2),
    {
        matches!(self, PatternSource::Sf2 { .. })
    }

    pub fn is_audio(&self) -> (r: bool)
        ensures
            r == (*self is AudioFile),
    {
        matches!(self, PatternSource::AudioFile { .. })
    }

    pub fn is_plugin(&self) -> (r: bool)
        ensures
            r == (*self is Plugin),
    {
        matches!(self, PatternSource::Plugin { .. })
    }
}

/// A (row, column) slot of the session matrix that references a pattern.
#[derive(Debug)]
pub struct Clip {
    pub name: String,
    /// The pattern this clip plays, by key.
    pub pattern_key: Option<String>,
    /// Whether the clip is scheduled to play.
    pub playing: bool,
    /// Current playback step within the pattern.
    pub current_step: usize,
    /// Matrix row (0-7, A-H).
    pub row: usize,
    /// Matrix column (0-7).
    pub col: usize,
    /// Whether the clip is enabled (false = muted).
    pub enabled: bool,
    /// MIDI output port the clip's pattern is routed to.
    pub midi_out: Option<String>,
    /// MIDI output channel (1-16).
    pub midi_channel: u8,
    /// What drives the clip's sound.
    pub source: PatternSource,
    /// MPE channel allocation for the clip's MIDI output, when set.
    pub mpe_zone: Option<MpeZone>,
    /// Whether the clip plays a rendered audio stem in place of its source.
    pub frozen: bool,
    /// The source saved before freezing, restored on unfreeze.
    pub freeze_source: Option<Box<PatternSource>>,
}

impl Clone for Clip {
    fn clone(&self) -> (r: Self)
        ensures
            r == *self,
    {
        let freeze_source = match &self.freeze_source {
            Some(b) => Some(Box::new((**b).clone())),
            None => None,
        };
        Clip {
            name: self.name.clone(),
            pattern_key: clone_opt_string(&self.pattern_key),
            playing: self.playing,
            current_step: self.current_step,
            row: self.row,
            col: self.col,
            enabled: self.enabled,
            midi_out: clone_opt_string(&self.midi_out),
            midi_channel: self.midi_channel,
            source: self.source.clone(),
            mpe_zone: self.mpe_zone,
            frozen: self.frozen,
            freeze_source,
        }
    }
}

impl Clip {
    /// An enabled, stopped clip at (`row`, `col`) with no pattern, routed to
    /// no port on channel 1, driven by MIDI.
    pub fn new(name: String, row: usize, col: usize) -> (c: Clip)
        ensures
            c.name == name,
            c.pattern_key.is_none(),
            !c.playing,
            c.current_step == 0,
            c.row == row,
            c.col == col,
            c.enabled,
            c.midi_out.is_none(),
            c.midi_channel == 1,
            c.source is Midi,
            c.mpe_zone.is_none(),
            !c.frozen,
            c.freeze_source.is_none(),
    {
        Clip {
            name,
            pattern_key: None,
            playing: false,
            current_step: 0,
            row,
            col,
            enabled: true,
            midi_out: None,
            midi_channel: 1,
            source: PatternSource::Midi,
            mpe_zone: None,
            frozen: false,
            freeze_source: None,
        }
    }

    /// The clip driven by an SF2 bank and preset, its preset name not yet known.
    pub fn with_sf2(self, path: String, bank: u8, preset: u8) -> (c: Clip)
        ensures
            c == (Clip { source: c.source, ..self }),
            c.source matches PatternSource::Sf2 { path: p, bank: b, preset: q, preset_name: n } && p == path && b == bank
                && q == preset && n@ == Seq::<char>::empty(),
    {
        let mut c = self;
        c.source = PatternSource::Sf2 { path, bank, preset, preset_name: String::new() };
        c
    }

    /// The clip driven by an audio file at unity gain, with no tempo hint.
    pub fn with_audio(self, path: String, looping: bool) -> (c: Clip)
        ensures
            c == (Clip {
                source: PatternSource::AudioFile { path, looping, original_bpm_bits: 0, gain_bits: UNITY_GAIN_BITS },
                ..self
            }),
    {
        let mut c = self;
        c.source = PatternSource::AudioFile { path, looping, original_bpm_bits: 0, gain_bits: UNITY_GAIN_BITS };
        c
    }

    /// The clip playing pattern `key`.
    pub fn with_pattern(self, key: String) -> (c: Clip)
        ensures
            c == (Clip { pattern_key: Some(key), ..self }),
    {
        let mut c = self;
        c.pattern_key = Some(key);
        c
    }

    /// The clip on MIDI channel `channel`, clamped into 1-16.
    pub fn with_channel(self, channel: u8) -> (c: Clip)
        ensures
            c == (Clip {
                midi_channel: if channel < 1 {
                    1u8
                } else if channel > 16 {
                    16u8
                } else {
                    channel
                },
                ..self
            }),
    {
        let mut c = self;
        c.midi_channel = if channel < 1 {
            1
        } else if channel > 16 {
            16
        } else {
            channel
        };
        c
    }

    /// The row's letter: `A` for row 0.
    pub fn row_label(&self) -> (r: char)
        requires
            (self.row as u8) < 191,
        ensures
            r == (65 + (self.row as u8)) as char,
    {
        let b: u8 = 65 + self.row as u8;
        b as char
    }
}

} // verus!
