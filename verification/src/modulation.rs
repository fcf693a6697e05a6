//! Modulation sources, response curves and polarity.

use crate::note::decimal;
use crate::text::append_decimal;
use vstd::prelude::*;
use vstd::string::*;

verus! {

/// A modulation source.
#[derive(Debug, Clone, Copy, PartialEq, Eq, Structural)]
pub enum ModulationSource {
    MidiCc(u8),
    Velocity,
    Aftertouch,
    PolyAftertouch,
    PitchBend,
    Lfo(usize),
    Envelope(usize),
    StepSequencer(usize),
    Macro(usize),
    AudioEnvelope,
}

impl ModulationSource {
    /// Display label: `CC<n>`, a fixed name, or `<kind><i+1>` for indexed sources.
    pub open spec fn label_spec(self) -> Seq<char> {
        match self {
            ModulationSource::MidiCc(n) => "CC"@ + decimal(n as nat),
            ModulationSource::Velocity => "Velocity"@,
            ModulationSource::Aftertouch => "Aftertouch"@,
            ModulationSource::PolyAftertouch => "PolyAT"@,
            ModulationSource::PitchBend => "PitchBend"@,
            ModulationSource::Lfo(i) => "LFO"@ + decimal((i + 1) as nat),
            ModulationSource::Envelope(i) => "Env"@ + decimal((i + 1) as nat),
            ModulationSource::StepSequencer(i) => "Step"@ + decimal((i + 1) as nat),
            ModulationSource::Macro(i) => "Macro"@ + decimal((i + 1) as nat),
            ModulationSource::AudioEnvelope => "AudioEnv"@,
        }
    }

    /// The index of an indexed source (0 for the others).
    pub open spec fn index_of(self) -> int {
        match self {
            ModulationSource::Lfo(i) => i as int,
            ModulationSource::Envelope(i) => i as int,
            ModulationSource::StepSequencer(i) => i as int,
            ModulationSource::Macro(i) => i as int,
            _ => 0,
        }
    }

    pub fn label(&self) -> (r: String)
        requires
            self.index_of() < u64::MAX,
        ensures
            r@ == self.label_spec(),
    {
        match self {
            ModulationSource::MidiCc(n) => {
                let mut s = String::from_str("CC");
                append_decimal(&mut s, *n as u64);
                s
            },
            ModulationSource::Velocity => String::from_str("Velocity"),
            ModulationSource::Aftertouch => String::from_str("Aftertouch"),
            ModulationSource::PolyAftertouch => String::from_str("PolyAT"),
            ModulationSource::PitchBend => String::from_str("PitchBend"),
            ModulationSource::Lfo(i) => {
                let mut s = String::from_str("LFO");
                append_decimal(&mut s, *i as u64 + 1);
                s
            },
            ModulationSource::Envelope(i) => {
                let mut s = String::from_str("Env");
                append_decimal(&mut s, *i as u64 + 1);
                s
            },
            ModulationSource::StepSequencer(i) => {
                let mut s = String::from_str("Step");
                append_decimal(&mut s, *i as u64 + 1);
                s
            },
            ModulationSource::Macro(i) => {
                let mut s = String::from_str("Macro");
                append_decimal(&mut s, *i as u64 + 1);
                s
            },
            ModulationSource::AudioEnvelope => String::from_str("AudioEnv"),
        }
    }
}

/// Response curve applied to a normalised source value before scaling.
#[derive(Debug, Clone, Copy, PartialEq, Eq, Structural)]
pub enum ModulationCurve {
    Linear,
    Exponential,
    Logarithmic,
    SCurve,
}

impl Default for ModulationCurve {
    fn default() -> (r: ModulationCurve)
        ensures
            r == ModulationCurve::Linear,
    {
        ModulationCurve::Linear
    }
}
/// Whether a source modulates one-sided or centred.
#[derive(Debug, Clone, Copy, PartialEq, Eq, Structural)]
pub enum Polarity {
    Unipolar,
    Bipolar,
}

impl Default for Polarity {
    fn default() -> (r: Polarity)
        ensures
            r == Polarity::Unipolar,
    {
        Polarity::Unipolar
    }
}
} // verus!
