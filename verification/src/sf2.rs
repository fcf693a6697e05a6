//! SoundFont zone options: loop modes, filter types and LFO waveforms.

use vstd::prelude::*;

verus! {

/// Sample loop mode of a zone.
#[derive(Debug, Clone, Copy, PartialEq, Eq, Structural)]
pub enum Sf2LoopMode {
    NoLoop,
    Forward,
    PingPong,
}

impl Default for Sf2LoopMode {
    fn default() -> (r: Sf2LoopMode)
        ensures
            r == Sf2LoopMode::NoLoop,
    {
        Sf2LoopMode::NoLoop
    }
}
impl Sf2LoopMode {
    /// The value of [`Sf2LoopMode::label`] for each variant.
    pub open spec fn label_spec(self) -> Seq<char> {
        match self {
            Sf2LoopMode::NoLoop => "None"@,
            Sf2LoopMode::Forward => "Forward"@,
            Sf2LoopMode::PingPong => "PingPong"@,
        }
    }

    /// Display label.
    pub fn label(self) -> (r: &'static str)
        ensures
            r@ == self.label_spec(),
    {
        match self {
            Sf2LoopMode::NoLoop => "None",
            Sf2LoopMode::Forward => "Forward",
            Sf2LoopMode::PingPong => "PingPong",
        }
    }

    /// Every variant, in declaration order.
    pub const ALL: [Sf2LoopMode; 3] = [Sf2LoopMode::NoLoop, Sf2LoopMode::Forward, Sf2LoopMode::PingPong];
}

/// Filter type for a zone.
#[derive(Debug, Clone, Copy, PartialEq, Eq, Structural)]
pub enum Sf2FilterType {
    LowPass,
    HighPass,
    BandPass,
}

impl Default for Sf2FilterType {
    fn default() -> (r: Sf2FilterType)
        ensures
            r == Sf2FilterType::LowPass,
    {
        Sf2FilterType::LowPass
    }
}
impl Sf2FilterType {
    /// The value of [`Sf2FilterType::label`] for each variant.
    pub open spec fn label_spec(self) -> Seq<char> {
        match self {
            Sf2FilterType::LowPass => "LPF"@,
            Sf2FilterType::HighPass => "HPF"@,
            Sf2FilterType::BandPass => "BPF"@,
        }
    }

    /// Display label.
    pub fn label(self) -> (r: &'static str)
        ensures
            r@ == self.label_spec(),
    {
        match self {
            Sf2FilterType::LowPass => "LPF",
            Sf2FilterType::HighPass => "HPF",
            Sf2FilterType::BandPass => "BPF",
        }
    }

    /// Every variant, in declaration order.
    pub const ALL: [Sf2FilterType; 3] = [Sf2FilterType::LowPass, Sf2FilterType::HighPass, Sf2FilterType::BandPass];
}

/// LFO waveform.
#[derive(Debug, Clone, Copy, PartialEq, Eq, Structural)]
pub enum Sf2LfoWaveform {
    Sine,
    Triangle,
    Square,
    Saw,
}

impl Default for Sf2LfoWaveform {
    fn default() -> (r: Sf2LfoWaveform)
        ensures
            r == Sf2LfoWaveform::Sine,
    {
        Sf2LfoWaveform::Sine
    }
}
impl Sf2LfoWaveform {
    /// The value of [`Sf2LfoWaveform::label`] for each variant.
    pub open spec fn label_spec(self) -> Seq<char> {
        match self {
            Sf2LfoWaveform::Sine => "Sine"@,
            Sf2LfoWaveform::Triangle => "Triangle"@,
            Sf2LfoWaveform::Square => "Square"@,
            Sf2LfoWaveform::Saw => "Saw"@,
        }
    }

    /// Display label.
    pub fn label(self) -> (r: &'static str)
        ensures
            r@ == self.label_spec(),
    {
        match self {
            Sf2LfoWaveform::Sine => "Sine",
            Sf2LfoWaveform::Triangle => "Triangle",
            Sf2LfoWaveform::Square => "Square",
            Sf2LfoWaveform::Saw => "Saw",
        }
    }

    /// Every variant, in declaration order.
    pub const ALL: [Sf2LfoWaveform; 4] = [Sf2LfoWaveform::Sine, Sf2LfoWaveform::Triangle, Sf2LfoWaveform::Square, Sf2LfoWaveform::Saw];
}

} // verus!
