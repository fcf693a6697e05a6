//! Granular-synthesis and sample-editor option types: marker kinds, loop
//! modes, filters, grain envelopes and directions, scan modes and the LFO
//! modulation matrix choices, each with its display label and cycling order.

use vstd::prelude::*;

verus! {

/// Marker type in the waveform editor.
#[derive(Debug, Clone, Copy, PartialEq, Eq, Structural)]
pub enum MarkerKind {
    Start,
    End,
    LoopStart,
    LoopEnd,
    Slice,
    GrainRegion,
}
impl MarkerKind {
    /// The value of [`MarkerKind::label`] for each variant.
    pub open spec fn label_spec(self) -> Seq<char> {
        match self {
            MarkerKind::Start => "ST"@,
            MarkerKind::End => "EN"@,
            MarkerKind::LoopStart => "LS"@,
            MarkerKind::LoopEnd => "LE"@,
            MarkerKind::Slice => "SL"@,
            MarkerKind::GrainRegion => "GR"@,
        }
    }

    /// Display label.
    pub fn label(self) -> (r: &'static str)
        ensures
            r@ == self.label_spec(),
    {
        match self {
            MarkerKind::Start => "ST",
            MarkerKind::End => "EN",
            MarkerKind::LoopStart => "LS",
            MarkerKind::LoopEnd => "LE",
            MarkerKind::Slice => "SL",
            MarkerKind::GrainRegion => "GR",
        }
    }

    /// The value of [`MarkerKind::color_hint`] for each variant.
    pub open spec fn color_hint_spec(self) -> u8 {
        match self {
            MarkerKind::Start => 10,
            MarkerKind::End => 9,
            MarkerKind::LoopStart => 14,
            MarkerKind::LoopEnd => 14,
            MarkerKind::Slice => 11,
            MarkerKind::GrainRegion => 13,
        }
    }

    /// Terminal colour index used to draw the marker.
    pub fn color_hint(self) -> (r: u8)
        ensures
            r == self.color_hint_spec(),
    {
        match self {
            MarkerKind::Start => 10,
            MarkerKind::End => 9,
            MarkerKind::LoopStart => 14,
            MarkerKind::LoopEnd => 14,
            MarkerKind::Slice => 11,
            MarkerKind::GrainRegion => 13,
        }
    }
}

/// Loop playback mode for the sample player.
#[derive(Debug, Clone, Copy, PartialEq, Eq, Structural)]
pub enum SampleLoopMode {
    Off,
    Forward,
    PingPong,
    Backward,
}

impl Default for SampleLoopMode {
    fn default() -> (r: SampleLoopMode)
        ensures
            r == SampleLoopMode::Off,
    {
        SampleLoopMode::Off
    }
}
impl SampleLoopMode {
    /// The value of [`SampleLoopMode::label`] for each variant.
    pub open spec fn label_spec(self) -> Seq<char> {
        match self {
            SampleLoopMode::Off => "Off"@,
            SampleLoopMode::Forward => "Fwd"@,
            SampleLoopMode::PingPong => "Ping"@,
            SampleLoopMode::Backward => "Bwd"@,
        }
    }

    /// Display label.
    pub fn label(self) -> (r: &'static str)
        ensures
            r@ == self.label_spec(),
    {
        match self {
            SampleLoopMode::Off => "Off",
            SampleLoopMode::Forward => "Fwd",
            SampleLoopMode::PingPong => "Ping",
            SampleLoopMode::Backward => "Bwd",
        }
    }

    /// The value of [`SampleLoopMode::next`] for each variant.
    pub open spec fn next_spec(self) -> SampleLoopMode {
        match self {
            SampleLoopMode::Off => SampleLoopMode::Forward,
            SampleLoopMode::Forward => SampleLoopMode::PingPong,
            SampleLoopMode::PingPong => SampleLoopMode::Backward,
            SampleLoopMode::Backward => SampleLoopMode::Off,
        }
    }

    /// The following variant, wrapping around.
    pub fn next(self) -> (r: SampleLoopMode)
        ensures
            r == self.next_spec(),
    {
        match self {
            SampleLoopMode::Off => SampleLoopMode::Forward,
            SampleLoopMode::Forward => SampleLoopMode::PingPong,
            SampleLoopMode::PingPong => SampleLoopMode::Backward,
            SampleLoopMode::Backward => SampleLoopMode::Off,
        }
    }
}

/// Filter type for the per-pad filter.
#[derive(Debug, Clone, Copy, PartialEq, Eq, Structural)]
pub enum FilterKind {
    Lowpass,
    Highpass,
    Bandpass,
    Notch,
    Off,
}

impl Default for FilterKind {
    fn default() -> (r: FilterKind)
        ensures
            r == FilterKind::Lowpass,
    {
        FilterKind::Lowpass
    }
}
impl FilterKind {
    /// The value of [`FilterKind::label`] for each variant.
    pub open spec fn label_spec(self) -> Seq<char> {
        match self {
            FilterKind::Lowpass => "LP"@,
            FilterKind::Highpass => "HP"@,
            FilterKind::Bandpass => "BP"@,
            FilterKind::Notch => "Notch"@,
            FilterKind::Off => "Off"@,
        }
    }

    /// Display label.
    pub fn label(self) -> (r: &'static str)
        ensures
            r@ == self.label_spec(),
    {
        match self {
            FilterKind::Lowpass => "LP",
            FilterKind::Highpass => "HP",
            FilterKind::Bandpass => "BP",
            FilterKind::Notch => "Notch",
            FilterKind::Off => "Off",
        }
    }

    /// The value of [`FilterKind::next`] for each variant.
    pub open spec fn next_spec(self) -> FilterKind {
        match self {
            FilterKind::Lowpass => FilterKind::Highpass,
            FilterKind::Highpass => FilterKind::Bandpass,
            FilterKind::Bandpass => FilterKind::Notch,
            FilterKind::Notch => FilterKind::Off,
            FilterKind::Off => FilterKind::Lowpass,
        }
    }

    /// The following variant, wrapping around.
    pub fn next(self) -> (r: FilterKind)
        ensures
            r == self.next_spec(),
    {
        match self {
            FilterKind::Lowpass => FilterKind::Highpass,
            FilterKind::Highpass => FilterKind::Bandpass,
            FilterKind::Bandpass => FilterKind::Notch,
            FilterKind::Notch => FilterKind::Off,
            FilterKind::Off => FilterKind::Lowpass,
        }
    }
}

/// Grain envelope shape.
#[derive(Debug, Clone, Copy, PartialEq, Eq, Structural)]
pub enum GrainEnvelope {
    Hann,
    Gaussian,
    Triangle,
    Exponential,
}

impl Default for GrainEnvelope {
    fn default() -> (r: GrainEnvelope)
        ensures
            r == GrainEnvelope::Hann,
    {
        GrainEnvelope::Hann
    }
}
impl GrainEnvelope {
    /// The value of [`GrainEnvelope::label`] for each variant.
    pub open spec fn label_spec(self) -> Seq<char> {
        match self {
            GrainEnvelope::Hann => "Hann"@,
            GrainEnvelope::Gaussian => "Gauss"@,
            GrainEnvelope::Triangle => "Tri"@,
            GrainEnvelope::Exponential => "Exp"@,
        }
    }

    /// Display label.
    pub fn label(self) -> (r: &'static str)
        ensures
            r@ == self.label_spec(),
    {
        match self {
            GrainEnvelope::Hann => "Hann",
            GrainEnvelope::Gaussian => "Gauss",
            GrainEnvelope::Triangle => "Tri",
            GrainEnvelope::Exponential => "Exp",
        }
    }
}

/// Direction of grain playback.
#[derive(Debug, Clone, Copy, PartialEq, Eq, Structural)]
pub enum GrainDirection {
    Forward,
    Backward,
    Random,
}

impl Default for GrainDirection {
    fn default() -> (r: GrainDirection)
        ensures
            r == GrainDirection::Forward,
    {
        GrainDirection::Forward
    }
}
impl GrainDirection {
    /// The value of [`GrainDirection::label`] for each variant.
    pub open spec fn label_spec(self) -> Seq<char> {
        match self {
            GrainDirection::Forward => "Forward"@,
            GrainDirection::Backward => "Backward"@,
            GrainDirection::Random => "Random"@,
        }
    }

    /// Display label.
    pub fn label(self) -> (r: &'static str)
        ensures
            r@ == self.label_spec(),
    {
        match self {
            GrainDirection::Forward => "Forward",
            GrainDirection::Backward => "Backward",
            GrainDirection::Random => "Random",
        }
    }
}

/// Playhead scanning mode.
#[derive(Debug, Clone, Copy, PartialEq, Eq, Structural)]
pub enum ScanMode {
    Linear,
    RandomWalk,
    Freeze,
}

impl Default for ScanMode {
    fn default() -> (r: ScanMode)
        ensures
            r == ScanMode::Linear,
    {
        ScanMode::Linear
    }
}
impl ScanMode {
    /// The value of [`ScanMode::label`] for each variant.
    pub open spec fn label_spec(self) -> Seq<char> {
        match self {
            ScanMode::Linear => "Linear"@,
            ScanMode::RandomWalk => "RandomWalk"@,
            ScanMode::Freeze => "Freeze"@,
        }
    }

    /// Display label.
    pub fn label(self) -> (r: &'static str)
        ensures
            r@ == self.label_spec(),
    {
        match self {
            ScanMode::Linear => "Linear",
            ScanMode::RandomWalk => "RandomWalk",
            ScanMode::Freeze => "Freeze",
        }
    }
}

/// LFO waveform shape.
#[derive(Debug, Clone, Copy, PartialEq, Eq, Structural)]
pub enum LfoShape {
    Sine,
    Triangle,
    Square,
    SampleHold,
}

impl Default for LfoShape {
    fn default() -> (r: LfoShape)
        ensures
            r == LfoShape::Sine,
    {
        LfoShape::Sine
    }
}
impl LfoShape {
    /// The value of [`LfoShape::label`] for each variant.
    pub open spec fn label_spec(self) -> Seq<char> {
        match self {
            LfoShape::Sine => "Sine"@,
            LfoShape::Triangle => "Tri"@,
            LfoShape::Square => "Sqr"@,
            LfoShape::SampleHold => "S&H"@,
        }
    }

    /// Display label.
    pub fn label(self) -> (r: &'static str)
        ensures
            r@ == self.label_spec(),
    {
        match self {
            LfoShape::Sine => "Sine",
            LfoShape::Triangle => "Tri",
            LfoShape::Square => "Sqr",
            LfoShape::SampleHold => "S&H",
        }
    }

    /// The value of [`LfoShape::next`] for each variant.
    pub open spec fn next_spec(self) -> LfoShape {
        match self {
            LfoShape::Sine => LfoShape::Triangle,
            LfoShape::Triangle => LfoShape::Square,
            LfoShape::Square => LfoShape::SampleHold,
            LfoShape::SampleHold => LfoShape::Sine,
        }
    }

    /// The following variant, wrapping around.
    pub fn next(self) -> (r: LfoShape)
        ensures
            r == self.next_spec(),
    {
        match self {
            LfoShape::Sine => LfoShape::Triangle,
            LfoShape::Triangle => LfoShape::Square,
            LfoShape::Square => LfoShape::SampleHold,
            LfoShape::SampleHold => LfoShape::Sine,
        }
    }

    /// The value of [`LfoShape::prev`] for each variant.
    pub open spec fn prev_spec(self) -> LfoShape {
        match self {
            LfoShape::Sine => LfoShape::SampleHold,
            LfoShape::Triangle => LfoShape::Sine,
            LfoShape::Square => LfoShape::Triangle,
            LfoShape::SampleHold => LfoShape::Square,
        }
    }

    /// The preceding variant, wrapping around.
    pub fn prev(self) -> (r: LfoShape)
        ensures
            r == self.prev_spec(),
    {
        match self {
            LfoShape::Sine => LfoShape::SampleHold,
            LfoShape::Triangle => LfoShape::Sine,
            LfoShape::Square => LfoShape::Triangle,
            LfoShape::SampleHold => LfoShape::Square,
        }
    }
}

/// Stepping forward then back (or back then forward) returns to the start.
pub proof fn lemma_lfo_shape_cycle(k: LfoShape)
    ensures
        k.next_spec().prev_spec() == k,
        k.prev_spec().next_spec() == k,
{
}

/// Granular parameter target for LFO modulation.
#[derive(Debug, Clone, Copy, PartialEq, Eq, Structural)]
pub enum ModTarget {
    Spray,
    Density,
    PitchSt,
    Pan,
    GrainSize,
    Overlap,
    Jitter,
}

impl Default for ModTarget {
    fn default() -> (r: ModTarget)
        ensures
            r == ModTarget::Spray,
    {
        ModTarget::Spray
    }
}
impl ModTarget {
    /// The value of [`ModTarget::label`] for each variant.
    pub open spec fn label_spec(self) -> Seq<char> {
        match self {
            ModTarget::Spray => "spray"@,
            ModTarget::Density => "density"@,
            ModTarget::PitchSt => "pitch"@,
            ModTarget::Pan => "pan"@,
            ModTarget::GrainSize => "grain_sz"@,
            ModTarget::Overlap => "overlap"@,
            ModTarget::Jitter => "jitter"@,
        }
    }

    /// Display label.
    pub fn label(self) -> (r: &'static str)
        ensures
            r@ == self.label_spec(),
    {
        match self {
            ModTarget::Spray => "spray",
            ModTarget::Density => "density",
            ModTarget::PitchSt => "pitch",
            ModTarget::Pan => "pan",
            ModTarget::GrainSize => "grain_sz",
            ModTarget::Overlap => "overlap",
            ModTarget::Jitter => "jitter",
        }
    }

    /// The value of [`ModTarget::next`] for each variant.
    pub open spec fn next_spec(self) -> ModTarget {
        match self {
            ModTarget::Spray => ModTarget::Density,
            ModTarget::Density => ModTarget::PitchSt,
            ModTarget::PitchSt => ModTarget::Pan,
            ModTarget::Pan => ModTarget::GrainSize,
            ModTarget::GrainSize => ModTarget::Overlap,
            ModTarget::Overlap => ModTarget::Jitter,
            ModTarget::Jitter => ModTarget::Spray,
        }
    }

    /// The following variant, wrapping around.
    pub fn next(self) -> (r: ModTarget)
        ensures
            r == self.next_spec(),
    {
        match self {
            ModTarget::Spray => ModTarget::Density,
            ModTarget::Density => ModTarget::PitchSt,
            ModTarget::PitchSt => ModTarget::Pan,
            ModTarget::Pan => ModTarget::GrainSize,
            ModTarget::GrainSize => ModTarget::Overlap,
            ModTarget::Overlap => ModTarget::Jitter,
            ModTarget::Jitter => ModTarget::Spray,
        }
    }

    /// The value of [`ModTarget::prev`] for each variant.
    pub open spec fn prev_spec(self) -> ModTarget {
        match self {
            ModTarget::Spray => ModTarget::Jitter,
            ModTarget::Density => ModTarget::Spray,
            ModTarget::PitchSt => ModTarget::Density,
            ModTarget::Pan => ModTarget::PitchSt,
            ModTarget::GrainSize => ModTarget::Pan,
            ModTarget::Overlap => ModTarget::GrainSize,
            ModTarget::Jitter => ModTarget::Overlap,
        }
    }

    /// The preceding variant, wrapping around.
    pub fn prev(self) -> (r: ModTarget)
        ensures
            r == self.prev_spec(),
    {
        match self {
            ModTarget::Spray => ModTarget::Jitter,
            ModTarget::Density => ModTarget::Spray,
            ModTarget::PitchSt => ModTarget::Density,
            ModTarget::Pan => ModTarget::PitchSt,
            ModTarget::GrainSize => ModTarget::Pan,
            ModTarget::Overlap => ModTarget::GrainSize,
            ModTarget::Jitter => ModTarget::Overlap,
        }
    }
}

/// Stepping forward then back (or back then forward) returns to the start.
pub proof fn lemma_mod_target_cycle(k: ModTarget)
    ensures
        k.next_spec().prev_spec() == k,
        k.prev_spec().next_spec() == k,
{
}

/// Number of LFO slots in the modulation matrix.
pub const MOD_SLOTS: usize = 4;

} // verus!
