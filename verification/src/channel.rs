//! Mixer channel vocabulary: channel types, pan positions, the FX catalogue
//! with its labels, parameter names and cycling order, FX slots and the
//! MIDI/OSC routing of FX parameters.

use crate::text::{append_pad2, pad2};
use vstd::prelude::*;
use vstd::string::*;

verus! {

/// Default GM drum map: 16 pads to standard GM percussion notes.
pub const GM_DRUM_MAP: [u8; 16] = [36, 38, 42, 46, 43, 45, 47, 50, 39, 49, 51, 55, 41, 37, 53, 56];

/// Mixer channel type: determines signal flow and routing options.
#[derive(Debug, Clone, Copy, PartialEq, Eq, Structural)]
pub enum ChannelType {
    /// Standard audio track channel.
    Audio,
    /// Instrument channel (routed from an SF2 synth or plugin).
    Instrument,
    /// Group bus: receives sends from multiple channels.
    GroupBus,
    /// Return track: receives the effects bus send.
    Return,
    /// Master output channel.
    Master,
}

impl Default for ChannelType {
    fn default() -> (r: ChannelType)
        ensures
            r == ChannelType::Audio,
    {
        ChannelType::Audio
    }
}

/// Pan position.
#[derive(Debug, Clone, Copy, PartialEq, Eq, Structural)]
pub enum Pan {
    Left(u8),
    Center,
    Right(u8),
}

impl Pan {
    /// `L05`, `CENTER` or `R12`: side letter and the amount padded to two digits.
    pub open spec fn label_spec(self) -> Seq<char> {
        match self {
            Pan::Left(v) => seq!['L'] + pad2(v as nat),
            Pan::Center => seq!['C', 'E', 'N', 'T', 'E', 'R'],
            Pan::Right(v) => seq!['R'] + pad2(v as nat),
        }
    }

    pub fn label(&self) -> (r: String)
        ensures
            r@ == self.label_spec(),
    {
        match self {
            Pan::Left(v) => {
                let mut s = String::from_str("L");
                proof {
                    reveal_strlit("L");
                }
                append_pad2(&mut s, *v as u64);
                s
            },
            Pan::Center => {
                let s = String::from_str("CENTER");
                proof {
                    reveal_strlit("CENTER");
                    assert(s@ =~= seq!['C', 'E', 'N', 'T', 'E', 'R']);
                }
                s
            },
            Pan::Right(v) => {
                let mut s = String::from_str("R");
                proof {
                    reveal_strlit("R");
                }
                append_pad2(&mut s, *v as u64);
                s
            },
        }
    }

    /// Signed position in `-50..=50` (amounts beyond 50 clamp).
    pub open spec fn to_val_spec(self) -> int {
        match self {
            Pan::Left(v) => -(if v > 50 {
                50
            } else {
                v as int
            }),
            Pan::Center => 0,
            Pan::Right(v) => if v > 50 {
                50
            } else {
                v as int
            },
        }
    }

    /// Convert to a signed integer in `-50..=50`.
    pub fn to_val(&self) -> (r: i8)
        ensures
            r == self.to_val_spec(),
    {
        match self {
            Pan::Left(v) => -((if *v > 50 { 50 } else { *v }) as i8),
            Pan::Center => 0,
            Pan::Right(v) => (if *v > 50 { 50 } else { *v }) as i8,
        }
    }

    /// Construct from a signed integer: negative is left, zero centre, positive right.
    pub fn from_val(v: i8) -> (r: Pan)
        requires
            v > i8::MIN,
        ensures
            v < 0 ==> r == Pan::Left((-v) as u8),
            v == 0 ==> r == Pan::Center,
            v > 0 ==> r == Pan::Right(v as u8),
    {
        if v < 0 {
            Pan::Left((-v) as u8)
        } else if v == 0 {
            Pan::Center
        } else {
            Pan::Right(v as u8)
        }
    }
}

/// Any position in `-50..=50` survives `from_val` followed by `to_val`.
pub proof fn lemma_pan_roundtrip(v: i8)
    requires
        -50 <= v <= 50,
    ensures
        (if v < 0 {
            Pan::Left((-v) as u8)
        } else if v == 0 {
            Pan::Center
        } else {
            Pan::Right(v as u8)
        }).to_val_spec() == v,
{
}

impl Default for Pan {
    fn default() -> (r: Pan)
        ensures
            r == Pan::Center,
    {
        Pan::Center
    }
}

/// FX effect type: the audio-engine processors and utility FX.
#[derive(Debug, Clone, Copy, PartialEq, Eq, Structural)]
pub enum FxKind {
    Off,
    Delay,
    Reverb,
    Chorus,
    Flanger,
    Phaser,
    GranularDelay,
    Looper,
    Compressor,
    Limiter,
    Gate,
    Expander,
    SidechainDuck,
    Equalizer,
    ParametricEq,
    Isolator,
    FilterBank,
    Distortion,
    Bitcrusher,
    SoftClipper,
    Saturator,
    TubeSaturation,
    Cassette,
    VinylSim,
    Gain,
    Pan,
    Widener,
    PhaseInvert,
    MonoMaker,
}

impl Default for FxKind {
    fn default() -> (r: FxKind)
        ensures
            r == FxKind::Off,
    {
        FxKind::Off
    }
}
impl FxKind {
    /// Cycling order of the FX kinds.
    pub const ORDER: [FxKind; 29] = [FxKind::Off, FxKind::Delay, FxKind::Reverb, FxKind::Chorus, FxKind::Flanger, FxKind::Phaser, FxKind::GranularDelay, FxKind::Looper, FxKind::Compressor, FxKind::Limiter, FxKind::Gate, FxKind::Expander, FxKind::SidechainDuck, FxKind::Equalizer, FxKind::ParametricEq, FxKind::Isolator, FxKind::FilterBank, FxKind::Distortion, FxKind::Bitcrusher, FxKind::SoftClipper, FxKind::Saturator, FxKind::TubeSaturation, FxKind::Cassette, FxKind::VinylSim, FxKind::Gain, FxKind::Pan, FxKind::Widener, FxKind::PhaseInvert, FxKind::MonoMaker];

    /// Position of `self` in the cycling order.
    pub open spec fn index_spec(self) -> int {
        match self {
            FxKind::Off => 0,
            FxKind::Delay => 1,
            FxKind::Reverb => 2,
            FxKind::Chorus => 3,
            FxKind::Flanger => 4,
            FxKind::Phaser => 5,
            FxKind::GranularDelay => 6,
            FxKind::Looper => 7,
            FxKind::Compressor => 8,
            FxKind::Limiter => 9,
            FxKind::Gate => 10,
            FxKind::Expander => 11,
            FxKind::SidechainDuck => 12,
            FxKind::Equalizer => 13,
            FxKind::ParametricEq => 14,
            FxKind::Isolator => 15,
            FxKind::FilterBank => 16,
            FxKind::Distortion => 17,
            FxKind::Bitcrusher => 18,
            FxKind::SoftClipper => 19,
            FxKind::Saturator => 20,
            FxKind::TubeSaturation => 21,
            FxKind::Cassette => 22,
            FxKind::VinylSim => 23,
            FxKind::Gain => 24,
            FxKind::Pan => 25,
            FxKind::Widener => 26,
            FxKind::PhaseInvert => 27,
            FxKind::MonoMaker => 28,
        }
    }

    /// The kind at position `i` of the cycling order.
    pub open spec fn at_spec(i: int) -> FxKind {
        if i == 0 { FxKind::Off } else if i == 1 { FxKind::Delay } else if i == 2 { FxKind::Reverb } else if i == 3 { FxKind::Chorus } else if i == 4 { FxKind::Flanger } else if i == 5 { FxKind::Phaser } else if i == 6 { FxKind::GranularDelay } else if i == 7 { FxKind::Looper } else if i == 8 { FxKind::Compressor } else if i == 9 { FxKind::Limiter } else if i == 10 { FxKind::Gate } else if i == 11 { FxKind::Expander } else if i == 12 { FxKind::SidechainDuck } else if i == 13 { FxKind::Equalizer } else if i == 14 { FxKind::ParametricEq } else if i == 15 { FxKind::Isolator } else if i == 16 { FxKind::FilterBank } else if i == 17 { FxKind::Distortion } else if i == 18 { FxKind::Bitcrusher } else if i == 19 { FxKind::SoftClipper } else if i == 20 { FxKind::Saturator } else if i == 21 { FxKind::TubeSaturation } else if i == 22 { FxKind::Cassette } else if i == 23 { FxKind::VinylSim } else if i == 24 { FxKind::Gain } else if i == 25 { FxKind::Pan } else if i == 26 { FxKind::Widener } else if i == 27 { FxKind::PhaseInvert } else { FxKind::MonoMaker }
    }

    /// The value of [`FxKind::label`] for each variant.
    pub open spec fn label_spec(self) -> Seq<char> {
        match self {
            FxKind::Off => "None"@,
            FxKind::Delay => "Delay"@,
            FxKind::Reverb => "Reverb"@,
            FxKind::Chorus => "Chorus"@,
            FxKind::Flanger => "Flanger"@,
            FxKind::Phaser => "Phaser"@,
            FxKind::GranularDelay => "Granular Delay"@,
            FxKind::Looper => "Looper"@,
            FxKind::Compressor => "Compressor"@,
            FxKind::Limiter => "Limiter"@,
            FxKind::Gate => "Gate"@,
            FxKind::Expander => "Expander"@,
            FxKind::SidechainDuck => "Sidechain Duck"@,
            FxKind::Equalizer => "Equalizer"@,
            FxKind::ParametricEq => "Parametric EQ"@,
            FxKind::Isolator => "Isolator"@,
            FxKind::FilterBank => "Filter Bank"@,
            FxKind::Distortion => "Distortion"@,
            FxKind::Bitcrusher => "Bitcrusher"@,
            FxKind::SoftClipper => "Soft Clipper"@,
            FxKind::Saturator => "Saturator"@,
            FxKind::TubeSaturation => "Tube Saturation"@,
            FxKind::Cassette => "Cassette"@,
            FxKind::VinylSim => "Vinyl Sim"@,
            FxKind::Gain => "Gain"@,
            FxKind::Pan => "Pan"@,
            FxKind::Widener => "Widener"@,
            FxKind::PhaseInvert => "Phase Invert"@,
            FxKind::MonoMaker => "Mono Maker"@,
        }
    }

    /// Display name.
    pub fn label(&self) -> (r: &'static str)
        ensures
            r@ == self.label_spec(),
    {
        match self {
            FxKind::Off => "None",
            FxKind::Delay => "Delay",
            FxKind::Reverb => "Reverb",
            FxKind::Chorus => "Chorus",
            FxKind::Flanger => "Flanger",
            FxKind::Phaser => "Phaser",
            FxKind::GranularDelay => "Granular Delay",
            FxKind::Looper => "Looper",
            FxKind::Compressor => "Compressor",
            FxKind::Limiter => "Limiter",
            FxKind::Gate => "Gate",
            FxKind::Expander => "Expander",
            FxKind::SidechainDuck => "Sidechain Duck",
            FxKind::Equalizer => "Equalizer",
            FxKind::ParametricEq => "Parametric EQ",
            FxKind::Isolator => "Isolator",
            FxKind::FilterBank => "Filter Bank",
            FxKind::Distortion => "Distortion",
            FxKind::Bitcrusher => "Bitcrusher",
            FxKind::SoftClipper => "Soft Clipper",
            FxKind::Saturator => "Saturator",
            FxKind::TubeSaturation => "Tube Saturation",
            FxKind::Cassette => "Cassette",
            FxKind::VinylSim => "Vinyl Sim",
            FxKind::Gain => "Gain",
            FxKind::Pan => "Pan",
            FxKind::Widener => "Widener",
            FxKind::PhaseInvert => "Phase Invert",
            FxKind::MonoMaker => "Mono Maker",
        }
    }

    /// The value of [`FxKind::short_label`] for each variant.
    pub open spec fn short_label_spec(self) -> Seq<char> {
        match self {
            FxKind::Off => "───"@,
            FxKind::Delay => "DLY"@,
            FxKind::Reverb => "REV"@,
            FxKind::Chorus => "CHR"@,
            FxKind::Flanger => "FLG"@,
            FxKind::Phaser => "PHS"@,
            FxKind::GranularDelay => "GDL"@,
            FxKind::Looper => "LPR"@,
            FxKind::Compressor => "CMP"@,
            FxKind::Limiter => "LIM"@,
            FxKind::Gate => "GAT"@,
            FxKind::Expander => "EXP"@,
            FxKind::SidechainDuck => "SDK"@,
            FxKind::Equalizer => "EQ "@,
            FxKind::ParametricEq => "PEQ"@,
            FxKind::Isolator => "ISO"@,
            FxKind::FilterBank => "FBK"@,
            FxKind::Distortion => "DST"@,
            FxKind::Bitcrusher => "BIT"@,
            FxKind::SoftClipper => "SCL"@,
            FxKind::Saturator => "SAT"@,
            FxKind::TubeSaturation => "TBE"@,
            FxKind::Cassette => "CST"@,
            FxKind::VinylSim => "VNL"@,
            FxKind::Gain => "GAN"@,
            FxKind::Pan => "PAN"@,
            FxKind::Widener => "WID"@,
            FxKind::PhaseInvert => "PHI"@,
            FxKind::MonoMaker => "MNO"@,
        }
    }

    /// Three-character label for narrow cells.
    pub fn short_label(&self) -> (r: &'static str)
        ensures
            r@ == self.short_label_spec(),
    {
        match self {
            FxKind::Off => "───",
            FxKind::Delay => "DLY",
            FxKind::Reverb => "REV",
            FxKind::Chorus => "CHR",
            FxKind::Flanger => "FLG",
            FxKind::Phaser => "PHS",
            FxKind::GranularDelay => "GDL",
            FxKind::Looper => "LPR",
            FxKind::Compressor => "CMP",
            FxKind::Limiter => "LIM",
            FxKind::Gate => "GAT",
            FxKind::Expander => "EXP",
            FxKind::SidechainDuck => "SDK",
            FxKind::Equalizer => "EQ ",
            FxKind::ParametricEq => "PEQ",
            FxKind::Isolator => "ISO",
            FxKind::FilterBank => "FBK",
            FxKind::Distortion => "DST",
            FxKind::Bitcrusher => "BIT",
            FxKind::SoftClipper => "SCL",
            FxKind::Saturator => "SAT",
            FxKind::TubeSaturation => "TBE",
            FxKind::Cassette => "CST",
            FxKind::VinylSim => "VNL",
            FxKind::Gain => "GAN",
            FxKind::Pan => "PAN",
            FxKind::Widener => "WID",
            FxKind::PhaseInvert => "PHI",
            FxKind::MonoMaker => "MNO",
        }
    }

    /// The value of [`FxKind::next`] for each variant.
    pub open spec fn next_spec(self) -> FxKind {
        match self {
            FxKind::Off => FxKind::Delay,
            FxKind::Delay => FxKind::Reverb,
            FxKind::Reverb => FxKind::Chorus,
            FxKind::Chorus => FxKind::Flanger,
            FxKind::Flanger => FxKind::Phaser,
            FxKind::Phaser => FxKind::GranularDelay,
            FxKind::GranularDelay => FxKind::Looper,
            FxKind::Looper => FxKind::Compressor,
            FxKind::Compressor => FxKind::Limiter,
            FxKind::Limiter => FxKind::Gate,
            FxKind::Gate => FxKind::Expander,
            FxKind::Expander => FxKind::SidechainDuck,
            FxKind::SidechainDuck => FxKind::Equalizer,
            FxKind::Equalizer => FxKind::ParametricEq,
            FxKind::ParametricEq => FxKind::Isolator,
            FxKind::Isolator => FxKind::FilterBank,
            FxKind::FilterBank => FxKind::Distortion,
            FxKind::Distortion => FxKind::Bitcrusher,
            FxKind::Bitcrusher => FxKind::SoftClipper,
            FxKind::SoftClipper => FxKind::Saturator,
            FxKind::Saturator => FxKind::TubeSaturation,
            FxKind::TubeSaturation => FxKind::Cassette,
            FxKind::Cassette => FxKind::VinylSim,
            FxKind::VinylSim => FxKind::Gain,
            FxKind::Gain => FxKind::Pan,
            FxKind::Pan => FxKind::Widener,
            FxKind::Widener => FxKind::PhaseInvert,
            FxKind::PhaseInvert => FxKind::MonoMaker,
            FxKind::MonoMaker => FxKind::Off,
        }
    }

    /// The following kind in cycling order, wrapping around.
    pub fn next(&self) -> (r: FxKind)
        ensures
            r == self.next_spec(),
    {
        match self {
            FxKind::Off => FxKind::Delay,
            FxKind::Delay => FxKind::Reverb,
            FxKind::Reverb => FxKind::Chorus,
            FxKind::Chorus => FxKind::Flanger,
            FxKind::Flanger => FxKind::Phaser,
            FxKind::Phaser => FxKind::GranularDelay,
            FxKind::GranularDelay => FxKind::Looper,
            FxKind::Looper => FxKind::Compressor,
            FxKind::Compressor => FxKind::Limiter,
            FxKind::Limiter => FxKind::Gate,
            FxKind::Gate => FxKind::Expander,
            FxKind::Expander => FxKind::SidechainDuck,
            FxKind::SidechainDuck => FxKind::Equalizer,
            FxKind::Equalizer => FxKind::ParametricEq,
            FxKind::ParametricEq => FxKind::Isolator,
            FxKind::Isolator => FxKind::FilterBank,
            FxKind::FilterBank => FxKind::Distortion,
            FxKind::Distortion => FxKind::Bitcrusher,
            FxKind::Bitcrusher => FxKind::SoftClipper,
            FxKind::SoftClipper => FxKind::Saturator,
            FxKind::Saturator => FxKind::TubeSaturation,
            FxKind::TubeSaturation => FxKind::Cassette,
            FxKind::Cassette => FxKind::VinylSim,
            FxKind::VinylSim => FxKind::Gain,
            FxKind::Gain => FxKind::Pan,
            FxKind::Pan => FxKind::Widener,
            FxKind::Widener => FxKind::PhaseInvert,
            FxKind::PhaseInvert => FxKind::MonoMaker,
            FxKind::MonoMaker => FxKind::Off,
        }
    }

    /// The value of [`FxKind::prev`] for each variant.
    pub open spec fn prev_spec(self) -> FxKind {
        match self {
            FxKind::Off => FxKind::MonoMaker,
            FxKind::Delay => FxKind::Off,
            FxKind::Reverb => FxKind::Delay,
            FxKind::Chorus => FxKind::Reverb,
            FxKind::Flanger => FxKind::Chorus,
            FxKind::Phaser => FxKind::Flanger,
            FxKind::GranularDelay => FxKind::Phaser,
            FxKind::Looper => FxKind::GranularDelay,
            FxKind::Compressor => FxKind::Looper,
            FxKind::Limiter => FxKind::Compressor,
            FxKind::Gate => FxKind::Limiter,
            FxKind::Expander => FxKind::Gate,
            FxKind::SidechainDuck => FxKind::Expander,
            FxKind::Equalizer => FxKind::SidechainDuck,
            FxKind::ParametricEq => FxKind::Equalizer,
            FxKind::Isolator => FxKind::ParametricEq,
            FxKind::FilterBank => FxKind::Isolator,
            FxKind::Distortion => FxKind::FilterBank,
            FxKind::Bitcrusher => FxKind::Distortion,
            FxKind::SoftClipper => FxKind::Bitcrusher,
            FxKind::Saturator => FxKind::SoftClipper,
            FxKind::TubeSaturation => FxKind::Saturator,
            FxKind::Cassette => FxKind::TubeSaturation,
            FxKind::VinylSim => FxKind::Cassette,
            FxKind::Gain => FxKind::VinylSim,
            FxKind::Pan => FxKind::Gain,
            FxKind::Widener => FxKind::Pan,
            FxKind::PhaseInvert => FxKind::Widener,
            FxKind::MonoMaker => FxKind::PhaseInvert,
        }
    }

    /// The preceding kind in cycling order, wrapping around.
    pub fn prev(&self) -> (r: FxKind)
        ensures
            r == self.prev_spec(),
    {
        match self {
            FxKind::Off => FxKind::MonoMaker,
            FxKind::Delay => FxKind::Off,
            FxKind::Reverb => FxKind::Delay,
            FxKind::Chorus => FxKind::Reverb,
            FxKind::Flanger => FxKind::Chorus,
            FxKind::Phaser => FxKind::Flanger,
            FxKind::GranularDelay => FxKind::Phaser,
            FxKind::Looper => FxKind::GranularDelay,
            FxKind::Compressor => FxKind::Looper,
            FxKind::Limiter => FxKind::Compressor,
            FxKind::Gate => FxKind::Limiter,
            FxKind::Expander => FxKind::Gate,
            FxKind::SidechainDuck => FxKind::Expander,
            FxKind::Equalizer => FxKind::SidechainDuck,
            FxKind::ParametricEq => FxKind::Equalizer,
            FxKind::Isolator => FxKind::ParametricEq,
            FxKind::FilterBank => FxKind::Isolator,
            FxKind::Distortion => FxKind::FilterBank,
            FxKind::Bitcrusher => FxKind::Distortion,
            FxKind::SoftClipper => FxKind::Bitcrusher,
            FxKind::Saturator => FxKind::SoftClipper,
            FxKind::TubeSaturation => FxKind::Saturator,
            FxKind::Cassette => FxKind::TubeSaturation,
            FxKind::VinylSim => FxKind::Cassette,
            FxKind::Gain => FxKind::VinylSim,
            FxKind::Pan => FxKind::Gain,
            FxKind::Widener => FxKind::Pan,
            FxKind::PhaseInvert => FxKind::Widener,
            FxKind::MonoMaker => FxKind::PhaseInvert,
        }
    }

    /// The eight parameter names of each kind.
    pub open spec fn param_labels_spec(self) -> Seq<Seq<char>> {
        match self {
            FxKind::Off => seq!["─────────"@, "─────────"@, "─────────"@, "─────────"@, "─────────"@, "─────────"@, "─────────"@, "─────────"@],
            FxKind::Delay => seq!["Dry/Wet"@, "Pan"@, "Delay"@, "L/R Delay"@, "L/R Cross"@, "Feedback"@, "Hi Pass"@, "─────────"@],
            FxKind::Reverb => seq!["Dry/Wet"@, "Pan"@, "Room Sz"@, "Rev Time"@, "Init Dly"@, "LR Cross"@, "Lo Pass"@, "Hi Pass"@],
            FxKind::Chorus => seq!["Dry/Wet"@, "Pan"@, "Freq"@, "Depth"@, "Feedback"@, "Delay"@, "LR Cross"@, "Phase"@],
            FxKind::Flanger => seq!["Dry/Wet"@, "Pan"@, "Freq"@, "Depth"@, "Feedback"@, "Delay"@, "Phase"@, "─────────"@],
            FxKind::Phaser => seq!["Dry/Wet"@, "Pan"@, "Freq"@, "Depth"@, "Feedback"@, "Phase"@, "Stages"@, "LR Cross"@],
            FxKind::GranularDelay => seq!["Dry/Wet"@, "Grain Sz"@, "Scatter"@, "Feedback"@, "Pitch"@, "Position"@, "─────────"@, "─────────"@],
            FxKind::Looper => seq!["Dry/Wet"@, "Speed"@, "Pitch"@, "Reverse"@, "Overdub"@, "─────────"@, "─────────"@, "─────────"@],
            FxKind::Compressor => seq!["Dry/Wet"@, "Threshold"@, "Ratio"@, "Attack"@, "Release"@, "Makeup"@, "Knee"@, "─────────"@],
            FxKind::Limiter => seq!["Threshold"@, "Release"@, "Makeup"@, "─────────"@, "─────────"@, "─────────"@, "─────────"@, "─────────"@],
            FxKind::Gate => seq!["Threshold"@, "Attack"@, "Hold"@, "Release"@, "Floor"@, "─────────"@, "─────────"@, "─────────"@],
            FxKind::Expander => seq!["Threshold"@, "Ratio"@, "Attack"@, "Release"@, "Range"@, "─────────"@, "─────────"@, "─────────"@],
            FxKind::SidechainDuck => seq!["Depth"@, "Attack"@, "Release"@, "─────────"@, "─────────"@, "─────────"@, "─────────"@, "─────────"@],
            FxKind::Equalizer => seq!["Low"@, "Low-Mid"@, "High-Mid"@, "High"@, "LF Freq"@, "HF Freq"@, "─────────"@, "─────────"@],
            FxKind::ParametricEq => seq!["HP Freq"@, "LS Gain"@, "Peak Freq"@, "Peak Gain"@, "Peak Q"@, "HS Gain"@, "─────────"@, "─────────"@],
            FxKind::Isolator => seq!["Bass"@, "Mid"@, "Treble"@, "─────────"@, "─────────"@, "─────────"@, "─────────"@, "─────────"@],
            FxKind::FilterBank => seq!["Band 1"@, "Band 2"@, "Band 3"@, "Band 4"@, "Band 5"@, "Band 6"@, "Band 7"@, "Band 8"@],
            FxKind::Distortion => seq!["Dry/Wet"@, "Pan"@, "Drive"@, "Level"@, "Type"@, "Lo Pass"@, "Hi Pass"@, "Stereo"@],
            FxKind::Bitcrusher => seq!["Bit Depth"@, "Sample Rate"@, "Dry/Wet"@, "─────────"@, "─────────"@, "─────────"@, "─────────"@, "─────────"@],
            FxKind::SoftClipper => seq!["Drive"@, "Dry/Wet"@, "─────────"@, "─────────"@, "─────────"@, "─────────"@, "─────────"@, "─────────"@],
            FxKind::Saturator => seq!["Drive"@, "Tone"@, "Level"@, "Mix"@, "─────────"@, "─────────"@, "─────────"@, "─────────"@],
            FxKind::TubeSaturation => seq!["Drive"@, "HP Tone"@, "Mix"@, "─────────"@, "─────────"@, "─────────"@, "─────────"@, "─────────"@],
            FxKind::Cassette => seq!["Drive"@, "Noise"@, "Tone"@, "Mix"@, "─────────"@, "─────────"@, "─────────"@, "─────────"@],
            FxKind::VinylSim => seq!["Wow"@, "Flutter"@, "Crackle"@, "Mix"@, "─────────"@, "─────────"@, "─────────"@, "─────────"@],
            FxKind::Gain => seq!["Gain dB"@, "─────────"@, "─────────"@, "─────────"@, "─────────"@, "─────────"@, "─────────"@, "─────────"@],
            FxKind::Pan => seq!["Pan"@, "Law"@, "─────────"@, "─────────"@, "─────────"@, "─────────"@, "─────────"@, "─────────"@],
            FxKind::Widener => seq!["Width"@, "─────────"@, "─────────"@, "─────────"@, "─────────"@, "─────────"@, "─────────"@, "─────────"@],
            FxKind::PhaseInvert => seq!["L Invert"@, "R Invert"@, "─────────"@, "─────────"@, "─────────"@, "─────────"@, "─────────"@, "─────────"@],
            FxKind::MonoMaker => seq!["─────────"@, "─────────"@, "─────────"@, "─────────"@, "─────────"@, "─────────"@, "─────────"@, "─────────"@],
        }
    }

    /// Eight parameter names for MIDI CC routing labels.
    pub fn param_labels(&self) -> (r: [&'static str; 8])
        ensures
            forall|i: int| 0 <= i < 8 ==> #[trigger] r@[i]@ == self.param_labels_spec()[i],
    {
        let r = match self {
            FxKind::Off => ["─────────", "─────────", "─────────", "─────────", "─────────", "─────────", "─────────", "─────────"],
            FxKind::Delay => ["Dry/Wet", "Pan", "Delay", "L/R Delay", "L/R Cross", "Feedback", "Hi Pass", "─────────"],
            FxKind::Reverb => ["Dry/Wet", "Pan", "Room Sz", "Rev Time", "Init Dly", "LR Cross", "Lo Pass", "Hi Pass"],
            FxKind::Chorus => ["Dry/Wet", "Pan", "Freq", "Depth", "Feedback", "Delay", "LR Cross", "Phase"],
            FxKind::Flanger => ["Dry/Wet", "Pan", "Freq", "Depth", "Feedback", "Delay", "Phase", "─────────"],
            FxKind::Phaser => ["Dry/Wet", "Pan", "Freq", "Depth", "Feedback", "Phase", "Stages", "LR Cross"],
            FxKind::GranularDelay => ["Dry/Wet", "Grain Sz", "Scatter", "Feedback", "Pitch", "Position", "─────────", "─────────"],
            FxKind::Looper => ["Dry/Wet", "Speed", "Pitch", "Reverse", "Overdub", "─────────", "─────────", "─────────"],
            FxKind::Compressor => ["Dry/Wet", "Threshold", "Ratio", "Attack", "Release", "Makeup", "Knee", "─────────"],
            FxKind::Limiter => ["Threshold", "Release", "Makeup", "─────────", "─────────", "─────────", "─────────", "─────────"],
            FxKind::Gate => ["Threshold", "Attack", "Hold", "Release", "Floor", "─────────", "─────────", "─────────"],
            FxKind::Expander => ["Threshold", "Ratio", "Attack", "Release", "Range", "─────────", "─────────", "─────────"],
            FxKind::SidechainDuck => ["Depth", "Attack", "Release", "─────────", "─────────", "─────────", "─────────", "─────────"],
            FxKind::Equalizer => ["Low", "Low-Mid", "High-Mid", "High", "LF Freq", "HF Freq", "─────────", "─────────"],
            FxKind::ParametricEq => ["HP Freq", "LS Gain", "Peak Freq", "Peak Gain", "Peak Q", "HS Gain", "─────────", "─────────"],
            FxKind::Isolator => ["Bass", "Mid", "Treble", "─────────", "─────────", "─────────", "─────────", "─────────"],
            FxKind::FilterBank => ["Band 1", "Band 2", "Band 3", "Band 4", "Band 5", "Band 6", "Band 7", "Band 8"],
            FxKind::Distortion => ["Dry/Wet", "Pan", "Drive", "Level", "Type", "Lo Pass", "Hi Pass", "Stereo"],
            FxKind::Bitcrusher => ["Bit Depth", "Sample Rate", "Dry/Wet", "─────────", "─────────", "─────────", "─────────", "─────────"],
            FxKind::SoftClipper => ["Drive", "Dry/Wet", "─────────", "─────────", "─────────", "─────────", "─────────", "─────────"],
            FxKind::Saturator => ["Drive", "Tone", "Level", "Mix", "─────────", "─────────", "─────────", "─────────"],
            FxKind::TubeSaturation => ["Drive", "HP Tone", "Mix", "─────────", "─────────", "─────────", "─────────", "─────────"],
            FxKind::Cassette => ["Drive", "Noise", "Tone", "Mix", "─────────", "─────────", "─────────", "─────────"],
            FxKind::VinylSim => ["Wow", "Flutter", "Crackle", "Mix", "─────────", "─────────", "─────────", "─────────"],
            FxKind::Gain => ["Gain dB", "─────────", "─────────", "─────────", "─────────", "─────────", "─────────", "─────────"],
            FxKind::Pan => ["Pan", "Law", "─────────", "─────────", "─────────", "─────────", "─────────", "─────────"],
            FxKind::Widener => ["Width", "─────────", "─────────", "─────────", "─────────", "─────────", "─────────", "─────────"],
            FxKind::PhaseInvert => ["L Invert", "R Invert", "─────────", "─────────", "─────────", "─────────", "─────────", "─────────"],
            FxKind::MonoMaker => ["─────────", "─────────", "─────────", "─────────", "─────────", "─────────", "─────────", "─────────"],
        };
        r
    }
}

/// The cycling order visits every kind once: `next` is "one further" and
/// `prev` "one back" along [`FxKind::ORDER`], modulo its length.
pub proof fn lemma_fx_kind_cycle(k: FxKind)
    ensures
        0 <= k.index_spec() < 29,
        FxKind::at_spec(k.index_spec()) == k,
        k.next_spec() == FxKind::at_spec((k.index_spec() + 1) % 29),
        k.prev_spec() == FxKind::at_spec((k.index_spec() + 28) % 29),
        k.next_spec().prev_spec() == k,
{
}

/// An FX slot with effect type, 8 CC-mapped parameters, and MIDI routing.
#[derive(Debug, Clone)]
pub struct FxSlot {
    pub enabled: bool,
    pub kind: FxKind,
    /// MIDI output port for CC routing (empty = unassigned).
    pub midi_port: String,
    /// MIDI channel 1-16.
    pub midi_channel: u8,
    /// CC numbers for each of the 8 parameters (0 = unassigned).
    pub cc_nums: [u8; 8],
    /// Current values 0-127 for each of the 8 parameters.
    pub cc_vals: [u8; 8],
}

impl Default for FxSlot {
    fn default() -> (r: FxSlot)
        ensures
            !r.enabled,
            r.kind == FxKind::Off,
            r.midi_port@ == Seq::<char>::empty(),
            r.midi_channel == 1,
            r.cc_nums@ == seq![0u8, 0, 0, 0, 0, 0, 0, 0],
            r.cc_vals@ == seq![64u8, 64, 64, 64, 0, 0, 0, 0],
    {
        let r = FxSlot {
            enabled: false,
            kind: FxKind::Off,
            midi_port: String::new(),
            midi_channel: 1,
            cc_nums: [0; 8],
            cc_vals: [64, 64, 64, 64, 0, 0, 0, 0],
        };
        proof {
            assert(r.cc_nums@ =~= seq![0u8, 0, 0, 0, 0, 0, 0, 0]);
            assert(r.cc_vals@ =~= seq![64u8, 64, 64, 64, 0, 0, 0, 0]);
        }
        r
    }
}

/// Where an FX parameter change is sent: MIDI CC or OSC message.
#[derive(Debug, Clone, Copy, PartialEq, Eq, Structural)]
pub enum FxRouteKind {
    Off,
    Midi,
    Osc,
}

impl Default for FxRouteKind {
    fn default() -> (r: FxRouteKind)
        ensures
            r == FxRouteKind::Off,
    {
        FxRouteKind::Off
    }
}
impl FxRouteKind {
    /// The value of [`FxRouteKind::label`] for each variant.
    pub open spec fn label_spec(self) -> Seq<char> {
        match self {
            FxRouteKind::Off => "NONE"@,
            FxRouteKind::Midi => "MIDI"@,
            FxRouteKind::Osc => "OSC"@,
        }
    }

    /// Display label.
    pub fn label(&self) -> (r: &'static str)
        ensures
            r@ == self.label_spec(),
    {
        match self {
            FxRouteKind::Off => "NONE",
            FxRouteKind::Midi => "MIDI",
            FxRouteKind::Osc => "OSC",
        }
    }

    /// The value of [`FxRouteKind::next`] for each variant.
    pub open spec fn next_spec(self) -> FxRouteKind {
        match self {
            FxRouteKind::Off => FxRouteKind::Midi,
            FxRouteKind::Midi => FxRouteKind::Osc,
            FxRouteKind::Osc => FxRouteKind::Off,
        }
    }

    /// The following route kind, wrapping around.
    pub fn next(&self) -> (r: FxRouteKind)
        ensures
            r == self.next_spec(),
    {
        match self {
            FxRouteKind::Off => FxRouteKind::Midi,
            FxRouteKind::Midi => FxRouteKind::Osc,
            FxRouteKind::Osc => FxRouteKind::Off,
        }
    }

    /// The value of [`FxRouteKind::prev`] for each variant.
    pub open spec fn prev_spec(self) -> FxRouteKind {
        match self {
            FxRouteKind::Off => FxRouteKind::Osc,
            FxRouteKind::Midi => FxRouteKind::Off,
            FxRouteKind::Osc => FxRouteKind::Midi,
        }
    }

    /// The preceding route kind, wrapping around.
    pub fn prev(&self) -> (r: FxRouteKind)
        ensures
            r == self.prev_spec(),
    {
        match self {
            FxRouteKind::Off => FxRouteKind::Osc,
            FxRouteKind::Midi => FxRouteKind::Off,
            FxRouteKind::Osc => FxRouteKind::Midi,
        }
    }
}

/// Stepping forward then back (or back then forward) returns to the start.
pub proof fn lemma_fx_route_kind_cycle(k: FxRouteKind)
    ensures
        k.next_spec().prev_spec() == k,
        k.prev_spec().next_spec() == k,
{
}

/// Destination of FX parameter changes.
#[derive(Debug, Clone)]
pub struct FxRoute {
    pub kind: FxRouteKind,
    pub midi_port: String,
    pub midi_channel: u8,
    pub midi_cc: u8,
    pub osc_address: String,
    pub osc_port: u16,
}

impl Default for FxRoute {
    fn default() -> (r: FxRoute)
        ensures
            r.kind == FxRouteKind::Off,
            r.midi_port@ == Seq::<char>::empty(),
            r.midi_channel == 1,
            r.midi_cc == 91,
            r.osc_address@ == seq!['/', 'f', 'x', '/', '1'],
            r.osc_port == 9000,
    {
        let osc_address = String::from_str("/fx/1");
        proof {
            reveal_strlit("/fx/1");
            assert(osc_address@ =~= seq!['/', 'f', 'x', '/', '1']);
        }
        FxRoute {
            kind: FxRouteKind::Off,
            midi_port: String::new(),
            midi_channel: 1,
            midi_cc: 91,
            osc_address,
            osc_port: 9000,
        }
    }
}

} // verus!
