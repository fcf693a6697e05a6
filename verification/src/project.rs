//! Project-level vocabulary: clock sync source, MIDI ports, OSC routes,
//! arranger tracks, scenes and the song-mode chain.

use vstd::prelude::*;

verus! {

/// MIDI clock sync source.
#[derive(Debug, Clone, Copy, PartialEq, Eq, Structural)]
pub enum SyncMode {
    Internal,
    Usb,
    Midi,
    Clock,
}

impl Default for SyncMode {
    fn default() -> (r: SyncMode)
        ensures
            r == SyncMode::Internal,
    {
        SyncMode::Internal
    }
}
impl SyncMode {
    /// The value of [`SyncMode::label`] for each variant.
    pub open spec fn label_spec(self) -> Seq<char> {
        match self {
            SyncMode::Internal => "INT"@,
            SyncMode::Usb => "USB"@,
            SyncMode::Midi => "MIDI"@,
            SyncMode::Clock => "CLK"@,
        }
    }

    /// Display label.
    pub fn label(&self) -> (r: &'static str)
        ensures
            r@ == self.label_spec(),
    {
        match self {
            SyncMode::Internal => "INT",
            SyncMode::Usb => "USB",
            SyncMode::Midi => "MIDI",
            SyncMode::Clock => "CLK",
        }
    }
}

/// Arranger track kind: determines icon and signal-flow semantics.
#[derive(Debug, Clone, Copy, PartialEq, Eq, Structural)]
pub enum TrackKind {
    Midi,
    Audio,
    Drum,
    Group,
    Bus,
    Auto,
}

impl Default for TrackKind {
    fn default() -> (r: TrackKind)
        ensures
            r == TrackKind::Midi,
    {
        TrackKind::Midi
    }
}
impl TrackKind {
    /// The value of [`TrackKind::short_label`] for each variant.
    pub open spec fn short_label_spec(self) -> Seq<char> {
        match self {
            TrackKind::Midi => "MIDI"@,
            TrackKind::Audio => "AUDI"@,
            TrackKind::Drum => "DRUM"@,
            TrackKind::Group => "GRP "@,
            TrackKind::Bus => "BUS "@,
            TrackKind::Auto => "AUTO"@,
        }
    }

    /// Four-character label.
    pub fn short_label(self) -> (r: &'static str)
        ensures
            r@ == self.short_label_spec(),
    {
        match self {
            TrackKind::Midi => "MIDI",
            TrackKind::Audio => "AUDI",
            TrackKind::Drum => "DRUM",
            TrackKind::Group => "GRP ",
            TrackKind::Bus => "BUS ",
            TrackKind::Auto => "AUTO",
        }
    }

    /// The value of [`TrackKind::next`] for each variant.
    pub open spec fn next_spec(self) -> TrackKind {
        match self {
            TrackKind::Midi => TrackKind::Audio,
            TrackKind::Audio => TrackKind::Drum,
            TrackKind::Drum => TrackKind::Group,
            TrackKind::Group => TrackKind::Bus,
            TrackKind::Bus => TrackKind::Auto,
            TrackKind::Auto => TrackKind::Midi,
        }
    }

    /// The following kind, wrapping around.
    pub fn next(self) -> (r: TrackKind)
        ensures
            r == self.next_spec(),
    {
        match self {
            TrackKind::Midi => TrackKind::Audio,
            TrackKind::Audio => TrackKind::Drum,
            TrackKind::Drum => TrackKind::Group,
            TrackKind::Group => TrackKind::Bus,
            TrackKind::Bus => TrackKind::Auto,
            TrackKind::Auto => TrackKind::Midi,
        }
    }
}

/// A MIDI I/O port descriptor.
#[derive(Debug, Clone)]
pub struct MidiPort {
    pub name: String,
    pub enabled: bool,
    pub channel: u8,
}

impl MidiPort {
    /// An enabled port.
    pub fn new(name: String, channel: u8) -> (r: MidiPort)
        ensures
            r.name == name,
            r.enabled,
            r.channel == channel,
    {
        MidiPort { name, enabled: true, channel }
    }
}

/// An OSC route mapping.
#[derive(Debug, Clone)]
pub struct OscRoute {
    pub address: String,
    pub target: String,
    pub enabled: bool,
}

impl OscRoute {
    /// An enabled route.
    pub fn new(address: String, target: String) -> (r: OscRoute)
        ensures
            r.address == address,
            r.target == target,
            r.enabled,
    {
        OscRoute { address, target, enabled: true }
    }
}

/// An arranger track with clip blocks `(start_bar, length_bars, label)`.
#[derive(Debug, Clone)]
pub struct Track {
    pub name: String,
    pub blocks: Vec<(u32, u32, String)>,
    pub mute: bool,
}

impl Track {
    /// An unmuted track without blocks.
    pub fn new(name: String) -> (r: Track)
        ensures
            r.name == name,
            r.blocks@.len() == 0,
            !r.mute,
    {
        Track { name, blocks: Vec::new(), mute: false }
    }
}

/// A bar-based automation lane of the matrix: points `(bar, value 0-127)`.
#[derive(Debug, Clone)]
pub struct AutomationLane {
    pub name: String,
    pub target: String,
    pub points: Vec<(u32, u8)>,
    pub enabled: bool,
}

/// Bar `bar` lies between the bars of points `j` and `j + 1`.
pub open spec fn brackets(p: Seq<(u32, u8)>, j: int, bar: u32) -> bool {
    p[j].0 <= bar && bar <= p[j + 1].0
}

/// Where a bar falls on a lane: at a held value, or between two points.
#[derive(Debug, Clone, Copy, PartialEq, Eq)]
pub enum LaneSpan {
    /// The value is this point's value.
    Held(u8),
    /// The value runs from the first point to the second.
    Between((u32, u8), (u32, u8)),
}

impl AutomationLane {
    /// An enabled lane without points.
    pub fn new(name: String, target: String) -> (r: AutomationLane)
        ensures
            r.name == name,
            r.target == target,
            r.points@.len() == 0,
            r.enabled,
    {
        AutomationLane { name, target, points: Vec::new(), enabled: true }
    }

    /// Where `bar` falls: the first point's value up to its bar, the last
    /// point's value from its bar on, else between the first pair of
    /// neighbouring points that brackets it (held at the first of the two
    /// when they share a bar).
    pub fn span_at(&self, bar: u32) -> (r: LaneSpan)
        requires
            self.points@.len() > 0,
        ensures
            ({
                let p = self.points@;
                let n = p.len() as int;
                if bar <= p[0].0 {
                    r == LaneSpan::Held(p[0].1)
                } else if bar >= p[n - 1].0 {
                    r == LaneSpan::Held(p[n - 1].1)
                } else {
                    exists|i: int|
                        0 <= i < n - 1 && #[trigger] brackets(p, i, bar) && (forall|j: int|
                            0 <= j < i ==> !brackets(p, j, bar)) && r == (if p[i].0 == p[i + 1].0 {
                            LaneSpan::Held(p[i].1)
                        } else {
                            LaneSpan::Between(p[i], p[i + 1])
                        })
                }
            }),
    {
        let n = self.points.len();
        if bar <= self.points[0].0 {
            return LaneSpan::Held(self.points[0].1);
        }
        if bar >= self.points[n - 1].0 {
            return LaneSpan::Held(self.points[n - 1].1);
        }
        let mut i: usize = 0;
        while i + 1 < n && !(self.points[i].0 <= bar && self.points[i + 1].0 >= bar)
            invariant
                n == self.points@.len(),
                n >= 1,
                i + 1 <= n,
                forall|j: int| 0 <= j < i ==> !brackets(self.points@, j, bar),
            decreases n - i,
        {
            i = i + 1;
        }
        if i + 1 >= n {
            proof {
                lemma_bracket_exists(self.points@, bar);
            }
            return LaneSpan::Held(self.points[n - 1].1);
        }
        let lo = self.points[i];
        let hi = self.points[i + 1];
        let r = if hi.0 == lo.0 {
            LaneSpan::Held(lo.1)
        } else {
            LaneSpan::Between(lo, hi)
        };
        proof {
            let p = self.points@;
            let ii = i as int;
            assert(p[ii].0 <= bar && bar <= p[ii + 1].0);
            assert(0 <= ii < n - 1 && brackets(p, ii, bar) && (forall|j: int|
                0 <= j < ii ==> !brackets(p, j, bar)) && r == (if p[ii].0 == p[ii + 1].0 {
                LaneSpan::Held(p[ii].1)
            } else {
                LaneSpan::Between(p[ii], p[ii + 1])
            }));
        }
        r
    }
}

/// A bar strictly between the first and last points' bars lies between some
/// pair of neighbouring points.
proof fn lemma_bracket_exists(p: Seq<(u32, u8)>, bar: u32)
    requires
        p.len() >= 1,
        p[0].0 < bar < p[p.len() - 1].0,
    ensures
        exists|j: int| 0 <= j < p.len() - 1 && brackets(p, j, bar),
    decreases p.len(),
{
    let n = p.len() as int;
    if p[n - 2].0 <= bar {
        assert(brackets(p, n - 2, bar));
    } else {
        lemma_bracket_exists(p.drop_last(), bar);
        let j = choose|j: int| 0 <= j < n - 2 && brackets(p.drop_last(), j, bar);
        assert(brackets(p, j, bar));
    }
}

/// A scene: which pattern key is active per matrix row (8 rows).
#[derive(Debug, Clone)]
pub struct Scene {
    pub name: String,
    pub active_clips: Vec<Option<String>>,
    pub mute_mask: u8,
    pub fx_mask: u8,
}

impl Scene {
    /// A scene with eight empty rows and no masks.
    pub fn new(name: String) -> (r: Scene)
        ensures
            r.name == name,
            r.active_clips@.len() == 8,
            forall|i: int| 0 <= i < 8 ==> r.active_clips@[i] is None,
            r.mute_mask == 0,
            r.fx_mask == 0,
    {
        let mut active_clips: Vec<Option<String>> = Vec::new();
        let mut i: usize = 0;
        while i < 8
            invariant
                i <= 8,
                active_clips@.len() == i,
                forall|j: int| 0 <= j < i ==> active_clips@[j] is None,
            decreases 8 - i,
        {
            active_clips.push(None);
            i = i + 1;
        }
        Scene { name, active_clips, mute_mask: 0, fx_mask: 0 }
    }
}

/// One entry in the song-mode pattern chain.
#[derive(Debug, Clone, Copy, PartialEq, Eq, Structural)]
pub struct ChainEntry {
    /// Index into the project's scenes.
    pub scene_idx: usize,
    /// How many bars to play this scene before advancing.
    pub bars: u32,
}

impl ChainEntry {
    pub fn new(scene_idx: usize, bars: u32) -> (r: ChainEntry)
        ensures
            r == (ChainEntry { scene_idx, bars }),
    {
        ChainEntry { scene_idx, bars }
    }
}

/// Descriptive metadata for a preset.
#[derive(Debug, Clone, PartialEq, Eq)]
pub struct PresetMetadata {
    pub name: String,
    pub author: String,
    /// Identifier of the instrument/effect this preset targets; empty = generic.
    pub instrument_id: String,
    pub category: String,
    pub notes: String,
}

} // verus!
