//! Rational-time arrangement: tracks of lanes of clips.
//!
//! Every clip carries an exact position and length in beats, a stable id for
//! selection and undo, and what it plays (a pattern, an audio file or a MIDI
//! clip). Legacy bar-block tracks migrate into clips without loss.

use crate::project::{AutomationLane, Track, TrackKind};
use crate::rational::{lemma_add_denotes, lemma_denotes_eq, lemma_sub_denotes, RationalTime};
use vstd::arithmetic::mul::*;
use vstd::prelude::*;

verus! {

/// What a clip plays on the timeline.
#[derive(Debug, PartialEq, Eq)]
pub enum ClipKind {
    /// A sequencer pattern, by key; many clips may play the same pattern.
    Pattern { pattern_key: String },
    /// An audio file; the gain is kept as the bits of its 32-bit float.
    Audio { path: String, gain_bits: u32 },
    /// A MIDI clip, optionally playing a pattern's events.
    Midi { pattern_key: Option<String> },
}

/// A copy of an optional string.
pub fn clone_opt_string(o: &Option<String>) -> (r: Option<String>)
    ensures
        r == *o,
{
    match o {
        Some(s) => Some(s.clone()),
        None => None,
    }
}

impl Clone for ClipKind {
    fn clone(&self) -> (r: Self)
        ensures
            r == *self,
    {
        match self {
            ClipKind::Pattern { pattern_key } => ClipKind::Pattern { pattern_key: pattern_key.clone() },
            ClipKind::Audio { path, gain_bits } => ClipKind::Audio { path: path.clone(), gain_bits: *gain_bits },
            ClipKind::Midi { pattern_key } => ClipKind::Midi { pattern_key: clone_opt_string(pattern_key) },
        }
    }
}

/// The pattern a clip kind plays, if any.
pub open spec fn kind_pattern(k: ClipKind) -> Option<Seq<char>> {
    match k {
        ClipKind::Pattern { pattern_key } => Some(pattern_key@),
        ClipKind::Midi { pattern_key } => match pattern_key {
            Some(p) => Some(p@),
            None => None,
        },
        ClipKind::Audio { .. } => None,
    }
}

impl ClipKind {
    /// Short label for inspectors.
    pub fn label(&self) -> (r: &'static str)
        ensures
            r@ == match self {
                ClipKind::Pattern { .. } => "PATTERN"@,
                ClipKind::Audio { .. } => "AUDIO"@,
                ClipKind::Midi { .. } => "MIDI"@,
            },
    {
        match self {
            ClipKind::Pattern { .. } => "PATTERN",
            ClipKind::Audio { .. } => "AUDIO",
            ClipKind::Midi { .. } => "MIDI",
        }
    }

    /// The referenced pattern key, if the clip plays one.
    pub fn pattern_key(&self) -> (r: Option<&str>)
        ensures
            match r {
                Some(s) => kind_pattern(*self) == Some(s@),
                None => kind_pattern(*self).is_none(),
            },
    {
        match self {
            ClipKind::Pattern { pattern_key } => Some(pattern_key.as_str()),
            ClipKind::Midi { pattern_key } => match pattern_key {
                Some(p) => Some(p.as_str()),
                None => None,
            },
            ClipKind::Audio { .. } => None,
        }
    }
}

/// A clip on a lane: the half-open span `[start, start + length)` in beats.
#[derive(Debug, PartialEq, Eq)]
pub struct Clip {
    /// Unique within its arrangement.
    pub id: u64,
    pub name: String,
    pub kind: ClipKind,
    /// Onset, in beats from the arrangement origin.
    pub start: RationalTime,
    /// Sounding length in beats.
    pub length: RationalTime,
    /// Where in the source playback begins (trimmed from the start).
    pub content_offset: RationalTime,
    /// Loop the source when the clip is longer than it.
    pub loop_enabled: bool,
    /// Palette colour index.
    pub color: u8,
    pub muted: bool,
}

impl Clone for Clip {
    fn clone(&self) -> (r: Self)
        ensures
            r == *self,
    {
        Clip {
            id: self.id,
            name: self.name.clone(),
            kind: self.kind.clone(),
            start: self.start,
            length: self.length,
            content_offset: self.content_offset,
            loop_enabled: self.loop_enabled,
            color: self.color,
            muted: self.muted,
        }
    }
}

/// `a < b` as rational numbers.
pub open spec fn lt(a: RationalTime, b: RationalTime) -> bool {
    RationalTime::lt_value(a, b)
}

impl Clip {
    /// The clip's end can be computed.
    pub open spec fn end_ok(self) -> bool {
        RationalTime::add_ok(self.start, self.length)
    }

    /// `start + length`.
    pub open spec fn end_spec(self) -> RationalTime {
        RationalTime::add_spec_of(self.start, self.length)
    }

    /// `t` lies in `[start, end)`.
    pub open spec fn contains_spec(self, t: RationalTime) -> bool {
        !lt(t, self.start) && lt(t, self.end_spec())
    }

    /// A clip with no content offset, unlooped, colour 0 and unmuted.
    pub fn new(id: u64, name: String, kind: ClipKind, start: RationalTime, length: RationalTime) -> (c: Clip)
        ensures
            c == (Clip {
                id,
                name,
                kind,
                start,
                length,
                content_offset: RationalTime::whole_spec(0),
                loop_enabled: false,
                color: 0,
                muted: false,
            }),
    {
        Clip { id, name, kind, start, length, content_offset: RationalTime::zero(), loop_enabled: false, color: 0, muted: false }
    }

    /// End position, `start + length`.
    pub fn end(&self) -> (r: RationalTime)
        requires
            self.end_ok(),
        ensures
            r == self.end_spec(),
    {
        self.start.add_exact(self.length)
    }

    /// Whether `t` lies within `[start, end)`.
    pub fn contains(&self, t: RationalTime) -> (r: bool)
        requires
            self.end_ok(),
        ensures
            r == self.contains_spec(t),
    {
        self.start.at_most(&t) && t.less_than(&self.end())
    }

    /// Whether the two half-open spans overlap.
    pub fn overlaps(&self, other: &Clip) -> (r: bool)
        requires
            self.end_ok(),
            other.end_ok(),
        ensures
            r == (lt(self.start, other.end_spec()) && lt(other.start, self.end_spec())),
    {
        self.start.less_than(&other.end()) && other.start.less_than(&self.end())
    }

    /// Move the clip by `delta` beats.
    pub fn shift(&mut self, delta: RationalTime)
        requires
            RationalTime::add_ok(old(self).start, delta),
        ensures
            *final(self) == (Clip { start: RationalTime::add_spec_of(old(self).start, delta), ..*old(self) }),
    {
        self.start = self.start.add_exact(delta);
    }

    /// The arithmetic of trimming the start to `new_start` stays in range.
    pub open spec fn trim_start_ok(self, new_start: RationalTime) -> bool {
        &&& self.end_ok()
        &&& RationalTime::sub_ok(new_start, self.start)
        &&& RationalTime::add_ok(self.content_offset, RationalTime::sub_spec_of(new_start, self.start))
        &&& RationalTime::sub_ok(self.end_spec(), new_start)
    }

    /// Trim the start to `new_start`, keeping the end fixed; the content offset
    /// moves by the same amount (never below zero). Nothing changes when
    /// `new_start` is the start or not before the end.
    pub fn trim_start(&mut self, new_start: RationalTime)
        requires
            old(self).trim_start_ok(new_start),
        ensures
            !lt(new_start, old(self).end_spec()) || new_start == old(self).start ==> *final(self) == *old(self),
            lt(new_start, old(self).end_spec()) && new_start != old(self).start ==> {
                let moved = RationalTime::add_spec_of(old(self).content_offset, RationalTime::sub_spec_of(new_start, old(self).start));
                *final(self) == (Clip {
                    start: new_start,
                    length: RationalTime::sub_spec_of(old(self).end_spec(), new_start),
                    content_offset: if moved.numer() < 0 {
                        RationalTime::whole_spec(0)
                    } else {
                        moved
                    },
                    ..*old(self)
                })
            },
    {
        let end = self.end();
        if !new_start.less_than(&end) || new_start == self.start {
            return;
        }
        let delta = new_start.sub_exact(self.start);
        let new_offset = self.content_offset.add_exact(delta);
        self.content_offset = if new_offset.is_negative() {
            RationalTime::zero()
        } else {
            new_offset
        };
        self.start = new_start;
        self.length = end.sub_exact(new_start);
    }

    /// Trim the end to `new_end`, keeping the start; nothing changes when
    /// `new_end` is not after the start.
    pub fn trim_end(&mut self, new_end: RationalTime)
        requires
            RationalTime::sub_ok(new_end, old(self).start),
        ensures
            !lt(old(self).start, new_end) ==> *final(self) == *old(self),
            lt(old(self).start, new_end) ==> *final(self) == (Clip {
                length: RationalTime::sub_spec_of(new_end, old(self).start),
                ..*old(self)
            }),
    {
        if new_end.at_most(&self.start) {
            return;
        }
        self.length = new_end.sub_exact(self.start);
    }

    /// The arithmetic of splitting at `t` stays in range.
    pub open spec fn split_ok(self, t: RationalTime) -> bool {
        &&& self.end_ok()
        &&& RationalTime::sub_ok(t, self.start)
        &&& RationalTime::sub_ok(self.length, RationalTime::sub_spec_of(t, self.start))
        &&& RationalTime::add_ok(self.content_offset, RationalTime::sub_spec_of(t, self.start))
    }

    /// What a split at `t` keeps: the same clip, ending at `t`.
    pub open spec fn kept_part(self, t: RationalTime) -> Clip {
        Clip { length: RationalTime::sub_spec_of(t, self.start), ..self }
    }

    /// What a split at `t` hands back: the rest from `t` on, under id
    /// `new_id`, its content offset advanced by the length kept.
    pub open spec fn split_off_part(self, t: RationalTime, new_id: u64) -> Clip {
        let left = RationalTime::sub_spec_of(t, self.start);
        Clip {
            id: new_id,
            start: t,
            length: RationalTime::sub_spec_of(self.length, left),
            content_offset: RationalTime::add_spec_of(self.content_offset, left),
            ..self
        }
    }

    /// Split at `t`, strictly inside the span: this clip keeps `[start, t)`
    /// and the right half `[t, end)` is returned with id `new_id` and its
    /// content offset advanced by the left length. `None`, changing nothing,
    /// when `t` is not strictly inside.
    pub fn split_at(&mut self, t: RationalTime, new_id: u64) -> (r: Option<Clip>)
        requires
            old(self).split_ok(t),
        ensures
            !(lt(old(self).start, t) && lt(t, old(self).end_spec())) ==> r.is_none() && *final(self) == *old(self),
            lt(old(self).start, t) && lt(t, old(self).end_spec()) ==> *final(self) == old(self).kept_part(t)
                && r == Some(old(self).split_off_part(t, new_id)),
    {
        if !(self.start.less_than(&t) && t.less_than(&self.end())) {
            return None;
        }
        let left_len = t.sub_exact(self.start);
        let right = Clip {
            id: new_id,
            name: self.name.clone(),
            kind: self.kind.clone(),
            start: t,
            length: self.length.sub_exact(left_len),
            content_offset: self.content_offset.add_exact(left_len),
            loop_enabled: self.loop_enabled,
            color: self.color,
            muted: self.muted,
        };
        self.length = left_len;
        Some(right)
    }
}

/// Splitting divides the span exactly: the part kept ends at `t`, and the
/// part handed back starts at `t` and ends where the clip ended.
pub proof fn lemma_split_divides_span(c: Clip, t: RationalTime, new_id: u64)
    requires
        c.start.wf(),
        c.length.wf(),
        t.wf(),
        c.split_ok(t),
        lt(c.start, t),
        lt(t, c.end_spec()),
        c.kept_part(t).end_ok(),
        c.split_off_part(t, new_id).end_ok(),
    ensures
        c.kept_part(t).end_spec() == t,
        c.split_off_part(t, new_id).start == t,
        c.split_off_part(t, new_id).end_spec() == c.end_spec(),
{
    let (s, l) = (c.start, c.length);
    let (sn, sd, tn, td, ln, ld) = (s.numer(), s.denom(), t.numer(), t.denom(), l.numer(), l.denom());
    let d = RationalTime::sub_spec_of(t, s);
    lemma_sub_denotes(t, s, tn, td, sn, sd);
    let (dn, dd) = (tn * sd - sn * td, td * sd);
    // the part kept: s + (t - s) == t
    let k = RationalTime::add_spec_of(s, d);
    lemma_add_denotes(s, d, sn, sd, dn, dd);
    lemma_kept_identity(sn, sd, tn, td);
    lemma_denotes_eq(k, t, sn * dd + dn * sd, sd * dd, tn, td);
    // the part handed back: t + (l - (t - s)) == s + l
    let r = RationalTime::sub_spec_of(l, d);
    lemma_sub_denotes(l, d, ln, ld, dn, dd);
    let (rn, rd) = (ln * dd - dn * ld, ld * dd);
    let e = RationalTime::add_spec_of(t, r);
    lemma_add_denotes(t, r, tn, td, rn, rd);
    let o = RationalTime::add_spec_of(s, l);
    lemma_add_denotes(s, l, sn, sd, ln, ld);
    lemma_rest_identity(sn, sd, tn, td, ln, ld);
    let (on, od) = (sn * ld + ln * sd, sd * ld);
    let tt = td * td;
    assert((tt * on) * od == on * (tt * od)) by (nonlinear_arith);
    lemma_denotes_eq(e, o, tn * rd + rn * td, td * rd, on, od);
}

/// `s + (t - s)` over a common denominator is `t`, scaled.
proof fn lemma_kept_identity(sn: int, sd: int, tn: int, td: int)
    ensures
        (sn * (td * sd) + (tn * sd - sn * td) * sd) * td == tn * (sd * (td * sd)),
{
    lemma_mul_is_distributive_sub_other_way(sd, tn * sd, sn * td);
    assert(sn * (td * sd) == (sn * td) * sd) by (nonlinear_arith);
    assert(((tn * sd) * sd) * td == tn * (sd * (td * sd))) by (nonlinear_arith);
}

/// `t + (l - (t - s))` over a common denominator is `s + l`, scaled by `td * td`.
proof fn lemma_rest_identity(sn: int, sd: int, tn: int, td: int, ln: int, ld: int)
    ensures
        tn * (ld * (td * sd)) + (ln * (td * sd) - (tn * sd - sn * td) * ld) * td == (td * td) * (sn * ld + ln * sd),
        td * (ld * (td * sd)) == (td * td) * (sd * ld),
{
    let a = ln * (td * sd);
    let b = (tn * sd) * ld;
    let c = (sn * td) * ld;
    lemma_mul_is_distributive_sub_other_way(ld, tn * sd, sn * td);
    lemma_mul_is_distributive_sub_other_way(td, a, b - c);
    lemma_mul_is_distributive_sub_other_way(td, b, c);
    assert(tn * (ld * (td * sd)) == b * td) by (nonlinear_arith)
        requires
            b == (tn * sd) * ld,
    ;
    assert(a * td == (td * td) * (ln * sd)) by (nonlinear_arith)
        requires
            a == ln * (td * sd),
    ;
    assert(c * td == (td * td) * (sn * ld)) by (nonlinear_arith)
        requires
            c == (sn * td) * ld,
    ;
    lemma_mul_is_distributive_add(td * td, sn * ld, ln * sd);
    assert(td * (ld * (td * sd)) == (td * td) * (sd * ld)) by (nonlinear_arith);
}

/// A lane within a track: its clips, in the order kept.
#[derive(Debug, PartialEq, Eq)]
pub struct Lane {
    pub clips: Vec<Clip>,
}

/// Every clip in `s` has a computable end.
pub open spec fn ends_ok(s: Seq<Clip>) -> bool {
    forall|i: int| 0 <= i < s.len() ==> (#[trigger] s[i]).end_ok()
}

/// Index of the first clip in `s[from..]` containing `t`, or `s.len()`.
pub open spec fn first_containing(s: Seq<Clip>, from: int, t: RationalTime) -> int
    decreases s.len() - from,
{
    if from >= s.len() {
        s.len() as int
    } else if s[from].contains_spec(t) {
        from
    } else {
        first_containing(s, from + 1, t)
    }
}

impl Default for Lane {
    fn default() -> (r: Lane)
        ensures
            r.clips@.len() == 0,
    {
        Lane { clips: Vec::new() }
    }
}

impl Lane {
    /// The first clip whose span contains `t`.
    pub fn clip_at(&self, t: RationalTime) -> (r: Option<&Clip>)
        requires
            ends_ok(self.clips@),
        ensures
            ({
                let k = first_containing(self.clips@, 0, t);
                if k < self.clips@.len() {
                    r == Some(&self.clips@[k])
                } else {
                    r.is_none()
                }
            }),
    {
        let mut i: usize = 0;
        while i < self.clips.len()
            invariant
                i <= self.clips@.len(),
                ends_ok(self.clips@),
                first_containing(self.clips@, 0, t) == first_containing(self.clips@, i as int, t),
            decreases self.clips@.len() - i,
        {
            if self.clips[i].contains(t) {
                return Some(&self.clips[i]);
            }
            i = i + 1;
        }
        None
    }

    /// Order the clips by start, keeping clips with equal starts in their
    /// current order.
    pub fn sort(&mut self)
        ensures
            final(self).clips@.to_multiset() == old(self).clips@.to_multiset(),
            forall|i: int, j: int|
                0 <= i < j < final(self).clips@.len() ==> !lt(final(self).clips@[j].start, final(self).clips@[i].start),
    {
        let mut src: Vec<Clip> = Vec::new();
        std::mem::swap(&mut src, &mut self.clips);
        let ghost all = src@;
        let mut out: Vec<Clip> = Vec::new();
        let ghost mut done: Seq<Clip> = Seq::empty();
        proof {
            assert(all =~= done + src@);
        }
        while src.len() > 0
            invariant
                all == done + src@,
                out@.to_multiset() == done.to_multiset(),
                forall|i: int| 0 <= i < out@.len() ==> (#[trigger] out@[i]).start.wf(),
                forall|i: int, j: int| 0 <= i < j < out@.len() ==> !lt(out@[j].start, out@[i].start),
            decreases src@.len(),
        {
            let c = src.remove(0);
            let ghost cv = c;
            proof {
                use_type_invariant(&c.start);
                RationalTime::lemma_inv_wf(c.start);
            }
            proof {
                assert(all =~= done.push(cv) + src@);
            }
            // Insert after every clip that does not start later.
            let ghost before = out@;
            let mut k: usize = out.len();
            while k > 0 && c.start.less_than(&out[k - 1].start)
                invariant
                    k <= out@.len(),
                    out@ == before,
                    cv == c,
                    forall|i: int| 0 <= i < out@.len() ==> (#[trigger] out@[i]).start.wf(),
                    forall|j: int| k <= j < out@.len() ==> lt(cv.start, out@[j].start),
                decreases k,
            {
                k = k - 1;
            }
            proof {
                assert(k > 0 ==> !lt(cv.start, before[k - 1].start));
            }
            out.insert(k, c);
            proof {
                assert(out@ =~= before.insert(k as int, cv));
                vstd::seq_lib::to_multiset_insert(before, k as int, cv);
                assert(done.push(cv).to_multiset() =~= done.to_multiset().insert(cv)) by {
                    done.to_multiset_ensures();
                }
                assert forall|i: int, j: int| 0 <= i < j < out@.len() implies !lt(out@[j].start, out@[i].start) by {
                    if j < k {
                        assert(out@[i] == before[i] && out@[j] == before[j]);
                    } else if j == k as int {
                        assert(out@[j] == cv);
                        assert(out@[i] == before[i]);
                        assert(!lt(cv.start, before[k - 1].start));
                        if i < k - 1 {
                            assert(!lt(before[k - 1].start, before[i].start));
                            crate::rational::lemma_le_trans(before[i].start, before[k - 1].start, cv.start);
                        }
                    } else if i == k as int {
                        assert(out@[i] == cv);
                        assert(out@[j] == before[j - 1]);
                        assert(lt(cv.start, before[j - 1].start));
                        crate::rational::lemma_lt_asym(cv.start, before[j - 1].start);
                    } else if i < k {
                        assert(out@[i] == before[i] && out@[j] == before[j - 1]);
                    } else {
                        assert(out@[i] == before[i - 1] && out@[j] == before[j - 1]);
                    }
                }
                done = done.push(cv);
            }
        }
        proof {
            assert(all =~= done);
        }
        self.clips = out;
    }
}

/// A timeline track: named and typed lanes of clips, inline automation, and
/// the matrix row whose instrument its clips play through.
#[derive(Debug)]
pub struct ArrangementTrack {
    pub name: String,
    pub kind: TrackKind,
    pub color: u8,
    pub mute: bool,
    pub solo: bool,
    pub arm: bool,
    pub monitor: bool,
    pub lanes: Vec<Lane>,
    pub automation: Vec<AutomationLane>,
    /// The matrix row key (`"A"`..=`"H"`) supplying the instrument; `None`
    /// leaves the track silent.
    pub source_row: Option<String>,
}

impl ArrangementTrack {
    /// A track with one empty lane, nothing set.
    pub fn new(name: String, kind: TrackKind) -> (r: ArrangementTrack)
        ensures
            r.name == name,
            r.kind == kind,
            r.color == 0,
            !r.mute && !r.solo && !r.arm && !r.monitor,
            r.lanes@.len() == 1,
            r.lanes@[0].clips@.len() == 0,
            r.automation@.len() == 0,
            r.source_row.is_none(),
    {
        let mut lanes: Vec<Lane> = Vec::new();
        lanes.push(Lane::default());
        ArrangementTrack {
            name,
            kind,
            color: 0,
            mute: false,
            solo: false,
            arm: false,
            monitor: false,
            lanes,
            automation: Vec::new(),
            source_row: None,
        }
    }

    /// Add `clip` at the end of the first lane, creating that lane if the
    /// track has none.
    pub fn push_to_primary_lane(&mut self, clip: Clip)
        ensures
            old(self).lanes@.len() == 0 ==> final(self).lanes@.len() == 1 && final(self).lanes@[0].clips@ == seq![clip],
            old(self).lanes@.len() > 0 ==> final(self).lanes@.len() == old(self).lanes@.len() && final(self).lanes@[0].clips@
                == old(self).lanes@[0].clips@.push(clip) && forall|l: int|
                1 <= l < final(self).lanes@.len() ==> #[trigger] final(self).lanes@[l] == old(self).lanes@[l],
            final(self).name == old(self).name,
            final(self).mute == old(self).mute,
            final(self).source_row == old(self).source_row,
    {
        if self.lanes.len() == 0 {
            self.lanes.push(Lane::default());
        }
        self.lanes[0].clips.push(clip);
    }
}

/// A clip under a timeline position, from [`Arrangement::clips_active_at`].
#[derive(Debug, Clone, PartialEq, Eq)]
pub struct ClipHit {
    pub track_idx: usize,
    pub lane_idx: usize,
    pub clip_id: u64,
    /// The pattern the clip plays, if any.
    pub pattern_key: Option<String>,
    /// Beats into the clip's source content at the queried position.
    pub local_beat: RationalTime,
}

/// A clip to play, from [`Arrangement::playback_hits`].
#[derive(Debug, Clone, PartialEq, Eq)]
pub struct PlaybackHit {
    pub track_idx: usize,
    /// The matrix row whose instrument plays it.
    pub source_row: String,
    pub clip_id: u64,
    pub pattern_key: String,
    /// Beats into the clip's source content at the queried position.
    pub local_beat: RationalTime,
}

/// The arrangement: timeline tracks, and the clip-id allocator (ids are
/// never reused).
#[derive(Debug)]
pub struct Arrangement {
    pub tracks: Vec<ArrangementTrack>,
    pub next_clip_id: u64,
}

impl Default for Arrangement {
    fn default() -> (r: Arrangement)
        ensures
            r.tracks@.len() == 0,
            r.next_clip_id == 0,
    {
        Arrangement { tracks: Vec::new(), next_clip_id: 0 }
    }
}

/// The clip at (`t`, `l`, `c`).
pub open spec fn clip_of(tracks: Seq<ArrangementTrack>, t: int, l: int, c: int) -> Clip {
    tracks[t].lanes@[l].clips@[c]
}

/// (`t`, `l`, `c`) is a valid clip position.
pub open spec fn valid_loc(tracks: Seq<ArrangementTrack>, t: int, l: int, c: int) -> bool {
    0 <= t < tracks.len() && 0 <= l < tracks[t].lanes@.len() && 0 <= c < tracks[t].lanes@[l].clips@.len()
}

/// (`t2`, `l2`, `c2`) comes before (`t`, `l`, `c`) in track, lane, clip order.
pub open spec fn loc_before(t2: int, l2: int, c2: int, t: int, l: int, c: int) -> bool {
    t2 < t || (t2 == t && l2 < l) || (t2 == t && l2 == l && c2 < c)
}

/// (`t`, `l`, `c`) holds the first clip with this id.
pub open spec fn first_with_id(tracks: Seq<ArrangementTrack>, id: u64, t: int, l: int, c: int) -> bool {
    &&& valid_loc(tracks, t, l, c)
    &&& clip_of(tracks, t, l, c).id == id
    &&& forall|t2: int, l2: int, c2: int|
        valid_loc(tracks, t2, l2, c2) && loc_before(t2, l2, c2, t, l, c) ==> #[trigger] clip_of(tracks, t2, l2, c2).id != id
}

/// No clip has this id.
pub open spec fn no_clip_with_id(tracks: Seq<ArrangementTrack>, id: u64) -> bool {
    forall|t: int, l: int, c: int| valid_loc(tracks, t, l, c) ==> #[trigger] clip_of(tracks, t, l, c).id != id
}

/// Every clip has a computable end.
pub open spec fn all_ends_ok(tracks: Seq<ArrangementTrack>) -> bool {
    forall|t: int, l: int, c: int| valid_loc(tracks, t, l, c) ==> #[trigger] clip_of(tracks, t, l, c).end_ok()
}

impl Arrangement {
    /// Hand out a fresh clip id.
    pub fn alloc_id(&mut self) -> (id: u64)
        requires
            old(self).next_clip_id < u64::MAX,
        ensures
            id == old(self).next_clip_id,
            final(self).next_clip_id == old(self).next_clip_id + 1,
            final(self).tracks@ == old(self).tracks@,
    {
        let id = self.next_clip_id;
        self.next_clip_id = self.next_clip_id + 1;
        id
    }

    /// Whether no lane of any track holds a clip.
    pub fn is_empty(&self) -> (r: bool)
        ensures
            r == forall|t: int, l: int|
                0 <= t < self.tracks@.len() && 0 <= l < self.tracks@[t].lanes@.len() ==> #[trigger] self.tracks@[t].lanes@[l].clips@.len()
                    == 0,
    {
        let mut t: usize = 0;
        while t < self.tracks.len()
            invariant
                t <= self.tracks@.len(),
                forall|t2: int, l: int|
                    0 <= t2 < t && 0 <= l < self.tracks@[t2].lanes@.len() ==> #[trigger] self.tracks@[t2].lanes@[l].clips@.len() == 0,
            decreases self.tracks@.len() - t,
        {
            let mut l: usize = 0;
            while l < self.tracks[t].lanes.len()
                invariant
                    t < self.tracks@.len(),
                    l <= self.tracks@[t as int].lanes@.len(),
                    forall|t2: int, l2: int|
                        0 <= t2 < t && 0 <= l2 < self.tracks@[t2].lanes@.len() ==> #[trigger] self.tracks@[t2].lanes@[l2].clips@.len() == 0,
                    forall|l2: int| 0 <= l2 < l ==> #[trigger] self.tracks@[t as int].lanes@[l2].clips@.len() == 0,
                decreases self.tracks@[t as int].lanes@.len() - l,
            {
                if self.tracks[t].lanes[l].clips.len() > 0 {
                    return false;
                }
                l = l + 1;
            }
            t = t + 1;
        }
        true
    }

    /// Where the first clip with this id is: `(track, lane, clip)`.
    pub fn find_clip(&self, id: u64) -> (r: Option<(usize, usize, usize)>)
        ensures
            match r {
                Some((t, l, c)) => first_with_id(self.tracks@, id, t as int, l as int, c as int),
                None => no_clip_with_id(self.tracks@, id),
            },
    {
        let mut t: usize = 0;
        while t < self.tracks.len()
            invariant
                t <= self.tracks@.len(),
                forall|t2: int, l2: int, c2: int|
                    valid_loc(self.tracks@, t2, l2, c2) && t2 < t ==> #[trigger] clip_of(self.tracks@, t2, l2, c2).id != id,
            decreases self.tracks@.len() - t,
        {
            let mut l: usize = 0;
            while l < self.tracks[t].lanes.len()
                invariant
                    t < self.tracks@.len(),
                    l <= self.tracks@[t as int].lanes@.len(),
                    forall|t2: int, l2: int, c2: int|
                        valid_loc(self.tracks@, t2, l2, c2) && (t2 < t || (t2 == t && l2 < l)) ==> #[trigger] clip_of(
                            self.tracks@,
                            t2,
                            l2,
                            c2,
                        ).id != id,
                decreases self.tracks@[t as int].lanes@.len() - l,
            {
                let mut c: usize = 0;
                while c < self.tracks[t].lanes[l].clips.len()
                    invariant
                        t < self.tracks@.len(),
                        l < self.tracks@[t as int].lanes@.len(),
                        c <= self.tracks@[t as int].lanes@[l as int].clips@.len(),
                        forall|t2: int, l2: int, c2: int|
                            valid_loc(self.tracks@, t2, l2, c2) && loc_before(t2, l2, c2, t as int, l as int, c as int)
                                ==> #[trigger] clip_of(self.tracks@, t2, l2, c2).id != id,
                    decreases self.tracks@[t as int].lanes@[l as int].clips@.len() - c,
                {
                    if self.tracks[t].lanes[l].clips[c].id == id {
                        return Some((t, l, c));
                    }
                    c = c + 1;
                }
                l = l + 1;
            }
            t = t + 1;
        }
        None
    }

    /// The track and lane holding the clip with this id.
    pub fn locate_clip(&self, id: u64) -> (r: Option<(usize, usize)>)
        ensures
            match r {
                Some((t, l)) => exists|c: int| #[trigger] first_with_id(self.tracks@, id, t as int, l as int, c),
                None => no_clip_with_id(self.tracks@, id),
            },
    {
        match self.find_clip(id) {
            Some((t, l, c)) => {
                let r = Some((t, l));
                proof {
                    assert(first_with_id(self.tracks@, id, t as int, l as int, c as int));
                    assert(exists|cc: int| #[trigger] first_with_id(self.tracks@, id, t as int, l as int, cc));
                    assert(r matches Some((tt, ll)) && tt == t && ll == l);
                }
                r
            },
            None => None,
        }
    }

    /// The first clip with this id.
    pub fn clip(&self, id: u64) -> (r: Option<&Clip>)
        ensures
            match r {
                Some(x) => exists|t: int, l: int, c: int| #[trigger] first_with_id(self.tracks@, id, t, l, c) && *x == clip_of(self.tracks@, t, l, c),
                None => no_clip_with_id(self.tracks@, id),
            },
    {
        match self.find_clip(id) {
            Some((t, l, c)) => Some(&self.tracks[t].lanes[l].clips[c]),
            None => None,
        }
    }

    /// The first clip with this id, to change it in place.
    pub fn clip_mut(&mut self, id: u64) -> (r: Option<&mut Clip>)
        ensures
            match r {
                Some(x) => exists|t: int, l: int, c: int|
                    #![trigger clip_of(old(self).tracks@, t, l, c)]
                    first_with_id(old(self).tracks@, id, t, l, c) && *x == clip_of(old(self).tracks@, t, l, c) && final(self).next_clip_id
                        == old(self).next_clip_id && final(self).tracks@.len() == old(self).tracks@.len() && final(self).tracks@[t].lanes@[l].clips@
                        == old(self).tracks@[t].lanes@[l].clips@.update(c, *final(x)),
                None => no_clip_with_id(old(self).tracks@, id) && *final(self) == *old(self),
            },
    {
        match self.find_clip(id) {
            Some((t, l, c)) => Some(&mut self.tracks[t].lanes[l].clips[c]),
            None => None,
        }
    }
}

/// `n` is track `o` after [`ArrangementTrack::push_to_primary_lane`] with `c`.
pub open spec fn pushed_primary(o: ArrangementTrack, n: ArrangementTrack, c: Clip) -> bool {
    &&& o.lanes@.len() == 0 ==> n.lanes@.len() == 1 && n.lanes@[0].clips@ == seq![c]
    &&& o.lanes@.len() > 0 ==> n.lanes@.len() == o.lanes@.len() && n.lanes@[0].clips@ == o.lanes@[0].clips@.push(c) && forall|l: int|
        1 <= l < n.lanes@.len() ==> #[trigger] n.lanes@[l] == o.lanes@[l]
    &&& n.name == o.name
    &&& n.mute == o.mute
    &&& n.source_row == o.source_row
}

/// The lanes of `n` are those of `o`, with lane `l`'s clips replaced by `clips`.
pub open spec fn lane_replaced(o: ArrangementTrack, n: ArrangementTrack, l: int, clips: Seq<Clip>) -> bool {
    &&& n.lanes@.len() == o.lanes@.len()
    &&& n.lanes@[l].clips@ == clips
    &&& forall|l2: int| 0 <= l2 < n.lanes@.len() && l2 != l ==> #[trigger] n.lanes@[l2] == o.lanes@[l2]
    &&& n.name == o.name
    &&& n.mute == o.mute
    &&& n.source_row == o.source_row
}

/// Every other track is unchanged.
pub open spec fn others_same(o: Seq<ArrangementTrack>, n: Seq<ArrangementTrack>, t: int) -> bool {
    n.len() == o.len() && forall|t2: int| 0 <= t2 < n.len() && t2 != t ==> #[trigger] n[t2] == o[t2]
}

impl Arrangement {
    /// Add a clip to track `track_idx`'s first lane under a fresh id, and
    /// return the id; `None`, changing nothing, for a track that does not
    /// exist.
    pub fn add_clip(&mut self, track_idx: usize, name: String, kind: ClipKind, start: RationalTime, length: RationalTime) -> (r: Option<u64>)
        requires
            old(self).next_clip_id < u64::MAX,
        ensures
            track_idx >= old(self).tracks@.len() ==> r.is_none() && final(self).tracks@ == old(self).tracks@ && final(self).next_clip_id
                == old(self).next_clip_id,
            track_idx < old(self).tracks@.len() ==> {
                &&& r == Some(old(self).next_clip_id)
                &&& final(self).next_clip_id == old(self).next_clip_id + 1
                &&& others_same(old(self).tracks@, final(self).tracks@, track_idx as int)
                &&& pushed_primary(
                    old(self).tracks@[track_idx as int],
                    final(self).tracks@[track_idx as int],
                    Clip {
                        id: old(self).next_clip_id,
                        name,
                        kind,
                        start,
                        length,
                        content_offset: RationalTime::whole_spec(0),
                        loop_enabled: false,
                        color: 0,
                        muted: false,
                    },
                )
            },
    {
        if track_idx >= self.tracks.len() {
            return None;
        }
        let id = self.alloc_id();
        let clip = Clip::new(id, name, kind, start, length);
        self.tracks[track_idx].push_to_primary_lane(clip);
        Some(id)
    }

    /// Remove the clip with this id: from the first lane (in track and lane
    /// order) holding one, every clip with the id goes. Returns whether one
    /// was found.
    pub fn delete_clip(&mut self, id: u64) -> (found: bool)
        ensures
            found == !no_clip_with_id(old(self).tracks@, id),
            !found ==> final(self).tracks@ == old(self).tracks@,
            final(self).next_clip_id == old(self).next_clip_id,
            found ==> exists|t: int, l: int, c: int|
                #[trigger] first_with_id(old(self).tracks@, id, t, l, c) && others_same(old(self).tracks@, final(self).tracks@, t)
                    && lane_replaced(
                    old(self).tracks@[t],
                    final(self).tracks@[t],
                    l,
                    old(self).tracks@[t].lanes@[l].clips@.filter(|x: Clip| x.id != id),
                ),
    {
        match self.find_clip(id) {
            None => false,
            Some((t, l, c)) => {
                let ghost o = self.tracks@;
                let mut kept: Vec<Clip> = Vec::new();
                let mut old_clips: Vec<Clip> = Vec::new();
                std::mem::swap(&mut old_clips, &mut self.tracks[t].lanes[l].clips);
                let ghost src = old_clips@;
                proof {
                    reveal(Seq::filter);
                    assert(src == o[t as int].lanes@[l as int].clips@);
                }
                let mut i: usize = 0;
                while i < old_clips.len()
                    invariant
                        i <= old_clips@.len(),
                        old_clips@ == src,
                        kept@ == src.take(i as int).filter(|x: Clip| x.id != id),
                    decreases old_clips@.len() - i,
                {
                    proof {
                        reveal(Seq::filter);
                        assert(src.take(i + 1).drop_last() =~= src.take(i as int));
                    }
                    if old_clips[i].id != id {
                        kept.push(old_clips[i].clone());
                    }
                    i = i + 1;
                }
                proof {
                    assert(src.take(src.len() as int) =~= src);
                }
                self.tracks[t].lanes[l].clips = kept;
                proof {
                    assert(first_with_id(o, id, t as int, l as int, c as int));
                }
                true
            },
        }
    }

    /// Copy the clip with this id right after itself on its lane (the copy
    /// starts at the original's end) under a fresh id, and return that id.
    pub fn duplicate_clip(&mut self, id: u64) -> (r: Option<u64>)
        requires
            old(self).next_clip_id < u64::MAX,
            all_ends_ok(old(self).tracks@),
        ensures
            no_clip_with_id(old(self).tracks@, id) ==> r.is_none() && final(self).tracks@ == old(self).tracks@
                && final(self).next_clip_id == old(self).next_clip_id,
            !no_clip_with_id(old(self).tracks@, id) ==> r == Some(old(self).next_clip_id) && final(self).next_clip_id
                == old(self).next_clip_id + 1 && exists|t: int, l: int, c: int|
                #[trigger] first_with_id(old(self).tracks@, id, t, l, c) && others_same(old(self).tracks@, final(self).tracks@, t)
                    && lane_replaced(
                    old(self).tracks@[t],
                    final(self).tracks@[t],
                    l,
                    old(self).tracks@[t].lanes@[l].clips@.push(
                        Clip {
                            id: old(self).next_clip_id,
                            start: clip_of(old(self).tracks@, t, l, c).end_spec(),
                            ..clip_of(old(self).tracks@, t, l, c)
                        },
                    ),
                ),
    {
        match self.find_clip(id) {
            None => None,
            Some((t, l, c)) => {
                proof {
                    assert(clip_of(self.tracks@, t as int, l as int, c as int).end_ok());
                }
                let new_id = self.next_clip_id;
                let src = &self.tracks[t].lanes[l].clips[c];
                let mut copy = src.clone();
                copy.id = new_id;
                copy.start = src.end();
                self.tracks[t].lanes[l].clips.push(copy);
                self.next_clip_id = self.next_clip_id + 1;
                proof {
                    assert(first_with_id(old(self).tracks@, id, t as int, l as int, c as int));
                }
                Some(new_id)
            },
        }
    }

    /// Split the clip with this id at beat `t`: the right half, under a fresh
    /// id, goes right after it on its lane, and its id is returned. `None`,
    /// changing nothing, when there is no such clip or `t` is not strictly
    /// inside it.
    pub fn split_clip(&mut self, id: u64, t: RationalTime) -> (r: Option<u64>)
        requires
            old(self).next_clip_id < u64::MAX,
            forall|tt: int, l: int, c: int| valid_loc(old(self).tracks@, tt, l, c) ==> #[trigger] clip_of(old(self).tracks@, tt, l, c).split_ok(t),
        ensures
            r.is_none() ==> final(self).tracks@ == old(self).tracks@ && final(self).next_clip_id == old(self).next_clip_id,
            r.is_none() ==> no_clip_with_id(old(self).tracks@, id) || exists|tt: int, l: int, c: int|
                #[trigger] first_with_id(old(self).tracks@, id, tt, l, c) && !(lt(clip_of(old(self).tracks@, tt, l, c).start, t) && lt(
                    t,
                    clip_of(old(self).tracks@, tt, l, c).end_spec(),
                )),
            r.is_some() ==> r == Some(old(self).next_clip_id) && final(self).next_clip_id == old(self).next_clip_id + 1
                && exists|tt: int, l: int, c: int|
                #[trigger] first_with_id(old(self).tracks@, id, tt, l, c) && ({
                    let x = clip_of(old(self).tracks@, tt, l, c);
                    let left = RationalTime::sub_spec_of(t, x.start);
                    &&& lt(x.start, t) && lt(t, x.end_spec())
                    &&& others_same(old(self).tracks@, final(self).tracks@, tt)
                    &&& lane_replaced(
                        old(self).tracks@[tt],
                        final(self).tracks@[tt],
                        l,
                        old(self).tracks@[tt].lanes@[l].clips@.update(c, Clip { length: left, ..x }).insert(
                            c + 1,
                            Clip {
                                id: old(self).next_clip_id,
                                start: t,
                                length: RationalTime::sub_spec_of(x.length, left),
                                content_offset: RationalTime::add_spec_of(x.content_offset, left),
                                ..x
                            },
                        ),
                    )
                }),
    {
        match self.find_clip(id) {
            None => None,
            Some((ti, l, c)) => {
                let new_id = self.next_clip_id;
                proof {
                    assert(clip_of(self.tracks@, ti as int, l as int, c as int).split_ok(t));
                    assert(first_with_id(old(self).tracks@, id, ti as int, l as int, c as int));
                }
                let n = self.tracks[ti].lanes[l].clips.len();
                let x = self.tracks[ti].lanes[l].clips[c].clone();
                let mut left = x;
                match left.split_at(t, new_id) {
                    Some(right) => {
                        self.tracks[ti].lanes[l].clips.set(c, left);
                        let at = c + 1;
                        self.tracks[ti].lanes[l].clips.insert(at, right);
                        self.next_clip_id = self.next_clip_id + 1;
                        Some(new_id)
                    },
                    None => None,
                }
            },
        }
    }
}

/// Clip `x` is active at `beat` on a track: unmuted and spanning it.
pub open spec fn active(x: Clip, beat: RationalTime) -> bool {
    !x.muted && x.contains_spec(beat)
}

/// How far into its source clip `x` is at `beat`.
pub open spec fn local_beat(x: Clip, beat: RationalTime) -> RationalTime {
    RationalTime::add_spec_of(x.content_offset, RationalTime::sub_spec_of(beat, x.start))
}

/// Positioning at `beat` stays in range for clip `x`.
pub open spec fn beat_ok(x: Clip, beat: RationalTime) -> bool {
    &&& x.end_ok()
    &&& RationalTime::sub_ok(beat, x.start)
    &&& RationalTime::add_ok(x.content_offset, RationalTime::sub_spec_of(beat, x.start))
}

/// The hit of clip `x` at (`t`, `l`) when active at `beat`.
pub open spec fn hit_of(x: Clip, t: int, l: int, beat: RationalTime) -> ClipHit {
    ClipHit {
        track_idx: t as usize,
        lane_idx: l as usize,
        clip_id: x.id,
        pattern_key: match x.kind {
            ClipKind::Pattern { pattern_key } => Some(pattern_key),
            ClipKind::Midi { pattern_key } => pattern_key,
            ClipKind::Audio { .. } => None,
        },
        local_beat: local_beat(x, beat),
    }
}

/// Hits of the first `c` clips of lane `l` of track `t`.
pub open spec fn lane_hits(tracks: Seq<ArrangementTrack>, t: int, l: int, c: int, beat: RationalTime) -> Seq<ClipHit>
    decreases c,
{
    if c <= 0 {
        Seq::empty()
    } else {
        let prev = lane_hits(tracks, t, l, c - 1, beat);
        let x = clip_of(tracks, t, l, c - 1);
        if active(x, beat) {
            prev.push(hit_of(x, t, l, beat))
        } else {
            prev
        }
    }
}

/// Hits of the first `l` lanes of track `t` (none when it is muted).
pub open spec fn track_hits(tracks: Seq<ArrangementTrack>, t: int, l: int, beat: RationalTime) -> Seq<ClipHit>
    decreases l,
{
    if l <= 0 || tracks[t].mute {
        Seq::empty()
    } else {
        track_hits(tracks, t, l - 1, beat) + lane_hits(tracks, t, l - 1, tracks[t].lanes@[l - 1].clips@.len() as int, beat)
    }
}

/// Hits of the first `t` tracks.
pub open spec fn all_hits(tracks: Seq<ArrangementTrack>, t: int, beat: RationalTime) -> Seq<ClipHit>
    decreases t,
{
    if t <= 0 {
        Seq::empty()
    } else {
        all_hits(tracks, t - 1, beat) + track_hits(tracks, t - 1, tracks[t - 1].lanes@.len() as int, beat)
    }
}

/// The playback hit of clip `x` on track `t` routed through `row`, if it
/// plays a pattern.
pub open spec fn playback_of(x: Clip, t: int, row: String, beat: RationalTime) -> Option<PlaybackHit> {
    match x.kind {
        ClipKind::Pattern { pattern_key } => Some(
            PlaybackHit { track_idx: t as usize, source_row: row, clip_id: x.id, pattern_key, local_beat: local_beat(x, beat) },
        ),
        ClipKind::Midi { pattern_key: Some(pattern_key) } => Some(
            PlaybackHit { track_idx: t as usize, source_row: row, clip_id: x.id, pattern_key, local_beat: local_beat(x, beat) },
        ),
        _ => None,
    }
}

/// Playback hits of the first `c` clips of lane `l` of track `t`, routed
/// through `row`.
pub open spec fn lane_play(tracks: Seq<ArrangementTrack>, t: int, l: int, c: int, row: String, beat: RationalTime) -> Seq<PlaybackHit>
    decreases c,
{
    if c <= 0 {
        Seq::empty()
    } else {
        let prev = lane_play(tracks, t, l, c - 1, row, beat);
        let x = clip_of(tracks, t, l, c - 1);
        if active(x, beat) && playback_of(x, t, row, beat) is Some {
            prev.push(playback_of(x, t, row, beat).unwrap())
        } else {
            prev
        }
    }
}

/// Playback hits of the first `l` lanes of track `t`: none when it is muted
/// or unrouted.
pub open spec fn track_play(tracks: Seq<ArrangementTrack>, t: int, l: int, beat: RationalTime) -> Seq<PlaybackHit>
    decreases l,
{
    if l <= 0 || tracks[t].mute || tracks[t].source_row is None {
        Seq::empty()
    } else {
        track_play(tracks, t, l - 1, beat) + lane_play(
            tracks,
            t,
            l - 1,
            tracks[t].lanes@[l - 1].clips@.len() as int,
            tracks[t].source_row.unwrap(),
            beat,
        )
    }
}

/// Clip `c` of a lane contributes to what the lane plays at `beat` exactly
/// when it is unmuted, holds `beat` and its kind plays a pattern (a
/// pattern clip, or an imported MIDI clip with a pattern): then one hit is
/// added after those of the clips before it, with that pattern, the
/// lane's routing row, the clip's id and the position in its content.
pub proof fn lemma_lane_plays_pattern_clips(
    tracks: Seq<ArrangementTrack>,
    t: int,
    l: int,
    c: int,
    row: String,
    beat: RationalTime,
)
    requires
        valid_loc(tracks, t, l, c),
    ensures
        ({
            let x = clip_of(tracks, t, l, c);
            let before = lane_play(tracks, t, l, c, row, beat);
            let after = lane_play(tracks, t, l, c + 1, row, beat);
            &&& (active(x, beat) && kind_pattern(x.kind) is Some) ==> {
                &&& after.len() == before.len() + 1
                &&& after.drop_last() == before
                &&& after.last().pattern_key@ == kind_pattern(x.kind).unwrap()
                &&& after.last().source_row == row
                &&& after.last().clip_id == x.id
                &&& after.last().track_idx == t as usize
                &&& after.last().local_beat == local_beat(x, beat)
            }
            &&& !(active(x, beat) && kind_pattern(x.kind) is Some) ==> after == before
        }),
{
    let x = clip_of(tracks, t, l, c);
    let before = lane_play(tracks, t, l, c, row, beat);
    if active(x, beat) && kind_pattern(x.kind) is Some {
        assert(lane_play(tracks, t, l, c + 1, row, beat).drop_last() =~= before);
    }
}

/// A muted track, or one not routed to a matrix row, plays nothing; a
/// routed unmuted track plays what its lanes play, in lane order, through
/// its row.
pub proof fn lemma_track_plays_lanes(tracks: Seq<ArrangementTrack>, t: int, l: int, beat: RationalTime)
    requires
        0 <= t < tracks.len(),
        0 <= l < tracks[t].lanes@.len(),
    ensures
        tracks[t].mute || tracks[t].source_row is None ==> track_play(tracks, t, l + 1, beat) == Seq::<PlaybackHit>::empty(),
        !tracks[t].mute && tracks[t].source_row is Some ==> track_play(tracks, t, l + 1, beat) == track_play(
            tracks,
            t,
            l,
            beat,
        ) + lane_play(tracks, t, l, tracks[t].lanes@[l].clips@.len() as int, tracks[t].source_row.unwrap(), beat),
{
}

/// Playback hits of the first `t` tracks.
pub open spec fn all_play(tracks: Seq<ArrangementTrack>, t: int, beat: RationalTime) -> Seq<PlaybackHit>
    decreases t,
{
    if t <= 0 {
        Seq::empty()
    } else {
        all_play(tracks, t - 1, beat) + track_play(tracks, t - 1, tracks[t - 1].lanes@.len() as int, beat)
    }
}

impl Arrangement {
    /// The arrangement's length in beats: the latest clip end, or zero.
    pub fn length_beats(&self) -> (r: RationalTime)
        requires
            all_ends_ok(self.tracks@),
        ensures
            !lt(r, RationalTime::whole_spec(0)),
            forall|t: int, l: int, c: int| valid_loc(self.tracks@, t, l, c) ==> !lt(r, #[trigger] clip_of(self.tracks@, t, l, c).end_spec()),
            r == RationalTime::whole_spec(0) || exists|t: int, l: int, c: int|
                valid_loc(self.tracks@, t, l, c) && r == #[trigger] clip_of(self.tracks@, t, l, c).end_spec(),
    {
        let mut max = RationalTime::zero();
        proof {
            use_type_invariant(&max);
            RationalTime::lemma_inv_wf(max);
        }
        let mut t: usize = 0;
        while t < self.tracks.len()
            invariant
                t <= self.tracks@.len(),
                all_ends_ok(self.tracks@),
                max.wf(),
                !lt(max, RationalTime::whole_spec(0)),
                RationalTime::whole_spec(0).wf(),
                forall|t2: int, l: int, c: int| valid_loc(self.tracks@, t2, l, c) && t2 < t ==> !lt(max, #[trigger] clip_of(self.tracks@, t2, l, c).end_spec()),
                max == RationalTime::whole_spec(0) || exists|t2: int, l: int, c: int|
                    valid_loc(self.tracks@, t2, l, c) && max == #[trigger] clip_of(self.tracks@, t2, l, c).end_spec(),
            decreases self.tracks@.len() - t,
        {
            let mut l: usize = 0;
            while l < self.tracks[t].lanes.len()
                invariant
                    t < self.tracks@.len(),
                    l <= self.tracks@[t as int].lanes@.len(),
                    all_ends_ok(self.tracks@),
                    max.wf(),
                    !lt(max, RationalTime::whole_spec(0)),
                    RationalTime::whole_spec(0).wf(),
                    forall|t2: int, l2: int, c: int|
                        valid_loc(self.tracks@, t2, l2, c) && (t2 < t || (t2 == t && l2 < l)) ==> !lt(max, #[trigger] clip_of(self.tracks@, t2, l2, c).end_spec()),
                    max == RationalTime::whole_spec(0) || exists|t2: int, l2: int, c: int|
                        valid_loc(self.tracks@, t2, l2, c) && max == #[trigger] clip_of(self.tracks@, t2, l2, c).end_spec(),
                decreases self.tracks@[t as int].lanes@.len() - l,
            {
                let mut c: usize = 0;
                while c < self.tracks[t].lanes[l].clips.len()
                    invariant
                        t < self.tracks@.len(),
                        l < self.tracks@[t as int].lanes@.len(),
                        c <= self.tracks@[t as int].lanes@[l as int].clips@.len(),
                        all_ends_ok(self.tracks@),
                        max.wf(),
                        !lt(max, RationalTime::whole_spec(0)),
                        RationalTime::whole_spec(0).wf(),
                        forall|t2: int, l2: int, c2: int|
                            valid_loc(self.tracks@, t2, l2, c2) && loc_before(t2, l2, c2, t as int, l as int, c as int) ==> !lt(
                                max,
                                #[trigger] clip_of(self.tracks@, t2, l2, c2).end_spec(),
                            ),
                        max == RationalTime::whole_spec(0) || exists|t2: int, l2: int, c2: int|
                            valid_loc(self.tracks@, t2, l2, c2) && max == #[trigger] clip_of(self.tracks@, t2, l2, c2).end_spec(),
                    decreases self.tracks@[t as int].lanes@[l as int].clips@.len() - c,
                {
                    proof {
                        assert(clip_of(self.tracks@, t as int, l as int, c as int).end_ok());
                    }
                    let e = self.tracks[t].lanes[l].clips[c].end();
                    proof {
                        use_type_invariant(&e);
                        RationalTime::lemma_inv_wf(e);
                    }
                    if max.less_than(&e) {
                        proof {
                            assert forall|t2: int, l2: int, c2: int|
                                valid_loc(self.tracks@, t2, l2, c2) && loc_before(t2, l2, c2, t as int, l as int, c as int + 1) implies !lt(
                                e,
                                #[trigger] clip_of(self.tracks@, t2, l2, c2).end_spec(),
                            ) by {
                                if loc_before(t2, l2, c2, t as int, l as int, c as int) {
                                    let y = clip_of(self.tracks@, t2, l2, c2).end_spec();
                                    crate::rational::lemma_lt_asym(max, e);
                                    assert(clip_of(self.tracks@, t2, l2, c2).end_ok());
                                    RationalTime::lemma_add_wf(clip_of(self.tracks@, t2, l2, c2).start, clip_of(self.tracks@, t2, l2, c2).length);
                                    crate::rational::lemma_le_trans(y, max, e);
                                }
                            }
                            crate::rational::lemma_lt_asym(max, e);
                            crate::rational::lemma_le_trans(RationalTime::whole_spec(0), max, e);
                        }
                        max = e;
                    }
                    c = c + 1;
                }
                l = l + 1;
            }
            t = t + 1;
        }
        max
    }
}

/// Positioning at `beat` stays in range for every clip.
pub open spec fn all_beat_ok(tracks: Seq<ArrangementTrack>, beat: RationalTime) -> bool {
    forall|t: int, l: int, c: int| valid_loc(tracks, t, l, c) ==> #[trigger] beat_ok(clip_of(tracks, t, l, c), beat)
}

impl Arrangement {
    /// Every unmuted clip of an unmuted track whose span holds `beat`, in
    /// track, lane and clip order, with its position in its source content.
    pub fn clips_active_at(&self, beat: RationalTime) -> (r: Vec<ClipHit>)
        requires
            all_beat_ok(self.tracks@, beat),
        ensures
            r@ == all_hits(self.tracks@, self.tracks@.len() as int, beat),
    {
        let mut hits: Vec<ClipHit> = Vec::new();
        let mut t: usize = 0;
        while t < self.tracks.len()
            invariant
                t <= self.tracks@.len(),
                all_beat_ok(self.tracks@, beat),
                hits@ == all_hits(self.tracks@, t as int, beat),
            decreases self.tracks@.len() - t,
        {
            let ghost base = hits@;
            if !self.tracks[t].mute {
                let mut l: usize = 0;
                while l < self.tracks[t].lanes.len()
                    invariant
                        t < self.tracks@.len(),
                        !self.tracks@[t as int].mute,
                        l <= self.tracks@[t as int].lanes@.len(),
                        all_beat_ok(self.tracks@, beat),
                        hits@ == base + track_hits(self.tracks@, t as int, l as int, beat),
                    decreases self.tracks@[t as int].lanes@.len() - l,
                {
                    let ghost lbase = hits@;
                    let mut c: usize = 0;
                    while c < self.tracks[t].lanes[l].clips.len()
                        invariant
                            t < self.tracks@.len(),
                            l < self.tracks@[t as int].lanes@.len(),
                            c <= self.tracks@[t as int].lanes@[l as int].clips@.len(),
                            all_beat_ok(self.tracks@, beat),
                            hits@ == lbase + lane_hits(self.tracks@, t as int, l as int, c as int, beat),
                        decreases self.tracks@[t as int].lanes@[l as int].clips@.len() - c,
                    {
                        let x = &self.tracks[t].lanes[l].clips[c];
                        proof {
                            assert(beat_ok(clip_of(self.tracks@, t as int, l as int, c as int), beat));
                        }
                        if !x.muted && x.contains(beat) {
                            let key = match &x.kind {
                                ClipKind::Pattern { pattern_key } => Some(pattern_key.clone()),
                                ClipKind::Midi { pattern_key } => clone_opt_string(pattern_key),
                                ClipKind::Audio { .. } => None,
                            };
                            let h = ClipHit {
                                track_idx: t,
                                lane_idx: l,
                                clip_id: x.id,
                                pattern_key: key,
                                local_beat: x.content_offset.add_exact(beat.sub_exact(x.start)),
                            };
                            hits.push(h);
                            proof {
                                assert(hits@ =~= lbase + lane_hits(self.tracks@, t as int, l as int, c as int + 1, beat));
                            }
                        }
                        c = c + 1;
                    }
                    proof {
                        assert(hits@ =~= base + track_hits(self.tracks@, t as int, l as int + 1, beat));
                    }
                    l = l + 1;
                }
            }
            proof {
                assert(hits@ =~= all_hits(self.tracks@, t as int + 1, beat));
            }
            t = t + 1;
        }
        hits
    }

    /// What to play at `beat`: every unmuted clip playing a pattern on an
    /// unmuted track routed to a matrix row, whose span holds `beat`, in
    /// track, lane and clip order, with the row, the pattern and the position
    /// in its source content.
    pub fn playback_hits(&self, beat: RationalTime) -> (r: Vec<PlaybackHit>)
        requires
            all_beat_ok(self.tracks@, beat),
        ensures
            r@ == all_play(self.tracks@, self.tracks@.len() as int, beat),
    {
        let mut hits: Vec<PlaybackHit> = Vec::new();
        let mut t: usize = 0;
        while t < self.tracks.len()
            invariant
                t <= self.tracks@.len(),
                all_beat_ok(self.tracks@, beat),
                hits@ == all_play(self.tracks@, t as int, beat),
            decreases self.tracks@.len() - t,
        {
            let ghost base = hits@;
            if !self.tracks[t].mute {
                match &self.tracks[t].source_row {
                    None => {},
                    Some(row) => {
                        let mut l: usize = 0;
                        while l < self.tracks[t].lanes.len()
                            invariant
                                t < self.tracks@.len(),
                                !self.tracks@[t as int].mute,
                                self.tracks@[t as int].source_row == Some(*row),
                                l <= self.tracks@[t as int].lanes@.len(),
                                all_beat_ok(self.tracks@, beat),
                                hits@ == base + track_play(self.tracks@, t as int, l as int, beat),
                            decreases self.tracks@[t as int].lanes@.len() - l,
                        {
                            let ghost lbase = hits@;
                            let mut c: usize = 0;
                            while c < self.tracks[t].lanes[l].clips.len()
                                invariant
                                    t < self.tracks@.len(),
                                    l < self.tracks@[t as int].lanes@.len(),
                                    self.tracks@[t as int].source_row == Some(*row),
                                    c <= self.tracks@[t as int].lanes@[l as int].clips@.len(),
                                    all_beat_ok(self.tracks@, beat),
                                    hits@ == lbase + lane_play(self.tracks@, t as int, l as int, c as int, *row, beat),
                                decreases self.tracks@[t as int].lanes@[l as int].clips@.len() - c,
                            {
                                let x = &self.tracks[t].lanes[l].clips[c];
                                proof {
                                    assert(beat_ok(clip_of(self.tracks@, t as int, l as int, c as int), beat));
                                }
                                if !x.muted && x.contains(beat) {
                                    let key: Option<String> = match &x.kind {
                                        ClipKind::Pattern { pattern_key } => Some(pattern_key.clone()),
                                        ClipKind::Midi { pattern_key } => clone_opt_string(pattern_key),
                                        ClipKind::Audio { .. } => None,
                                    };
                                    match key {
                                        Some(k) => {
                                            let h = PlaybackHit {
                                                track_idx: t,
                                                source_row: row.clone(),
                                                clip_id: x.id,
                                                pattern_key: k,
                                                local_beat: x.content_offset.add_exact(beat.sub_exact(x.start)),
                                            };
                                            hits.push(h);
                                            proof {
                                                assert(hits@ =~= lbase + lane_play(self.tracks@, t as int, l as int, c as int + 1, *row, beat));
                                            }
                                        },
                                        None => {},
                                    }
                                }
                                c = c + 1;
                            }
                            proof {
                                assert(hits@ =~= base + track_play(self.tracks@, t as int, l as int + 1, beat));
                            }
                            l = l + 1;
                        }
                    },
                }
            }
            proof {
                assert(hits@ =~= all_play(self.tracks@, t as int + 1, beat));
            }
            t = t + 1;
        }
        hits
    }
}

/// Blocks in the first `i` legacy tracks.
pub open spec fn blocks_before(tracks: Seq<Track>, i: int) -> int
    decreases i,
{
    if i <= 0 {
        0
    } else {
        blocks_before(tracks, i - 1) + tracks[i - 1].blocks@.len()
    }
}

proof fn lemma_blocks_before_mono(tracks: Seq<Track>, i: int, j: int)
    requires
        0 <= i <= j <= tracks.len(),
    ensures
        blocks_before(tracks, i) <= blocks_before(tracks, j),
    decreases j,
{
    if j > i {
        lemma_blocks_before_mono(tracks, i, j - 1);
    }
}

/// The clip a legacy block `(start_bar, length_bars, label)` becomes, with
/// `bpb` beats per bar: a pattern clip of its label over whole beats.
pub open spec fn legacy_clip(id: int, block: (u32, u32, String), bpb: int) -> Clip {
    Clip {
        id: id as u64,
        name: block.2,
        kind: ClipKind::Pattern { pattern_key: block.2 },
        start: RationalTime::whole_spec(block.0 * bpb),
        length: RationalTime::whole_spec((if block.1 < 1 {
            1
        } else {
            block.1 as int
        }) * bpb),
        content_offset: RationalTime::whole_spec(0),
        loop_enabled: false,
        color: 0,
        muted: false,
    }
}

/// The legacy conversion fits `i64` beats at `bpb` beats per bar.
pub open spec fn legacy_ok(tracks: Seq<Track>, bpb: int) -> bool {
    forall|i: int, k: int|
        0 <= i < tracks.len() && 0 <= k < tracks[i].blocks@.len() ==> #[trigger] tracks[i].blocks@[k].0 * bpb <= i64::MAX
            && (if tracks[i].blocks@[k].1 < 1 {
            1
        } else {
            tracks[i].blocks@[k].1 as int
        }) * bpb <= i64::MAX
}

impl Arrangement {
    /// Build an arrangement from legacy bar-block tracks, `beats_per_bar`
    /// beats to the bar (at least 1): each track becomes an unrouted MIDI
    /// track of the same name and mute with one lane, each block
    /// `(start_bar, length_bars, label)` a pattern clip of `label` from bar
    /// `start_bar` lasting `length_bars` bars (at least 1), ids counting from
    /// zero in track and block order.
    pub fn from_legacy_tracks(tracks: &[Track], beats_per_bar: i64) -> (a: Arrangement)
        requires
            legacy_ok(tracks@, if beats_per_bar < 1 { 1 } else { beats_per_bar as int }),
            blocks_before(tracks@, tracks@.len() as int) <= u64::MAX,
        ensures
            a.tracks@.len() == tracks@.len(),
            a.next_clip_id == blocks_before(tracks@, tracks@.len() as int),
            forall|i: int|
                0 <= i < tracks@.len() ==> {
                    let t = #[trigger] a.tracks@[i];
                    &&& t.name == tracks@[i].name
                    &&& t.kind == TrackKind::Midi
                    &&& t.mute == tracks@[i].mute
                    &&& t.source_row.is_none()
                    &&& t.lanes@.len() == 1
                    &&& t.lanes@[0].clips@.len() == tracks@[i].blocks@.len()
                    &&& forall|k: int|
                        0 <= k < tracks@[i].blocks@.len() ==> #[trigger] t.lanes@[0].clips@[k] == legacy_clip(
                            blocks_before(tracks@, i) + k,
                            tracks@[i].blocks@[k],
                            if beats_per_bar < 1 {
                                1
                            } else {
                                beats_per_bar as int
                            },
                        )
                },
    {
        let bpb: i64 = if beats_per_bar < 1 {
            1
        } else {
            beats_per_bar
        };
        let mut arr = Arrangement::default();
        let mut i: usize = 0;
        while i < tracks.len()
            invariant
                i <= tracks@.len(),
                bpb >= 1,
                bpb == (if beats_per_bar < 1 { 1 } else { beats_per_bar as int }),
                legacy_ok(tracks@, bpb as int),
                blocks_before(tracks@, tracks@.len() as int) <= u64::MAX,
                arr.tracks@.len() == i,
                arr.next_clip_id == blocks_before(tracks@, i as int),
                forall|i2: int|
                    0 <= i2 < i ==> {
                        let t = #[trigger] arr.tracks@[i2];
                        &&& t.name == tracks@[i2].name
                        &&& t.kind == TrackKind::Midi
                        &&& t.mute == tracks@[i2].mute
                        &&& t.source_row.is_none()
                        &&& t.lanes@.len() == 1
                        &&& t.lanes@[0].clips@.len() == tracks@[i2].blocks@.len()
                        &&& forall|k: int|
                            0 <= k < tracks@[i2].blocks@.len() ==> #[trigger] t.lanes@[0].clips@[k] == legacy_clip(
                                blocks_before(tracks@, i2) + k,
                                tracks@[i2].blocks@[k],
                                bpb as int,
                            )
                    },
            decreases tracks@.len() - i,
        {
            let leg = &tracks[i];
            let mut track = ArrangementTrack::new(leg.name.clone(), TrackKind::Midi);
            track.mute = leg.mute;
            let mut clips: Vec<Clip> = Vec::new();
            let mut k: usize = 0;
            let ghost done = arr.tracks@;
            proof {
                lemma_blocks_before_mono(tracks@, i as int + 1, tracks@.len() as int);
            }
            while k < leg.blocks.len()
                invariant
                    i < tracks@.len(),
                    leg == tracks@[i as int],
                    k <= leg.blocks@.len(),
                    bpb >= 1,
                    legacy_ok(tracks@, bpb as int),
                    arr.next_clip_id == blocks_before(tracks@, i as int) + k,
                    arr.tracks@ == done,
                    blocks_before(tracks@, i as int) + leg.blocks@.len() <= u64::MAX,
                    clips@.len() == k,
                    forall|k2: int| 0 <= k2 < k ==> #[trigger] clips@[k2] == legacy_clip(blocks_before(tracks@, i as int) + k2, leg.blocks@[k2], bpb as int),
                decreases leg.blocks@.len() - k,
            {
                let b = &leg.blocks[k];
                proof {
                    assert(tracks@[i as int].blocks@[k as int].0 * bpb <= i64::MAX);
                    assert((if b.1 < 1 { 1 } else { b.1 as int }) * bpb <= i64::MAX);
                }
                let id = arr.next_clip_id;
                arr.next_clip_id = arr.next_clip_id + 1;
                let lenb: u32 = if b.1 < 1 {
                    1
                } else {
                    b.1
                };
                let start = RationalTime::whole(b.0 as i64 * bpb);
                let length = RationalTime::whole(lenb as i64 * bpb);
                let label = b.2.clone();
                let c = Clip::new(id, label.clone(), ClipKind::Pattern { pattern_key: label }, start, length);
                clips.push(c);
                k = k + 1;
            }
            track.lanes.set(0, Lane { clips });
            arr.tracks.push(track);
            proof {
                assert(blocks_before(tracks@, i as int + 1) == blocks_before(tracks@, i as int) + tracks@[i as int].blocks@.len());
            }
            i = i + 1;
        }
        arr
    }
}

/// The clips of the first `n` lanes, lane after lane.
pub open spec fn flat(lanes: Seq<Lane>, n: int) -> Seq<Clip>
    decreases n,
{
    if n <= 0 {
        Seq::empty()
    } else {
        flat(lanes, n - 1) + lanes[n - 1].clips@
    }
}

/// All clips of track `t` (none for a track that does not exist).
pub open spec fn track_flat(tracks: Seq<ArrangementTrack>, t: int) -> Seq<Clip> {
    if 0 <= t < tracks.len() {
        flat(tracks[t].lanes@, tracks[t].lanes@.len() as int)
    } else {
        Seq::empty()
    }
}

/// `(start, id)` order: by start, then by id.
pub open spec fn pair_lt(a: (RationalTime, u64), b: (RationalTime, u64)) -> bool {
    lt(a.0, b.0) || (a.0 == b.0 && a.1 < b.1)
}

/// `p` is in `(start, id)` order.
pub open spec fn pairs_sorted(p: Seq<(RationalTime, u64)>) -> bool {
    forall|i: int, j: int| 0 <= i < j < p.len() ==> !pair_lt(#[trigger] p[j], #[trigger] p[i])
}

/// The `(start, id)` pair of each clip.
pub open spec fn start_ids(s: Seq<Clip>) -> Seq<(RationalTime, u64)> {
    s.map_values(|c: Clip| (c.start, c.id))
}

/// `ids` lists track `t`'s clips by start, ties by id.
pub open spec fn in_track_order(tracks: Seq<ArrangementTrack>, t: int, ids: Seq<u64>) -> bool {
    exists|p: Seq<(RationalTime, u64)>|
        #[trigger] pairs_sorted(p) && p.to_multiset() == start_ids(track_flat(tracks, t)).to_multiset() && ids == p.map_values(
            |x: (RationalTime, u64)| x.1,
        )
}

/// The clip before or after `cur` in `ids`: past either end there is none;
/// for an id not in the list, the first (forward) or last (backward).
pub open spec fn neighbor_in(ids: Seq<u64>, cur: u64, forward: bool) -> Option<u64> {
    if ids.contains(cur) {
        let pos = ids.index_of_first(cur).unwrap();
        if forward {
            if pos + 1 < ids.len() {
                Some(ids[pos + 1])
            } else {
                None
            }
        } else if pos >= 1 {
            Some(ids[pos - 1])
        } else {
            None
        }
    } else if ids.len() == 0 {
        None
    } else if forward {
        Some(ids[0])
    } else {
        Some(ids[ids.len() - 1])
    }
}

proof fn lemma_pair_le_trans(x: (RationalTime, u64), y: (RationalTime, u64), z: (RationalTime, u64))
    requires
        x.0.wf(),
        y.0.wf(),
        z.0.wf(),
        !pair_lt(y, x),
        !pair_lt(z, y),
    ensures
        !pair_lt(z, x),
{
    crate::rational::lemma_le_trans(x.0, y.0, z.0);
    if z.0 == x.0 {
        crate::rational::lemma_le_antisym(x.0, y.0);
    }
}

impl Arrangement {
    /// All clips of track `track_idx`, lane after lane.
    pub fn track_clips(&self, track_idx: usize) -> (r: Vec<Clip>)
        ensures
            r@ == track_flat(self.tracks@, track_idx as int),
    {
        let mut out: Vec<Clip> = Vec::new();
        if track_idx >= self.tracks.len() {
            return out;
        }
        let lanes = &self.tracks[track_idx].lanes;
        let mut l: usize = 0;
        while l < lanes.len()
            invariant
                l <= lanes@.len(),
                out@ == flat(lanes@, l as int),
            decreases lanes@.len() - l,
        {
            let ghost base = out@;
            let mut c: usize = 0;
            while c < lanes[l].clips.len()
                invariant
                    l < lanes@.len(),
                    c <= lanes@[l as int].clips@.len(),
                    out@ == base + lanes@[l as int].clips@.take(c as int),
                decreases lanes@[l as int].clips@.len() - c,
            {
                out.push(lanes[l].clips[c].clone());
                proof {
                    assert(lanes@[l as int].clips@.take(c + 1) =~= lanes@[l as int].clips@.take(c as int).push(lanes@[l as int].clips@[c as int]));
                }
                c = c + 1;
            }
            proof {
                assert(lanes@[l as int].clips@.take(lanes@[l as int].clips@.len() as int) =~= lanes@[l as int].clips@);
            }
            l = l + 1;
        }
        out
    }

    /// The ids of track `track_idx`'s clips (all lanes) ordered by start,
    /// ties by id; empty for a track that does not exist.
    pub fn track_clip_ids(&self, track_idx: usize) -> (r: Vec<u64>)
        ensures
            in_track_order(self.tracks@, track_idx as int, r@),
    {
        let clips = self.track_clips(track_idx);
        let ghost all = start_ids(clips@);
        let mut out: Vec<(RationalTime, u64)> = Vec::new();
        let ghost mut done: Seq<(RationalTime, u64)> = Seq::empty();
        let mut i: usize = 0;
        while i < clips.len()
            invariant
                i <= clips@.len(),
                all == start_ids(clips@),
                done == all.take(i as int),
                out@.to_multiset() == done.to_multiset(),
                pairs_sorted(out@),
                forall|k: int| 0 <= k < out@.len() ==> (#[trigger] out@[k]).0.wf(),
            decreases clips@.len() - i,
        {
            let st = clips[i].start;
            let x = (st, clips[i].id);
            proof {
                use_type_invariant(&st);
                RationalTime::lemma_inv_wf(st);
                assert(all.take(i + 1) =~= done.push(x));
            }
            let ghost before = out@;
            let mut k: usize = out.len();
            while k > 0 && (x.0.less_than(&out[k - 1].0) || (x.0 == out[k - 1].0 && x.1 < out[k - 1].1))
                invariant
                    k <= out@.len(),
                    out@ == before,
                    forall|j: int| k <= j < out@.len() ==> pair_lt(x, out@[j]),
                decreases k,
            {
                k = k - 1;
            }
            out.insert(k, x);
            proof {
                assert(out@ =~= before.insert(k as int, x));
                vstd::seq_lib::to_multiset_insert(before, k as int, x);
                assert(done.push(x).to_multiset() =~= done.to_multiset().insert(x)) by {
                    done.to_multiset_ensures();
                }
                assert forall|a: int, b: int| 0 <= a < b < out@.len() implies !pair_lt(#[trigger] out@[b], #[trigger] out@[a]) by {
                    if b < k {
                        assert(out@[a] == before[a] && out@[b] == before[b]);
                    } else if b == k as int {
                        assert(out@[b] == x && out@[a] == before[a]);
                        assert(!pair_lt(x, before[k - 1]));
                        if a < k - 1 {
                            assert(!pair_lt(before[k - 1], before[a]));
                            lemma_pair_le_trans(before[a], before[k - 1], x);
                        }
                    } else if a == k as int {
                        assert(out@[a] == x && out@[b] == before[b - 1]);
                        assert(pair_lt(x, before[b - 1]));
                        if lt(x.0, before[b - 1].0) {
                            crate::rational::lemma_lt_asym(x.0, before[b - 1].0);
                        }
                    } else if a < k {
                        assert(out@[a] == before[a] && out@[b] == before[b - 1]);
                    } else {
                        assert(out@[a] == before[a - 1] && out@[b] == before[b - 1]);
                    }
                }
                done = done.push(x);
            }
            i = i + 1;
        }
        proof {
            assert(all.take(clips@.len() as int) =~= all);
        }
        let mut ids: Vec<u64> = Vec::new();
        let mut j: usize = 0;
        while j < out.len()
            invariant
                j <= out@.len(),
                ids@ == out@.take(j as int).map_values(|x: (RationalTime, u64)| x.1),
            decreases out@.len() - j,
        {
            ids.push(out[j].1);
            proof {
                assert(out@.take(j + 1).map_values(|x: (RationalTime, u64)| x.1) =~= out@.take(j as int).map_values(|x: (RationalTime, u64)| x.1).push(out@[j as int].1));
            }
            j = j + 1;
        }
        proof {
            assert(out@.take(out@.len() as int) =~= out@);
            assert(pairs_sorted(out@));
        }
        ids
    }
}

/// Index of the first clip in `s` containing `beat`, or `s.len()`.
pub open spec fn first_at(s: Seq<Clip>, beat: RationalTime) -> int {
    first_containing(s, 0, beat)
}

impl Arrangement {
    /// The first clip of track `track_idx` in start order.
    pub fn first_clip_on_track(&self, track_idx: usize) -> (r: Option<u64>)
        ensures
            exists|ids: Seq<u64>|
                #[trigger] in_track_order(self.tracks@, track_idx as int, ids) && r == (if ids.len() > 0 {
                    Some(ids[0])
                } else {
                    None
                }),
    {
        let ids = self.track_clip_ids(track_idx);
        if ids.len() > 0 {
            Some(ids[0])
        } else {
            None
        }
    }

    /// The clip next to `current_id` on track `track_idx` in start order
    /// (the next one when `forward`, else the previous): none past either
    /// end; for an id not on the track, the first (forward) or last one.
    pub fn neighbor_clip(&self, track_idx: usize, current_id: u64, forward: bool) -> (r: Option<u64>)
        ensures
            exists|ids: Seq<u64>| #[trigger] in_track_order(self.tracks@, track_idx as int, ids) && r == neighbor_in(ids, current_id, forward),
    {
        let ids = self.track_clip_ids(track_idx);
        let mut pos: usize = 0;
        while pos < ids.len() && ids[pos] != current_id
            invariant
                pos <= ids@.len(),
                forall|j: int| 0 <= j < pos ==> ids@[j] != current_id,
            decreases ids@.len() - pos,
        {
            pos = pos + 1;
        }
        let r = if pos < ids.len() {
            proof {
                assert(ids@.contains(current_id));
                ids@.index_of_first_ensures(current_id);
                assert(ids@.index_of_first(current_id).unwrap() == pos as int);
            }
            if forward {
                if pos + 1 < ids.len() {
                    Some(ids[pos + 1])
                } else {
                    None
                }
            } else if pos >= 1 {
                Some(ids[pos - 1])
            } else {
                None
            }
        } else {
            proof {
                assert(!ids@.contains(current_id));
            }
            if ids.len() == 0 {
                None
            } else if forward {
                Some(ids[0])
            } else {
                Some(ids[ids.len() - 1])
            }
        };
        r
    }

    /// The id of the first clip of track `track_idx` (lane after lane) whose
    /// span holds `beat`.
    pub fn clip_at_on_track(&self, track_idx: usize, beat: RationalTime) -> (r: Option<u64>)
        requires
            all_ends_ok(self.tracks@),
        ensures
            ({
                let s = track_flat(self.tracks@, track_idx as int);
                let k = first_at(s, beat);
                if k < s.len() {
                    r == Some(s[k].id)
                } else {
                    r.is_none()
                }
            }),
    {
        let clips = self.track_clips(track_idx);
        proof {
            assert(ends_ok(clips@)) by {
                assert forall|i: int| 0 <= i < clips@.len() implies (#[trigger] clips@[i]).end_ok() by {
                    lemma_flat_member(self.tracks@, track_idx as int, i);
                }
            }
        }
        let mut i: usize = 0;
        while i < clips.len()
            invariant
                i <= clips@.len(),
                ends_ok(clips@),
                clips@ == track_flat(self.tracks@, track_idx as int),
                first_containing(clips@, 0, beat) == first_containing(clips@, i as int, beat),
            decreases clips@.len() - i,
        {
            if clips[i].contains(beat) {
                proof {
                    assert(first_containing(clips@, i as int, beat) == i);
                    assert(clips@ == track_flat(self.tracks@, track_idx as int));
                }
                return Some(clips[i].id);
            }
            i = i + 1;
        }
        None
    }
}

/// Every clip of a track's flat list sits at some valid position.
proof fn lemma_flat_member(tracks: Seq<ArrangementTrack>, t: int, i: int)
    requires
        0 <= i < track_flat(tracks, t).len(),
    ensures
        exists|l: int, c: int| valid_loc(tracks, t, l, c) && #[trigger] clip_of(tracks, t, l, c) == track_flat(tracks, t)[i],
{
    lemma_flat_member_n(tracks, t, tracks[t].lanes@.len() as int, i);
}

proof fn lemma_flat_member_n(tracks: Seq<ArrangementTrack>, t: int, n: int, i: int)
    requires
        0 <= t < tracks.len(),
        0 <= n <= tracks[t].lanes@.len(),
        0 <= i < flat(tracks[t].lanes@, n).len(),
    ensures
        exists|l: int, c: int| valid_loc(tracks, t, l, c) && #[trigger] clip_of(tracks, t, l, c) == flat(tracks[t].lanes@, n)[i],
    decreases n,
{
    let lanes = tracks[t].lanes@;
    let prev = flat(lanes, n - 1);
    if i < prev.len() {
        lemma_flat_member_n(tracks, t, n - 1, i);
    } else {
        let c = i - prev.len();
        assert(flat(lanes, n)[i] == lanes[n - 1].clips@[c]);
        assert(valid_loc(tracks, t, n - 1, c));
        assert(clip_of(tracks, t, n - 1, c) == flat(lanes, n)[i]);
    }
}

/// How far clip `x` starts from `beat` (as `start - beat`).
pub open spec fn offset_from(x: Clip, beat: RationalTime) -> RationalTime {
    RationalTime::sub_spec_of(x.start, beat)
}

/// `a` is strictly smaller than `b` in absolute value.
pub open spec fn abs_lt(a: RationalTime, b: RationalTime) -> bool {
    crate::arith::iabs(a.numer()) * b.denom() < crate::arith::iabs(b.numer()) * a.denom()
}

/// Measuring every clip's distance from `beat` stays in range.
pub open spec fn dist_ok(s: Seq<Clip>, beat: RationalTime) -> bool {
    forall|i: int|
        0 <= i < s.len() ==> RationalTime::sub_ok((#[trigger] s[i]).start, beat) && offset_from(s[i], beat).numer() > i64::MIN
}

impl Arrangement {
    /// The id of the clip of track `track_idx` (lane after lane) whose start
    /// is nearest to `beat`; the first of equally near ones.
    pub fn nearest_clip_on_track(&self, track_idx: usize, beat: RationalTime) -> (r: Option<u64>)
        requires
            dist_ok(track_flat(self.tracks@, track_idx as int), beat),
        ensures
            ({
                let s = track_flat(self.tracks@, track_idx as int);
                &&& s.len() == 0 ==> r.is_none()
                &&& s.len() > 0 ==> exists|k: int|
                    0 <= k < s.len() && r == Some(#[trigger] s[k].id) && (forall|j: int|
                        0 <= j < s.len() ==> !abs_lt(offset_from(#[trigger] s[j], beat), offset_from(s[k], beat))) && (forall|j: int|
                        0 <= j < k ==> abs_lt(offset_from(s[k], beat), offset_from(#[trigger] s[j], beat)))
            }),
    {
        let clips = self.track_clips(track_idx);
        if clips.len() == 0 {
            return None;
        }
        let mut best: usize = 0;
        let mut best_d = clips[0].start.sub_exact(beat).abs();
        let mut i: usize = 1;
        while i < clips.len()
            invariant
                1 <= i <= clips@.len(),
                best < i,
                dist_ok(clips@, beat),
                best_d.numer() == crate::arith::iabs(offset_from(clips@[best as int], beat).numer()),
                best_d.denom() == offset_from(clips@[best as int], beat).denom(),
                forall|j: int| 0 <= j < i ==> !abs_lt(offset_from(#[trigger] clips@[j], beat), offset_from(clips@[best as int], beat)),
                forall|j: int| 0 <= j < best ==> abs_lt(offset_from(clips@[best as int], beat), offset_from(#[trigger] clips@[j], beat)),
            decreases clips@.len() - i,
        {
            let d = clips[i].start.sub_exact(beat).abs();
            if d.less_than(&best_d) {
                proof {
                    assert forall|j: int| 0 <= j < i + 1 implies !abs_lt(offset_from(#[trigger] clips@[j], beat), offset_from(clips@[i as int], beat)) by {
                        if j < i {
                            let a = offset_from(clips@[j], beat);
                            let b = offset_from(clips@[best as int], beat);
                            let c = offset_from(clips@[i as int], beat);
                            RationalTime::lemma_sub_wf(clips@[j].start, beat);
                            RationalTime::lemma_sub_wf(clips@[best as int].start, beat);
                            RationalTime::lemma_sub_wf(clips@[i as int].start, beat);
                            lemma_abs_lt_trans(c, b, a);
                        }
                    }
                    assert forall|j: int| 0 <= j < i implies abs_lt(offset_from(clips@[i as int], beat), offset_from(#[trigger] clips@[j], beat)) by {
                        let a = offset_from(clips@[j], beat);
                        let b = offset_from(clips@[best as int], beat);
                        let c = offset_from(clips@[i as int], beat);
                        RationalTime::lemma_sub_wf(clips@[j].start, beat);
                        RationalTime::lemma_sub_wf(clips@[best as int].start, beat);
                        RationalTime::lemma_sub_wf(clips@[i as int].start, beat);
                        lemma_abs_lt_le(c, b, a);
                    }
                }
                best = i;
                best_d = d;
            }
            i = i + 1;
        }
        Some(clips[best].id)
    }
}

/// `c < b` and `b <= a` in absolute value give `c < a`.
proof fn lemma_abs_lt_le(c: RationalTime, b: RationalTime, a: RationalTime)
    requires
        a.wf(),
        b.wf(),
        c.wf(),
        abs_lt(c, b),
        !abs_lt(a, b),
    ensures
        abs_lt(c, a),
{
    let (an, ad, bn, bd, cn, cd) = (crate::arith::iabs(a.numer()), a.denom(), crate::arith::iabs(b.numer()), b.denom(), crate::arith::iabs(c.numer()), c.denom());
    assert(cn * ad < an * cd) by (nonlinear_arith)
        requires
            ad > 0,
            bd > 0,
            cd > 0,
            an >= 0,
            bn >= 0,
            cn >= 0,
            cn * bd < bn * cd,
            an * bd >= bn * ad,
    {
        assert(cn * bd * ad < bn * cd * ad);
        assert(an * bd * cd >= bn * ad * cd);
        assert(cn * ad * bd < an * cd * bd);
    }
}

/// `c < b` in absolute value and `a` not below `b` give `a` not below `c`.
proof fn lemma_abs_lt_trans(c: RationalTime, b: RationalTime, a: RationalTime)
    requires
        a.wf(),
        b.wf(),
        c.wf(),
        abs_lt(c, b),
        !abs_lt(a, b),
    ensures
        !abs_lt(a, c),
{
    lemma_abs_lt_le(c, b, a);
    let (an, ad, cn, cd) = (crate::arith::iabs(a.numer()), a.denom(), crate::arith::iabs(c.numer()), c.denom());
    assert(!(an * cd < cn * ad));
}

} // verus!
