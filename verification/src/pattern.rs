//! Step patterns and their exact rational-time view.
//!
//! The `steps` grid is the editing store; a step's start is
//! `index * step_beats`, shifted by `micro` percent of one step, and its
//! sounding duration is `gate` percent of one step. Positions are exact
//! [`RationalTime`] values in beats.

use crate::note::{is_rest, Note, NoteEvent};
use crate::rational::{lemma_add_denotes, lemma_lt_denotes, lemma_sub_denotes, new_ok, RationalTime, Resolution, Tuplet};
use vstd::arithmetic::mul::*;
use vstd::prelude::*;
use vstd::string::*;
use std::collections::hash_map::DefaultHasher;
use std::hash::Hasher;
use vstd::std_specs::hash::DefaultHasherAdditionalSpecFns;

verus! {

/// Maximum pattern length in steps.
pub const MAX_STEPS: usize = 8192;

/// `v` clamped into `[lo, hi]`.
pub open spec fn clamp_int(v: int, lo: int, hi: int) -> int {
    if v < lo {
        lo
    } else if v > hi {
        hi
    } else {
        v
    }
}

/// `a / b` rounded towards zero (`b > 0`).
pub open spec fn div_trunc(a: int, b: int) -> int {
    if a >= 0 {
        a / b
    } else {
        -((-a) / b)
    }
}

/// Half a beat-fraction: `1/2`.
pub open spec fn half() -> RationalTime {
    RationalTime::ratio(1, 2)
}

/// `round(x * 100 / step)` with halves up, for the rational `x` (the number
/// of percent of one step that `x` spans).
pub open spec fn percent_of(x: RationalTime, step: RationalTime) -> int {
    RationalTime::add_spec_of(
        RationalTime::mul_int_spec_of(RationalTime::div_spec_of(x, step), 100),
        half(),
    ).floor_spec()
}

/// [`percent_of`] stays within `i64`.
pub open spec fn percent_ok(x: RationalTime, step: RationalTime) -> bool {
    &&& RationalTime::div_ok(x, step)
    &&& RationalTime::mul_int_ok(RationalTime::div_spec_of(x, step), 100)
    &&& RationalTime::add_ok(
        RationalTime::mul_int_spec_of(RationalTime::div_spec_of(x, step), 100),
        half(),
    )
    &&& RationalTime::add_spec_of(
        RationalTime::mul_int_spec_of(RationalTime::div_spec_of(x, step), 100),
        half(),
    ).floor_ok()
}

fn percent(x: RationalTime, step: RationalTime) -> (r: i64)
    requires
        percent_ok(x, step),
    ensures
        r == percent_of(x, step),
{
    let h = RationalTime::new(1, 2);
    (x / step * 100 + h).floor()
}

/// A sequence of steps with its grid resolution and time signature.
#[derive(Debug, Clone)]
pub struct Pattern {
    pub name: String,
    /// The step data.
    pub steps: Vec<Note>,
    /// Active step count (1-8192).
    pub length: usize,
    /// Swing percentage (50 = no swing).
    pub swing: u8,
    /// Random variation amount (0-100).
    pub random: u8,
    /// Pattern trigger probability (0-100).
    pub prob: u8,
    /// Euclidean rhythm: number of active pulses.
    pub euclid_fill: usize,
    /// Euclidean rhythm: total step count.
    pub euclid_len: usize,
    /// Humanization amount 0-100%.
    pub humanization: u8,
    /// Evolution speed: 0 = off, 1 = slow, 2 = medium, 3 = fast.
    pub evolution: u8,
    /// Probability lock (freezes randomization).
    pub prob_lock: bool,
    /// Pattern-level microshift (-99..+99 ticks).
    pub microshift: i8,
    /// Time signature numerator (beats per measure).
    pub time_sig_num: u8,
    /// Time signature denominator (beat unit).
    pub time_sig_den: u8,
    /// Beat grouping within a measure, e.g. `[3, 2, 2]` for 7/8.
    pub beat_groups: Vec<u8>,
    /// Edit/grid resolution: one step is one cell of this resolution.
    pub resolution: Resolution,
}

/// `n` is a fresh default step.
pub open spec fn is_blank(n: Note) -> bool {
    is_rest(n.note@) && n.velocity == 100 && n.is_default_payload()
}

/// Saturating sum of bytes.
pub open spec fn sat_sum(s: Seq<u8>) -> int
    decreases s.len(),
{
    if s.len() == 0 {
        0
    } else {
        let a = sat_sum(s.drop_last()) + s.last();
        if a > 255 {
            255
        } else {
            a
        }
    }
}

/// Indices `i < end` whose step sounds, in order.
pub open spec fn sounding(steps: Seq<Note>, end: int) -> Seq<int>
    decreases end,
{
    if end <= 0 {
        Seq::empty()
    } else {
        sounding(steps, end - 1) + if is_rest(steps[end - 1].note@) {
            Seq::empty()
        } else {
            seq![end - 1]
        }
    }
}

/// `n` with its timing normalised: `micro = 0`, `gate = 100`.
pub open spec fn payload_of(n: Note) -> Note {
    Note { micro: 0, gate: 100, ..n }
}

impl Pattern {
    /// One step in beats: `4 / den`.
    pub open spec fn step_spec(self) -> RationalTime {
        RationalTime::ratio(4, self.resolution.den_spec())
    }

    /// The `micro` of step `i` (0 beyond the stored steps).
    pub open spec fn micro_at(self, i: int) -> i8 {
        if 0 <= i < self.steps@.len() {
            self.steps@[i].micro
        } else {
            0
        }
    }

    /// The `gate` of step `i` (100 beyond the stored steps).
    pub open spec fn gate_at(self, i: int) -> u16 {
        if 0 <= i < self.steps@.len() {
            self.steps@[i].gate
        } else {
            100
        }
    }

    /// Grid position of step `i`: `step * i`.
    pub open spec fn base_spec(self, i: int) -> RationalTime {
        RationalTime::mul_int_spec_of(self.step_spec(), i)
    }

    /// Start of step `i`: its grid position, shifted by `micro` percent of a step.
    pub open spec fn start_spec(self, i: int) -> RationalTime {
        if self.micro_at(i) == 0 {
            self.base_spec(i)
        } else {
            RationalTime::add_spec_of(
                self.base_spec(i),
                RationalTime::mul_spec_of(self.step_spec(), RationalTime::ratio(self.micro_at(i) as int, 100)),
            )
        }
    }

    /// [`Pattern::step_start`] stays within `i64`.
    pub open spec fn start_ok(self, i: int) -> bool {
        &&& in_i64_index(i)
        &&& RationalTime::mul_int_ok(self.step_spec(), i)
        &&& (self.micro_at(i) != 0 ==> RationalTime::mul_ok(
            self.step_spec(),
            RationalTime::ratio(self.micro_at(i) as int, 100),
        ) && RationalTime::add_ok(
            self.base_spec(i),
            RationalTime::mul_spec_of(self.step_spec(), RationalTime::ratio(self.micro_at(i) as int, 100)),
        ))
    }

    /// Sounding duration of step `i`: `gate` percent of one step.
    pub open spec fn duration_spec(self, i: int) -> RationalTime {
        RationalTime::mul_spec_of(self.step_spec(), RationalTime::ratio(self.gate_at(i) as int, 100))
    }

    /// [`Pattern::step_duration`] stays within `i64`.
    pub open spec fn duration_ok(self, i: int) -> bool {
        RationalTime::mul_ok(self.step_spec(), RationalTime::ratio(self.gate_at(i) as int, 100))
    }

    /// The `micro` that places step `i` at `start`: the offset from the grid
    /// position in percent of a step, rounded, clamped to `-99..=99`.
    pub open spec fn micro_for_spec(self, i: int, start: RationalTime) -> int {
        clamp_int(
            percent_of(RationalTime::sub_spec_of(start, self.base_spec(i)), self.step_spec()),
            -99,
            99,
        )
    }

    /// [`Pattern::micro_for_spec`] stays within `i64`.
    pub open spec fn micro_for_ok(self, i: int, start: RationalTime) -> bool {
        &&& in_i64_index(i)
        &&& RationalTime::mul_int_ok(self.step_spec(), i)
        &&& RationalTime::sub_ok(start, self.base_spec(i))
        &&& percent_ok(RationalTime::sub_spec_of(start, self.base_spec(i)), self.step_spec())
    }

    /// The active region: the first `min(length, steps.len())` steps.
    pub open spec fn end_spec(self) -> int {
        if self.length < self.steps@.len() {
            self.length as int
        } else {
            self.steps@.len() as int
        }
    }

    /// All fields but `steps` agree.
    pub open spec fn same_settings(self, o: Pattern) -> bool {
        &&& self.name == o.name
        &&& self.length == o.length
        &&& self.swing == o.swing
        &&& self.random == o.random
        &&& self.prob == o.prob
        &&& self.euclid_fill == o.euclid_fill
        &&& self.euclid_len == o.euclid_len
        &&& self.humanization == o.humanization
        &&& self.evolution == o.evolution
        &&& self.prob_lock == o.prob_lock
        &&& self.microshift == o.microshift
        &&& self.time_sig_num == o.time_sig_num
        &&& self.time_sig_den == o.time_sig_den
        &&& self.beat_groups@ == o.beat_groups@
        &&& self.resolution == o.resolution
    }
}

/// An index that converts to `i64` without wrapping.
pub open spec fn in_i64_index(i: int) -> bool {
    0 <= i <= i64::MAX
}

fn blank_steps(n: usize) -> (v: Vec<Note>)
    ensures
        v@.len() == n,
        forall|i: int| 0 <= i < n ==> is_blank(#[trigger] v@[i]),
{
    let mut v: Vec<Note> = Vec::new();
    let mut i: usize = 0;
    while i < n
        invariant
            i <= n,
            v@.len() == i,
            forall|j: int| 0 <= j < i ==> is_blank(#[trigger] v@[j]),
        decreases n - i,
    {
        v.push(Note::default());
        i = i + 1;
    }
    v
}

impl Pattern {
    /// A pattern of `length` empty steps (clamped to `1..=8192`) on the 1/16
    /// grid in 4/4, with swing 50 and a Euclidean length of
    /// `length` clamped to `2..=16`.
    pub fn new(name: String, length: usize) -> (p: Pattern)
        ensures
            p.name == name,
            p.length == clamp_int(length as int, 1, MAX_STEPS as int),
            p.steps@.len() == p.length,
            forall|i: int| 0 <= i < p.steps@.len() ==> is_blank(#[trigger] p.steps@[i]),
            p.swing == 50 && p.random == 0 && p.prob == 0,
            p.euclid_fill == 3,
            p.euclid_len == clamp_int(p.length as int, 2, 16),
            p.humanization == 0 && p.evolution == 0 && !p.prob_lock && p.microshift == 0,
            p.time_sig_num == 4 && p.time_sig_den == 4,
            p.beat_groups@.len() == 0,
            p.resolution == Resolution::Whole(16),
    {
        let length = if length < 1 {
            1
        } else if length > MAX_STEPS {
            MAX_STEPS
        } else {
            length
        };
        let el = if length < 16 {
            length
        } else {
            16
        };
        let el = if el < 2 {
            2
        } else {
            el
        };
        Pattern {
            name,
            steps: blank_steps(length),
            length,
            swing: 50,
            random: 0,
            prob: 0,
            euclid_fill: 3,
            euclid_len: el,
            humanization: 0,
            evolution: 0,
            prob_lock: false,
            microshift: 0,
            time_sig_num: 4,
            time_sig_den: 4,
            beat_groups: Vec::new(),
            resolution: Resolution::default_edit(),
        }
    }

    /// The step at `index`, if in range.
    pub fn step(&self, index: usize) -> (r: Option<&Note>)
        ensures
            index < self.steps@.len() ==> (r matches Some(n) && *n == self.steps@[index as int]),
            index >= self.steps@.len() ==> r is None,
    {
        if index < self.steps.len() {
            Some(&self.steps[index])
        } else {
            None
        }
    }

    /// The step at `index` for editing, if in range.
    pub fn step_mut(&mut self, index: usize) -> (r: Option<&mut Note>)
        ensures
            index < old(self).steps@.len() ==> (r matches Some(n) && *n == old(self).steps@[index as int]
                && final(self).steps@ == old(self).steps@.update(index as int, *final(n))
                && final(self).same_settings(*old(self))),
            index >= old(self).steps@.len() ==> (r is None && *final(self) == *old(self)),
    {
        if index < self.steps.len() {
            Some(&mut self.steps[index])
        } else {
            None
        }
    }

    /// Replace the step at `index` (ignored when out of range).
    pub fn set_step(&mut self, index: usize, note: Note)
        ensures
            index < old(self).steps@.len() ==> final(self).steps@ == old(self).steps@.update(index as int, note),
            index >= old(self).steps@.len() ==> final(self).steps@ == old(self).steps@,
            final(self).same_settings(*old(self)),
    {
        if index < self.steps.len() {
            self.steps.set(index, note);
        }
    }

    /// Silence the step at `index` (ignored when out of range).
    pub fn clear_step(&mut self, index: usize)
        ensures
            final(self).steps@.len() == old(self).steps@.len(),
            index < old(self).steps@.len() ==> is_blank(final(self).steps@[index as int]),
            forall|j: int| 0 <= j < old(self).steps@.len() && j != index ==> final(self).steps@[j] == old(self).steps@[j],
            final(self).same_settings(*old(self)),
    {
        if index < self.steps.len() {
            self.steps.set(index, Note::default());
        }
    }

    /// Swing offset in ticks for `step`: odd steps move by
    /// `(swing - 50) * ppqn / 100` (rounded towards zero), even steps stay.
    pub fn swing_offset(&self, step: usize, ppqn: u32) -> (r: i32)
        requires
            step % 2 == 1 ==> i32::MIN <= (self.swing - 50) * ((ppqn as i32) as int) <= i32::MAX,
        ensures
            step % 2 == 1 ==> r == div_trunc((self.swing - 50) * ((ppqn as i32) as int), 100),
            step % 2 == 0 ==> r == 0,
    {
        if step % 2 == 1 {
            ((self.swing as i32 - 50) * ppqn as i32) / 100
        } else {
            0
        }
    }

    /// Length rounded up to whole measures: `ceil(length / n) * n` with
    /// `n = max(time_sig_num, 1)`.
    pub fn effective_length(&self) -> (r: usize)
        requires
            self.length + 255 <= usize::MAX,
        ensures
            r == (self.length + (if self.time_sig_num < 1 {
                1int
            } else {
                self.time_sig_num as int
            }) - 1) / (if self.time_sig_num < 1 {
                1int
            } else {
                self.time_sig_num as int
            }) * (if self.time_sig_num < 1 {
                1int
            } else {
                self.time_sig_num as int
            }),
    {
        let num: usize = if self.time_sig_num < 1 {
            1
        } else {
            self.time_sig_num as usize
        };
        let q = (self.length + num - 1) / num;
        proof {
            let n = num as int;
            let l = self.length as int;
            assert(q * n <= l + n - 1) by (nonlinear_arith)
                requires
                    q == (l + n - 1) / n,
                    n >= 1,
                    l >= 0,
            ;
        }
        q * num
    }

    /// Beats spanned by one step at this pattern's resolution.
    pub fn step_beats(&self) -> (r: RationalTime)
        ensures
            r == self.step_spec(),
    {
        self.resolution.step_beats()
    }

    /// Musical length of the active region in beats: `step * length`.
    pub fn length_beats(&self) -> (r: RationalTime)
        requires
            in_i64_index(self.length as int),
            RationalTime::mul_int_ok(self.step_spec(), self.length as int),
        ensures
            r == RationalTime::mul_int_spec_of(self.step_spec(), self.length as int),
    {
        self.step_beats() * (self.length as i64)
    }

    /// Exact start of step `index` in beats, including its `micro` offset.
    pub fn step_start(&self, index: usize) -> (r: RationalTime)
        requires
            self.start_ok(index as int),
        ensures
            r == self.start_spec(index as int),
    {
        let base = self.step_beats() * (index as i64);
        let micro: i8 = if index < self.steps.len() {
            self.steps[index].micro
        } else {
            0
        };
        if micro == 0 {
            base
        } else {
            base + self.step_beats() * RationalTime::new(micro as i64, 100)
        }
    }

    /// Sounding duration of step `index`: its `gate` percent of one step.
    pub fn step_duration(&self, index: usize) -> (r: RationalTime)
        requires
            self.duration_ok(index as int),
        ensures
            r == self.duration_spec(index as int),
    {
        let gate: u16 = if index < self.steps.len() {
            self.steps[index].gate
        } else {
            100
        };
        self.step_beats() * RationalTime::new(gate as i64, 100)
    }

    fn micro_for_start(&self, index: usize, start: RationalTime) -> (r: i8)
        requires
            self.micro_for_ok(index as int, start),
        ensures
            r == self.micro_for_spec(index as int, start),
    {
        let base = self.step_beats() * (index as i64);
        let p = percent(start - base, self.step_beats());
        if p < -99 {
            -99
        } else if p > 99 {
            99
        } else {
            p as i8
        }
    }
}

/// The jitter bound of the humanizers: `min(amount, 99)`.
pub open spec fn humanize_range(amount: u8) -> int {
    if amount > 99 {
        99
    } else {
        amount as int
    }
}

/// `n` with its `micro` moved by `j`, clamped to `±99`.
pub open spec fn shifted(n: Note, j: int) -> Note {
    Note { micro: clamp_int(n.micro + j, -99, 99) as i8, ..n }
}

/// `a % b` with the sign of `a` (Rust's remainder), `b > 0`.
pub open spec fn rem_trunc(a: int, b: int) -> int {
    if a >= 0 {
        a % b
    } else {
        -((-a) % b)
    }
}

/// The legacy timing jitter for hash `h`: `((h as i8) wrapping+ micro) % (range + 1)`.
pub open spec fn timing_jitter(h: u64, micro: i8, range: int) -> int {
    rem_trunc(vstd::wrapping::i8_specs::wrapping_add(h as i8, micro) as int, range + 1)
}

/// The `n` low bytes of `x`, least significant first.
pub open spec fn le_bytes(x: nat, n: nat) -> Seq<u8>
    decreases n,
{
    if n == 0 {
        Seq::empty()
    } else {
        seq![(x % 256) as u8] + le_bytes(x / 256, (n - 1) as nat)
    }
}

/// The bytes of `i` as `usize::to_ne_bytes` lays them out on a
/// little-endian (`little`) or a big-endian machine.
pub open spec fn native_bytes(i: usize, little: bool) -> Seq<u8> {
    let b = le_bytes(i as nat, (usize::BITS / 8) as nat);
    if little {
        b
    } else {
        b.reverse()
    }
}

/// The bytes of `i` in the machine's byte order (`usize::to_ne_bytes`,
/// collected into a `Vec`). Which of the two orders comes out depends on the
/// machine, so the contract only says that it is one of them.
#[verifier::external_body]
fn usize_ne_bytes(i: usize) -> (r: Vec<u8>)
    ensures
        r@ == native_bytes(i, true) || r@ == native_bytes(i, false),
{
    i.to_ne_bytes().to_vec()
}

/// The hash of step `i` with micro-timing `micro` on a little-endian
/// (`little`) or big-endian machine: `DefaultHasher` fed the index's bytes,
/// then the micro-timing's byte.
pub open spec fn step_hash_spec(i: usize, micro: i8, little: bool) -> u64 {
    DefaultHasher::spec_finish(seq![native_bytes(i, little), seq![micro as u8]])
}

/// Step `i` holding `n` after timing humanization by `amount` on a machine
/// of the given byte order.
pub open spec fn timing_humanized(n: Note, i: int, amount: u8, little: bool) -> Note {
    shifted(n, timing_jitter(step_hash_spec(i as usize, n.micro, little), n.micro, humanize_range(amount)))
}

/// The rational humanizer's offset for hash `h`: `h mod (2 range + 1)`
/// less `range`, so within `±range`.
pub open spec fn rational_jitter(h: u64, range: int) -> int {
    (h % ((2 * range + 1) as u64)) as int - range
}

/// Step `i` holding `n` after rational humanization by `amount_pct` on a
/// machine of the given byte order.
pub open spec fn rational_humanized(n: Note, i: int, amount_pct: u8, little: bool) -> Note {
    shifted(n, rational_jitter(step_hash_spec(i as usize, n.micro, little), humanize_range(amount_pct)))
}

/// Rational humanization moves a step's `micro` (within `±99`) by at most
/// `min(amount_pct, 99)`, whatever the hash.
pub proof fn lemma_rational_humanize_bounded(n: Note, i: int, amount_pct: u8, little: bool)
    requires
        -99 <= n.micro <= 99,
    ensures
        n.micro - humanize_range(amount_pct) <= rational_humanized(n, i, amount_pct, little).micro <= n.micro
            + humanize_range(amount_pct),
{
    let r = humanize_range(amount_pct);
    let h = step_hash_spec(i as usize, n.micro, little);
    let m = (2 * r + 1) as u64;
    assert(0 <= h % m < m) by {
        assert(m > 0);
    }
    assert(-r <= rational_jitter(h, r) <= r);
}

/// The hash the humanizers draw from: `DefaultHasher` over the step index
/// (native-endian bytes) and the step's `micro`.
fn step_hash(i: usize, micro: i8) -> (r: u64)
    ensures
        r == step_hash_spec(i, micro, true) || r == step_hash_spec(i, micro, false),
{
    let mut h = DefaultHasher::new();
    let b = usize_ne_bytes(i);
    h.write(b.as_slice());
    let m: [u8; 1] = [micro as u8];
    proof {
        assert(m@ =~= seq![micro as u8]);
    }
    h.write(m.as_slice());
    proof {
        assert(h@ =~= seq![b@, seq![micro as u8]]);
    }
    h.finish()
}

impl Pattern {
    /// Humanize timing: add a pseudo-random offset of at most
    /// `min(amount, 99)` to each sounding step's `micro`, clamped to `±99`.
    /// The offset is drawn from a hash of the step index and its `micro`.
    pub fn humanize_timing(&mut self, amount: u8)
        ensures
            final(self).same_settings(*old(self)),
            final(self).steps@.len() == old(self).steps@.len(),
            forall|i: int|
                0 <= i < old(self).steps@.len() ==> {
                    let n = #[trigger] old(self).steps@[i];
                    if is_rest(n.note@) {
                        final(self).steps@[i] == n
                    } else {
                        final(self).steps@[i] == timing_humanized(n, i, amount, true) || final(self).steps@[i]
                            == timing_humanized(n, i, amount, false)
                    }
                },
    {
        let range: i8 = if amount > 99 {
            99
        } else {
            amount as i8
        };
        let mut i: usize = 0;
        while i < self.steps.len()
            invariant
                i <= self.steps@.len(),
                0 <= range <= 99,
                range == humanize_range(amount),
                self.same_settings(*old(self)),
                self.steps@.len() == old(self).steps@.len(),
                forall|j: int| i <= j < self.steps@.len() ==> self.steps@[j] == old(self).steps@[j],
                forall|j: int|
                    0 <= j < i ==> {
                        let n = #[trigger] old(self).steps@[j];
                        if is_rest(n.note@) {
                            self.steps@[j] == n
                        } else {
                            self.steps@[j] == timing_humanized(n, j, amount, true) || self.steps@[j] == timing_humanized(
                                n,
                                j,
                                amount,
                                false,
                            )
                        }
                    },
            decreases self.steps@.len() - i,
        {
            if !self.steps[i].is_empty() {
                let micro = self.steps[i].micro;
                let h = step_hash(i, micro);
                let r: i8 = ((h as i8).wrapping_add(micro)) % (range + 1);
                proof {
                    assert(r == timing_jitter(h, micro, humanize_range(amount)));
                }
                let v: i16 = micro as i16 + r as i16;
                let v: i16 = if v < -99 {
                    -99
                } else if v > 99 {
                    99
                } else {
                    v
                };
                self.steps[i].micro = v as i8;
                proof {
                    let n = old(self).steps@[i as int];
                    assert(self.steps@[i as int] == shifted(n, r as int));
                    if h == step_hash_spec(i, micro, true) {
                        assert(self.steps@[i as int] == timing_humanized(n, i as int, amount, true));
                    } else {
                        assert(self.steps@[i as int] == timing_humanized(n, i as int, amount, false));
                    }
                }
            }
            i = i + 1;
        }
    }

    /// Add bounded pseudo-random jitter of at most `min(amount_pct, 99)`
    /// percent of a step to each sounding step in the active region, written
    /// back through `micro` (clamped to `±99`).
    pub fn humanize_rational(&mut self, amount_pct: u8)
        ensures
            final(self).same_settings(*old(self)),
            final(self).steps@.len() == old(self).steps@.len(),
            forall|i: int|
                0 <= i < old(self).steps@.len() ==> {
                    let n = #[trigger] old(self).steps@[i];
                    if i >= old(self).end_spec() || is_rest(n.note@) || amount_pct == 0 {
                        final(self).steps@[i] == n
                    } else {
                        final(self).steps@[i] == rational_humanized(n, i, amount_pct, true) || final(self).steps@[i]
                            == rational_humanized(n, i, amount_pct, false)
                    }
                },
    {
        let range: i64 = if amount_pct > 99 {
            99
        } else {
            amount_pct as i64
        };
        if range == 0 {
            return;
        }
        let end = if self.length < self.steps.len() {
            self.length
        } else {
            self.steps.len()
        };
        let mut i: usize = 0;
        while i < end
            invariant
                i <= end,
                end == old(self).end_spec(),
                1 <= range <= 99,
                range == humanize_range(amount_pct),
                self.same_settings(*old(self)),
                self.steps@.len() == old(self).steps@.len(),
                forall|j: int| i <= j < self.steps@.len() ==> self.steps@[j] == old(self).steps@[j],
                forall|k: int|
                    0 <= k < i ==> {
                        let n = #[trigger] old(self).steps@[k];
                        if is_rest(n.note@) {
                            self.steps@[k] == n
                        } else {
                            self.steps@[k] == rational_humanized(n, k, amount_pct, true) || self.steps@[k]
                                == rational_humanized(n, k, amount_pct, false)
                        }
                    },
            decreases end - i,
        {
            if !self.steps[i].is_empty() {
                let micro = self.steps[i].micro;
                let h = step_hash(i, micro);
                let jitter: i64 = (h % (2 * range as u64 + 1)) as i64 - range;
                let v: i64 = micro as i64 + jitter;
                let v: i64 = if v < -99 {
                    -99
                } else if v > 99 {
                    99
                } else {
                    v
                };
                self.steps[i].micro = v as i8;
                proof {
                    let n = old(self).steps@[i as int];
                    assert(self.steps@[i as int] == shifted(n, jitter as int));
                    if h == step_hash_spec(i, micro, true) {
                        assert(self.steps@[i as int] == rational_humanized(n, i as int, amount_pct, true));
                    } else {
                        assert(self.steps@[i as int] == rational_humanized(n, i as int, amount_pct, false));
                    }
                }
            }
            i = i + 1;
        }
    }

    /// The active beat grouping: `beat_groups` when they are non-empty and sum
    /// (saturating) to `max(time_sig_num, 1)`, else that single group.
    pub fn effective_groups(&self) -> (r: Vec<u8>)
        ensures
            ({
                let n: u8 = if self.time_sig_num < 1 {
                    1
                } else {
                    self.time_sig_num
                };
                if self.beat_groups@.len() == 0 || sat_sum(self.beat_groups@) != n {
                    r@ == seq![n]
                } else {
                    r@ == self.beat_groups@
                }
            }),
    {
        let n: u8 = if self.time_sig_num < 1 {
            1
        } else {
            self.time_sig_num
        };
        let mut sum: u8 = 0;
        let mut i: usize = 0;
        while i < self.beat_groups.len()
            invariant
                i <= self.beat_groups@.len(),
                sum == sat_sum(self.beat_groups@.take(i as int)),
            decreases self.beat_groups@.len() - i,
        {
            proof {
                assert(self.beat_groups@.take(i as int + 1).drop_last() =~= self.beat_groups@.take(i as int));
            }
            let b = self.beat_groups[i];
            sum = if sum as u16 + b as u16 > 255 {
                255
            } else {
                sum + b
            };
            i = i + 1;
        }
        proof {
            assert(self.beat_groups@.take(self.beat_groups@.len() as int) =~= self.beat_groups@);
        }
        if self.beat_groups.len() == 0 || sum != n {
            let mut v: Vec<u8> = Vec::new();
            v.push(n);
            proof {
                assert(v@ =~= seq![n]);
            }
            v
        } else {
            let v = self.beat_groups.clone();
            proof {
                assert(v@ =~= self.beat_groups@);
            }
            v
        }
    }
}

/// The grid of [`Pattern::quantize_to`]: `target` step scaled by the tuplet.
pub open spec fn quantize_grid(target: Resolution, tuplet: Tuplet) -> RationalTime {
    RationalTime::mul_spec_of(
        RationalTime::ratio(4, target.den_spec()),
        RationalTime::ratio(tuplet.den as int, tuplet.num as int),
    )
}

/// The grid of [`Pattern::quantize_to`] stays within `i64`.
pub open spec fn quantize_grid_ok(target: Resolution, tuplet: Tuplet) -> bool {
    new_ok(tuplet.den as int, tuplet.num as int) && RationalTime::mul_ok(
        RationalTime::ratio(4, target.den_spec()),
        RationalTime::ratio(tuplet.den as int, tuplet.num as int),
    )
}

/// The snap strength as a fraction: `min(pct, 100) / 100`.
pub open spec fn strength_of(pct: u8) -> RationalTime {
    RationalTime::ratio(if pct > 100 {
        100
    } else {
        pct as int
    }, 100)
}

/// The nearest line of `grid` to `cur`: `grid * floor(cur / grid + 1/2)`.
pub open spec fn nearest_line(cur: RationalTime, grid: RationalTime) -> RationalTime {
    RationalTime::mul_int_spec_of(
        grid,
        RationalTime::add_spec_of(RationalTime::div_spec_of(cur, grid), half()).floor_spec(),
    )
}

/// Where quantizing moves `cur`: `cur + (nearest - cur) * strength`.
pub open spec fn quantized(cur: RationalTime, grid: RationalTime, strength: RationalTime) -> RationalTime {
    RationalTime::add_spec_of(
        cur,
        RationalTime::mul_spec_of(RationalTime::sub_spec_of(nearest_line(cur, grid), cur), strength),
    )
}

/// Quantizing `cur` stays within `i64`.
pub open spec fn quantized_ok(cur: RationalTime, grid: RationalTime, strength: RationalTime) -> bool {
    let q = RationalTime::div_spec_of(cur, grid);
    let a = RationalTime::add_spec_of(q, half());
    let n = nearest_line(cur, grid);
    let d = RationalTime::sub_spec_of(n, cur);
    &&& RationalTime::div_ok(cur, grid)
    &&& RationalTime::add_ok(q, half())
    &&& a.floor_ok()
    &&& RationalTime::mul_int_ok(grid, a.floor_spec())
    &&& RationalTime::sub_ok(n, cur)
    &&& RationalTime::mul_ok(d, strength)
    &&& RationalTime::add_ok(cur, RationalTime::mul_spec_of(d, strength))
}

/// `e` is `n` with its timing normalised (`micro = 0`, `gate = 100`).
pub open spec fn is_payload_of(e: Note, n: Note) -> bool {
    e.micro == 0 && e.gate == 100 && (Note { micro: n.micro, gate: n.gate, ..e }).same_as(n)
}

/// One step in beats is positive.
pub proof fn lemma_step_positive(d: int)
    requires
        1 <= d <= i64::MAX,
    ensures
        RationalTime::ratio(4, d).numer() > 0,
{
    RationalTime::lemma_ratio(4, d);
    let r = RationalTime::ratio(4, d);
    assert(r.numer() > 0) by (nonlinear_arith)
        requires
            r.numer() * d == 4 * r.denom(),
            r.denom() > 0,
            d > 0,
    ;
}

impl Pattern {
    /// The `micro` quantizing gives step `i`.
    pub open spec fn quantize_micro(self, i: int, target: Resolution, tuplet: Tuplet, pct: u8) -> int {
        self.micro_for_spec(i, quantized(self.start_spec(i), quantize_grid(target, tuplet), strength_of(pct)))
    }

    /// Quantizing step `i` stays within `i64`.
    pub open spec fn quantize_step_ok(self, i: int, target: Resolution, tuplet: Tuplet, pct: u8) -> bool {
        &&& self.start_ok(i)
        &&& quantized_ok(self.start_spec(i), quantize_grid(target, tuplet), strength_of(pct))
        &&& self.micro_for_ok(i, quantized(self.start_spec(i), quantize_grid(target, tuplet), strength_of(pct)))
    }

    /// Snap every sounding step of the active region towards the nearest line
    /// of the `target` grid (under `tuplet`) by `strength_pct` percent (0 = no
    /// change, 100 = hard snap), written back through `micro`. Nothing changes
    /// when the grid is zero.
    pub fn quantize_to(&mut self, target: Resolution, tuplet: Tuplet, strength_pct: u8)
        requires
            quantize_grid_ok(target, tuplet),
            forall|i: int|
                0 <= i < old(self).end_spec() && !is_rest(old(self).steps@[i].note@) ==> #[trigger] old(self).quantize_step_ok(i, target, tuplet, strength_pct),
        ensures
            final(self).same_settings(*old(self)),
            final(self).steps@.len() == old(self).steps@.len(),
            forall|i: int|
                0 <= i < old(self).steps@.len() ==> #[trigger] final(self).steps@[i] == if quantize_grid(target, tuplet).numer() == 0
                    || i >= old(self).end_spec() || is_rest(old(self).steps@[i].note@) {
                    old(self).steps@[i]
                } else {
                    Note { micro: old(self).quantize_micro(i, target, tuplet, strength_pct) as i8, ..old(self).steps@[i] }
                },
    {
        let grid = target.step_beats() * tuplet.scale();
        if grid.is_zero() {
            return;
        }
        let strength = RationalTime::new(if strength_pct > 100 {
            100
        } else {
            strength_pct as i64
        }, 100);
        let end = if self.length < self.steps.len() {
            self.length
        } else {
            self.steps.len()
        };
        let mut i: usize = 0;
        while i < end
            invariant
                i <= end,
                end == old(self).end_spec(),
                grid == quantize_grid(target, tuplet),
                grid.numer() != 0,
                strength == strength_of(strength_pct),
                self.same_settings(*old(self)),
                self.steps@.len() == old(self).steps@.len(),
                forall|j: int| i <= j < self.steps@.len() ==> self.steps@[j] == old(self).steps@[j],
                forall|j: int|
                    0 <= j < end && !is_rest(old(self).steps@[j].note@) ==> #[trigger] old(self).quantize_step_ok(j, target, tuplet, strength_pct),
                forall|j: int|
                    0 <= j < i ==> #[trigger] self.steps@[j] == if is_rest(old(self).steps@[j].note@) {
                        old(self).steps@[j]
                    } else {
                        Note { micro: old(self).quantize_micro(j, target, tuplet, strength_pct) as i8, ..old(self).steps@[j] }
                    },
            decreases end - i,
        {
            if !self.steps[i].is_empty() {
                proof {
                    assert(old(self).quantize_step_ok(i as int, target, tuplet, strength_pct));
                    assert(self.start_spec(i as int) == old(self).start_spec(i as int));
                    assert(self.micro_at(i as int) == old(self).micro_at(i as int));
                }
                let cur = self.step_start(i);
                let q = cur / grid;
                let nearest = grid * (q + RationalTime::new(1, 2)).floor();
                let new_start = cur + (nearest - cur) * strength;
                let m = self.micro_for_start(i, new_start);
                proof {
                    assert(m == old(self).quantize_micro(i as int, target, tuplet, strength_pct));
                }
                self.steps[i].micro = m;
            }
            i = i + 1;
        }
    }

    /// The `gate` a note of duration `dur` gets: its length in percent of a
    /// step, rounded, clamped to `1..=65535`.
    pub open spec fn gate_for_spec(self, dur: RationalTime) -> int {
        clamp_int(percent_of(dur, self.step_spec()), 1, 65535)
    }

    /// Set the sounding duration of the note at `index` to `dur` beats, stored
    /// through `gate`; no change for empty or out-of-range steps.
    pub fn set_note_duration(&mut self, index: usize, dur: RationalTime)
        requires
            index < old(self).steps@.len() && !is_rest(old(self).steps@[index as int].note@) ==> percent_ok(dur, old(self).step_spec()),
        ensures
            final(self).same_settings(*old(self)),
            index < old(self).steps@.len() && !is_rest(old(self).steps@[index as int].note@) ==> final(self).steps@
                == old(self).steps@.update(index as int, Note { gate: old(self).gate_for_spec(dur) as u16, ..old(self).steps@[index as int] }),
            !(index < old(self).steps@.len() && !is_rest(old(self).steps@[index as int].note@)) ==> final(self).steps@ == old(self).steps@,
    {
        let step = self.step_beats();
        proof {
            lemma_step_positive(self.resolution.den_spec());
        }
        if step.is_zero() {
            return;
        }
        if index < self.steps.len() {
            if self.steps[index].is_empty() {
                return;
            }
            let p = percent(dur, step);
            let g: u16 = if p < 1 {
                1
            } else if p > 65535 {
                65535
            } else {
                p as u16
            };
            self.steps[index].gate = g;
        }
    }

    /// The end of step `i`: start plus duration.
    pub open spec fn end_of(self, i: int) -> RationalTime {
        RationalTime::add_spec_of(self.start_spec(i), self.duration_spec(i))
    }

    /// The onset [`Pattern::resize_note_start`] actually uses: grid position
    /// plus the clamped `micro`.
    pub open spec fn eff_start(self, i: int, new_start: RationalTime) -> RationalTime {
        RationalTime::add_spec_of(
            self.base_spec(i),
            RationalTime::mul_spec_of(self.step_spec(), RationalTime::ratio(self.micro_for_spec(i, new_start), 100)),
        )
    }

    /// The duration that keeps the old end: `end - onset`, or a hundredth of a
    /// step when that is not positive.
    pub open spec fn kept_duration(self, i: int, new_start: RationalTime) -> RationalTime {
        let nd = RationalTime::sub_spec_of(self.end_of(i), self.eff_start(i, new_start));
        if nd.numer() <= 0 {
            RationalTime::div_int_spec_of(self.step_spec(), 100)
        } else {
            nd
        }
    }

    /// [`Pattern::resize_note_start`] stays within `i64`.
    pub open spec fn resize_ok(self, i: int, new_start: RationalTime) -> bool {
        &&& self.start_ok(i)
        &&& self.duration_ok(i)
        &&& RationalTime::add_ok(self.start_spec(i), self.duration_spec(i))
        &&& (0 <= i < self.steps@.len() && !is_rest(self.steps@[i].note@) ==> {
            &&& self.micro_for_ok(i, new_start)
            &&& RationalTime::mul_ok(self.step_spec(), RationalTime::ratio(self.micro_for_spec(i, new_start), 100))
            &&& RationalTime::add_ok(
                self.base_spec(i),
                RationalTime::mul_spec_of(self.step_spec(), RationalTime::ratio(self.micro_for_spec(i, new_start), 100)),
            )
            &&& RationalTime::sub_ok(self.end_of(i), self.eff_start(i, new_start))
            &&& RationalTime::div_int_ok(self.step_spec(), 100)
            &&& percent_ok(self.kept_duration(i, new_start), self.step_spec())
        })
    }

    /// Move the onset of the note at `index` to `new_start` beats while keeping
    /// its end: `micro` takes the offset (clamped to `±99`) and `gate` the
    /// remaining duration. No change for empty or out-of-range steps.
    pub fn resize_note_start(&mut self, index: usize, new_start: RationalTime)
        requires
            old(self).resize_ok(index as int, new_start),
        ensures
            final(self).same_settings(*old(self)),
            index < old(self).steps@.len() && !is_rest(old(self).steps@[index as int].note@) ==> final(self).steps@
                == old(self).steps@.update(
                index as int,
                Note {
                    micro: old(self).micro_for_spec(index as int, new_start) as i8,
                    gate: old(self).gate_for_spec(old(self).kept_duration(index as int, new_start)) as u16,
                    ..old(self).steps@[index as int]
                },
            ),
            !(index < old(self).steps@.len() && !is_rest(old(self).steps@[index as int].note@)) ==> final(self).steps@ == old(self).steps@,
    {
        let step = self.step_beats();
        proof {
            lemma_step_positive(self.resolution.den_spec());
        }
        if step.is_zero() {
            return;
        }
        let old_start = self.step_start(index);
        let old_end = old_start + self.step_duration(index);
        if index < self.steps.len() {
            if self.steps[index].is_empty() {
                return;
            }
            let m = self.micro_for_start(index, new_start);
            let base = step * (index as i64);
            let eff_start = base + step * RationalTime::new(m as i64, 100);
            let new_dur = old_end - eff_start;
            let dur = if new_dur.is_negative() || new_dur.is_zero() {
                step / 100
            } else {
                new_dur
            };
            let p = percent(dur, step);
            let g: u16 = if p < 1 {
                1
            } else if p > 65535 {
                65535
            } else {
                p as u16
            };
            self.steps[index].micro = m;
            self.steps[index].gate = g;
        }
    }

    /// Every sounding step of the active region has a start and duration within `i64`.
    pub open spec fn events_ok(self) -> bool {
        forall|i: int|
            0 <= i < self.end_spec() && !is_rest(self.steps@[i].note@) ==> #[trigger] self.start_ok(i) && self.duration_ok(i)
    }

    /// The exact events of the active region: one per sounding step, in step
    /// order, at the step's start with its duration; the embedded note has its
    /// timing normalised.
    pub fn to_events(&self) -> (events: Vec<NoteEvent>)
        requires
            self.events_ok(),
        ensures
            events@.len() == sounding(self.steps@, self.end_spec()).len(),
            forall|k: int|
                0 <= k < events@.len() ==> {
                    let i = sounding(self.steps@, self.end_spec())[k];
                    &&& (#[trigger] events@[k]).start == self.start_spec(i)
                    &&& events@[k].duration == self.duration_spec(i)
                    &&& is_payload_of(events@[k].note, self.steps@[i])
                },
    {
        let mut events: Vec<NoteEvent> = Vec::new();
        let end = if self.length < self.steps.len() {
            self.length
        } else {
            self.steps.len()
        };
        let mut i: usize = 0;
        while i < end
            invariant
                i <= end,
                end == self.end_spec(),
                self.events_ok(),
                events@.len() == sounding(self.steps@, i as int).len(),
                forall|k: int|
                    0 <= k < events@.len() ==> {
                        let j = sounding(self.steps@, i as int)[k];
                        &&& (#[trigger] events@[k]).start == self.start_spec(j)
                        &&& events@[k].duration == self.duration_spec(j)
                        &&& is_payload_of(events@[k].note, self.steps@[j])
                    },
            decreases end - i,
        {
            let ghost prev = sounding(self.steps@, i as int);
            proof {
                assert(sounding(self.steps@, i as int + 1) == prev + if is_rest(self.steps@[i as int].note@) {
                    Seq::<int>::empty()
                } else {
                    seq![i as int]
                });
            }
            if !self.steps[i].is_empty() {
                proof {
                    assert(self.start_ok(i as int) && self.duration_ok(i as int));
                }
                let mut payload = self.steps[i].clone();
                payload.micro = 0;
                payload.gate = 100;
                let ev = NoteEvent::new(self.step_start(i), self.step_duration(i), payload);
                events.push(ev);
            }
            proof {
                assert forall|k: int| 0 <= k < events@.len() implies {
                    let j = sounding(self.steps@, i as int + 1)[k];
                    &&& (#[trigger] events@[k]).start == self.start_spec(j)
                    &&& events@[k].duration == self.duration_spec(j)
                    &&& is_payload_of(events@[k].note, self.steps@[j])
                } by {
                    if k < prev.len() {
                        assert(sounding(self.steps@, i as int + 1)[k] == prev[k]);
                    }
                }
            }
            i = i + 1;
        }
        events
    }
}

impl Default for Pattern {
    fn default() -> (p: Pattern)
        ensures
            p.name@ == "EMPTY"@,
            p.length == 64,
            p.steps@.len() == 64,
            p.resolution == Resolution::Whole(16),
    {
        Pattern::new(String::from_str("EMPTY"), 64)
    }
}

// ─── Window scanning ────────────────────────────────────────────────────────

/// One event firing inside a scanned beat window.
#[derive(Debug, Clone, Copy, PartialEq, Eq, Structural)]
pub struct WindowHit {
    /// Index into the scanned events.
    pub event_index: usize,
    /// The event's grid step (`start / step_beats`, at least 0).
    pub local_step: usize,
    /// Offset of the hit from the window start, in beats.
    pub offset: RationalTime,
}

/// `floor(a / b)` for a positive `b`, 0 otherwise (as [`RationalTime::div_floor`]).
pub open spec fn div_floor_spec(a: RationalTime, b: RationalTime) -> int {
    if b.numer() <= 0 {
        0
    } else {
        (a.numer() * b.denom()) / (a.denom() * b.numer())
    }
}

/// The loop position `s + L * k`.
pub open spec fn cand_at(s: RationalTime, l: RationalTime, k: int) -> RationalTime {
    RationalTime::add_spec_of(s, RationalTime::mul_int_spec_of(l, k))
}

/// `ceil((w1 - s) / L) - k`: how many loop positions from `k` on lie below `w1`.
pub open spec fn steps_left(s: RationalTime, l: RationalTime, w1: RationalTime, k: int) -> int {
    let a = (w1.numer() * s.denom() - s.numer() * w1.denom()) * l.denom();
    let b = w1.denom() * s.denom() * l.numer();
    -((-a) / b) - k
}

/// The last loop index a scan from `k0` can visit.
pub open spec fn scan_hi(s: RationalTime, l: RationalTime, w1: RationalTime, k0: int) -> int {
    if steps_left(s, l, w1, k0) < 0 {
        k0
    } else {
        k0 + steps_left(s, l, w1, k0)
    }
}

/// The hits of one event from loop index `k` on, with `fuel` iterations.
pub open spec fn event_hits(
    i: int,
    s: RationalTime,
    ls: int,
    l: RationalTime,
    w0: RationalTime,
    w1: RationalTime,
    k: int,
    fuel: nat,
) -> Seq<WindowHit>
    decreases fuel,
{
    if fuel == 0 || !RationalTime::lt_value(cand_at(s, l, k), w1) {
        Seq::empty()
    } else {
        (if RationalTime::lt_value(cand_at(s, l, k), w0) {
            Seq::empty()
        } else {
            seq![WindowHit { event_index: i as usize, local_step: ls as usize, offset: RationalTime::sub_spec_of(cand_at(s, l, k), w0) }]
        }) + event_hits(i, s, ls, l, w0, w1, k + 1, (fuel - 1) as nat)
    }
}

/// The wrapped start of event `e` within the loop.
pub open spec fn wrapped(e: NoteEvent, l: RationalTime) -> RationalTime {
    RationalTime::rem_spec(e.start, l)
}

/// The grid step of a wrapped start.
pub open spec fn local_of(s: RationalTime, step: RationalTime) -> int {
    if step.numer() == 0 {
        0
    } else if div_floor_spec(s, step) < 0 {
        0
    } else {
        div_floor_spec(s, step)
    }
}

/// The first loop index that can reach the window: `floor((w0 - s) / L)`.
pub open spec fn first_k(s: RationalTime, l: RationalTime, w0: RationalTime) -> int {
    div_floor_spec(RationalTime::sub_spec_of(w0, s), l)
}

/// All hits of the first `n` events.
pub open spec fn all_hits(
    events: Seq<NoteEvent>,
    n: int,
    l: RationalTime,
    step: RationalTime,
    w0: RationalTime,
    w1: RationalTime,
) -> Seq<WindowHit>
    decreases n,
{
    if n <= 0 {
        Seq::empty()
    } else {
        let s = wrapped(events[n - 1], l);
        let k0 = first_k(s, l, w0);
        let f = steps_left(s, l, w1, k0);
        all_hits(events, n - 1, l, step, w0, w1) + event_hits(
            n - 1,
            s,
            (local_of(s, step) as usize) as int,
            l,
            w0,
            w1,
            k0,
            if f < 0 {
                0nat
            } else {
                f as nat
            },
        )
    }
}

/// Scanning one event stays within `i64`.
pub open spec fn event_scan_ok(e: NoteEvent, l: RationalTime, step: RationalTime, w0: RationalTime, w1: RationalTime) -> bool {
    let s = wrapped(e, l);
    let k0 = first_k(s, l, w0);
    &&& RationalTime::rem_ok(e.start, l)
    &&& (step.numer() != 0 ==> RationalTime::div_floor_ok(s, step))
    &&& RationalTime::sub_ok(w0, s)
    &&& RationalTime::div_floor_ok(RationalTime::sub_spec_of(w0, s), l)
    &&& scan_hi(s, l, w1, k0) < i64::MAX
    &&& forall|k: int|
        k0 <= k <= scan_hi(s, l, w1, k0) ==> #[trigger] RationalTime::mul_int_ok(l, k)
            && RationalTime::add_ok(s, RationalTime::mul_int_spec_of(l, k)) && RationalTime::sub_ok(cand_at(s, l, k), w0)
}

proof fn lemma_cand_below(s: RationalTime, l: RationalTime, w1: RationalTime, k: int)
    requires
        s.wf(),
        l.wf(),
        w1.wf(),
        l.numer() > 0,
        RationalTime::mul_int_ok(l, k),
        RationalTime::add_ok(s, RationalTime::mul_int_spec_of(l, k)),
        RationalTime::lt_value(cand_at(s, l, k), w1),
    ensures
        steps_left(s, l, w1, k) >= 1,
{
    let m = RationalTime::mul_int_spec_of(l, k);
    let c = cand_at(s, l, k);
    RationalTime::lemma_ratio(l.numer() * k, l.denom());
    let sd = s.denom();
    let md = m.denom();
    assert(sd * md > 0) by (nonlinear_arith)
        requires
            sd > 0,
            md > 0,
    ;
    RationalTime::lemma_ratio(s.numer() * md + m.numer() * sd, sd * md);
    lemma_cmp_scaled(c.numer(), c.denom(), s.numer(), sd, m.numer(), md, l.numer(), l.denom(), w1.numer(), w1.denom(), k);
    let a = (w1.numer() * s.denom() - s.numer() * w1.denom()) * l.denom();
    let b = w1.denom() * s.denom() * l.numer();
    assert(b > 0) by (nonlinear_arith)
        requires
            b == w1.denom() * s.denom() * l.numer(),
            w1.denom() > 0,
            s.denom() > 0,
            l.numer() > 0,
    ;
    assert(k * b < a);
    assert((-a) / b <= -k - 1) by (nonlinear_arith)
        requires
            k * b < a,
            b > 0,
    ;
}

/// Comparing `s + L*k` with `w1` is comparing `k` with `(w1 - s) / L`.
proof fn lemma_cmp_scaled(cn: int, cd: int, sn: int, sd: int, mn: int, md: int, ln: int, ld: int, wn: int, wd: int, k: int)
    requires
        cd > 0,
        sd > 0,
        md > 0,
        ld > 0,
        wd > 0,
        ln > 0,
        cn * (sd * md) == (sn * md + mn * sd) * cd,
        mn * ld == ln * k * md,
    ensures
        (cn * wd < wn * cd) <==> (k * (wd * sd * ln) < (wn * sd - sn * wd) * ld),
{
    let lhs = cn * wd;
    let rhs = wn * cd;
    let f = sd * md * ld;
    assert(f > 0) by (nonlinear_arith)
        requires
            sd > 0,
            md > 0,
            ld > 0,
            f == sd * md * ld,
    ;
    assert((lhs < rhs) <==> (lhs * f < rhs * f)) by (nonlinear_arith)
        requires
            f > 0,
    ;
    let x = (sn * md + mn * sd) * ld * wd;
    let y = wn * sd * md * ld;
    assert(lhs * f == (cn * (sd * md)) * (ld * wd)) by (nonlinear_arith)
        requires
            lhs == cn * wd,
            f == sd * md * ld,
    ;
    assert((cn * (sd * md)) * (ld * wd) == ((sn * md + mn * sd) * cd) * (ld * wd));
    assert(((sn * md + mn * sd) * cd) * (ld * wd) == x * cd) by (nonlinear_arith)
        requires
            x == (sn * md + mn * sd) * ld * wd,
    ;
    assert(rhs * f == y * cd) by (nonlinear_arith)
        requires
            rhs == wn * cd,
            f == sd * md * ld,
            y == wn * sd * md * ld,
    ;
    assert((lhs * f < rhs * f) <==> (x < y)) by (nonlinear_arith)
        requires
            lhs * f == x * cd,
            rhs * f == y * cd,
            cd > 0,
    ;
    let t = mn * ld;
    assert(x == sn * md * ld * wd + t * sd * wd) by (nonlinear_arith)
        requires
            x == (sn * md + mn * sd) * ld * wd,
            t == mn * ld,
    ;
    assert(t * sd * wd == md * (ln * k * sd * wd)) by (nonlinear_arith)
        requires
            t == ln * k * md,
    ;
    assert(sn * md * ld * wd == md * (sn * ld * wd)) by (nonlinear_arith);
    assert(x == md * (sn * ld * wd + ln * k * sd * wd)) by (nonlinear_arith)
        requires
            x == md * (sn * ld * wd) + md * (ln * k * sd * wd),
    ;
    assert(y == md * (wn * sd * ld)) by (nonlinear_arith)
        requires
            y == wn * sd * md * ld,
    ;
    assert((x < y) <==> (sn * ld * wd + ln * k * sd * wd < wn * sd * ld)) by (nonlinear_arith)
        requires
            x == md * (sn * ld * wd + ln * k * sd * wd),
            y == md * (wn * sd * ld),
            md > 0,
    ;
    assert((sn * ld * wd + ln * k * sd * wd < wn * sd * ld) <==> (k * (wd * sd * ln) < (wn * sd - sn * wd) * ld)) by (nonlinear_arith);
}

/// Scan the half-open beat window `[w0, w0 + width)` of a looping timeline
/// (loop length `loop_len`) and return every event that fires in it, in event
/// order, each with its offset from the window start and its grid step.
/// Nothing fires for a non-positive loop or a negative width.
pub fn hits_in_window(
    events: &[NoteEvent],
    loop_len: RationalTime,
    step_beats: RationalTime,
    w0: RationalTime,
    width: RationalTime,
) -> (hits: Vec<WindowHit>)
    requires
        loop_len.numer() > 0 && width.numer() >= 0 ==> {
            &&& RationalTime::add_ok(w0, width)
            &&& forall|i: int| 0 <= i < events@.len() ==> #[trigger] event_scan_ok(events@[i], loop_len, step_beats, w0, RationalTime::add_spec_of(w0, width))
        },
    ensures
        loop_len.numer() <= 0 || width.numer() < 0 ==> hits@.len() == 0,
        loop_len.numer() > 0 && width.numer() >= 0 ==> hits@ == all_hits(events@, events@.len() as int, loop_len, step_beats, w0, RationalTime::add_spec_of(w0, width)),
{
    let mut hits: Vec<WindowHit> = Vec::new();
    if loop_len.is_zero() || loop_len.is_negative() || width.is_negative() {
        return hits;
    }
    let w1 = w0 + width;
    let ghost w1s = RationalTime::add_spec_of(w0, width);
    let mut event_index: usize = 0;
    while event_index < events.len()
        invariant
            event_index <= events@.len(),
            loop_len.numer() > 0,
            w1 == w1s,
            forall|i: int| 0 <= i < events@.len() ==> #[trigger] event_scan_ok(events@[i], loop_len, step_beats, w0, w1s),
            hits@ == all_hits(events@, event_index as int, loop_len, step_beats, w0, w1s),
        decreases events@.len() - event_index,
    {
        let ev = &events[event_index];
        proof {
            assert(event_scan_ok(events@[event_index as int], loop_len, step_beats, w0, w1s));
        }
        let s = ev.start.rem_euclid(loop_len);
        let local_step: usize = if step_beats.is_zero() {
            0
        } else {
            let d = s.div_floor(step_beats);
            if d < 0 {
                0
            } else {
                d as usize
            }
        };
        let mut k = (w0 - s).div_floor(loop_len);
        let ghost k0 = k as int;
        let ghost base = hits@;
        let ghost total = event_hits(
            event_index as int,
            s,
            local_step as int,
            loop_len,
            w0,
            w1s,
            k0,
            if steps_left(s, loop_len, w1s, k0) < 0 {
                0nat
            } else {
                steps_left(s, loop_len, w1s, k0) as nat
            },
        );
        proof {
            assert(local_step == local_of(s, step_beats) as usize);
            use_type_invariant(&s);
            use_type_invariant(&loop_len);
            use_type_invariant(&w1);
            RationalTime::lemma_inv_wf(s);
            RationalTime::lemma_inv_wf(loop_len);
            RationalTime::lemma_inv_wf(w1);
        }
        let mut done = false;
        while !done
            invariant
                k0 <= k,
                loop_len.numer() > 0,
                s.wf(),
                loop_len.wf(),
                w1.wf(),
                w1 == w1s,
                event_scan_ok(events@[event_index as int], loop_len, step_beats, w0, w1s),
                s == wrapped(events@[event_index as int], loop_len),
                k0 == first_k(s, loop_len, w0),
                !done ==> k <= scan_hi(s, loop_len, w1s, k0),
                steps_left(s, loop_len, w1s, k as int) == steps_left(s, loop_len, w1s, k0) - (k - k0),
                !done ==> hits@ + event_hits(event_index as int, s, local_step as int, loop_len, w0, w1s, k as int, if steps_left(s, loop_len, w1s, k as int) < 0 {
                    0nat
                } else {
                    steps_left(s, loop_len, w1s, k as int) as nat
                }) == base + total,
                done ==> hits@ == base + total,
            decreases (if done { 0int } else { 1int }), steps_left(s, loop_len, w1s, k as int) + 1,
        {
            proof {
                assert(RationalTime::mul_int_ok(loop_len, k as int) && RationalTime::add_ok(s, RationalTime::mul_int_spec_of(loop_len, k as int)) && RationalTime::sub_ok(cand_at(s, loop_len, k as int), w0));
            }
            let cand = s + loop_len * k;
            if cand >= w1 {
                proof {
                    let f = if steps_left(s, loop_len, w1s, k as int) < 0 {
                        0nat
                    } else {
                        steps_left(s, loop_len, w1s, k as int) as nat
                    };
                    assert(event_hits(event_index as int, s, local_step as int, loop_len, w0, w1s, k as int, f) =~= Seq::<WindowHit>::empty());
                    assert(hits@ + Seq::<WindowHit>::empty() =~= hits@);
                }
                done = true;
            } else {
                proof {
                    lemma_cand_below(s, loop_len, w1s, k as int);
                }
                let ghost before = hits@;
                if cand >= w0 {
                    hits.push(WindowHit { event_index, local_step, offset: cand - w0 });
                }
                proof {
                    let f = steps_left(s, loop_len, w1s, k as int);
                    assert(f >= 1);
                    let eh = event_hits(event_index as int, s, local_step as int, loop_len, w0, w1s, k as int, f as nat);
                    let rest = event_hits(event_index as int, s, local_step as int, loop_len, w0, w1s, k as int + 1, (f - 1) as nat);
                    assert(steps_left(s, loop_len, w1s, k as int + 1) == f - 1);
                    assert(eh == (if RationalTime::lt_value(cand_at(s, loop_len, k as int), w0) {
                        Seq::empty()
                    } else {
                        seq![WindowHit { event_index: event_index, local_step: local_step, offset: RationalTime::sub_spec_of(cand_at(s, loop_len, k as int), w0) }]
                    }) + rest);
                    assert(hits@ + rest =~= before + eh);
                }
                k = k + 1;
            }
        }
        proof {
            assert(all_hits(events@, event_index as int + 1, loop_len, step_beats, w0, w1s) == base + total);
        }
        event_index = event_index + 1;
    }
    hits
}

/// A hit at `c`, with `w0 <= c < w0 + width`, lies `c - w0` beats into the
/// window: at least 0 and less than `width`.
proof fn lemma_offset_bounds(c: RationalTime, w0: RationalTime, width: RationalTime)
    requires
        c.wf(),
        w0.wf(),
        width.wf(),
        RationalTime::add_ok(w0, width),
        RationalTime::sub_ok(c, w0),
        !RationalTime::lt_value(c, w0),
        RationalTime::lt_value(c, RationalTime::add_spec_of(w0, width)),
    ensures
        RationalTime::sub_spec_of(c, w0).numer() >= 0,
        RationalTime::lt_value(RationalTime::sub_spec_of(c, w0), width),
{
    let (cn, cd, an, ad, wn, wd) = (c.numer(), c.denom(), w0.numer(), w0.denom(), width.numer(), width.denom());
    let o = RationalTime::sub_spec_of(c, w0);
    lemma_sub_denotes(c, w0, cn, cd, an, ad);
    let (on, od) = (cn * ad - an * cd, cd * ad);
    // non-negative: o.n * od == on * o.d with on >= 0
    if o.numer() < 0 {
        lemma_mul_strict_inequality(o.numer(), 0, od);
        lemma_mul_inequality(0, on, o.denom());
        assert(false);
    }
    // below the width
    let w1 = RationalTime::add_spec_of(w0, width);
    lemma_add_denotes(w0, width, an, ad, wn, wd);
    let (pn, pd) = (an * wd + wn * ad, ad * wd);
    lemma_lt_denotes(c, w1, cn, cd, pn, pd);
    lemma_lt_denotes(o, width, on, od, wn, wd);
    lemma_mul_is_distributive_sub_other_way(wd, cn * ad, an * cd);
    lemma_mul_is_distributive_add_other_way(cd, an * wd, wn * ad);
    assert((cn * ad) * wd == cn * (ad * wd)) by (nonlinear_arith);
    assert((an * cd) * wd == (an * wd) * cd) by (nonlinear_arith);
    assert((wn * ad) * cd == wn * (cd * ad)) by (nonlinear_arith);
}

/// Every hit one event yields from loop index `k` on has its offset in
/// `[0, width)`.
proof fn lemma_event_hits_offsets(
    i: int,
    s: RationalTime,
    ls: int,
    l: RationalTime,
    w0: RationalTime,
    width: RationalTime,
    k: int,
    fuel: nat,
)
    requires
        s.wf(),
        w0.wf(),
        width.wf(),
        RationalTime::add_ok(w0, width),
        forall|j: int|
            k <= j < k + fuel ==> #[trigger] RationalTime::mul_int_ok(l, j) && RationalTime::add_ok(
                s,
                RationalTime::mul_int_spec_of(l, j),
            ) && RationalTime::sub_ok(cand_at(s, l, j), w0),
    ensures
        forall|h: int|
            0 <= h < event_hits(i, s, ls, l, w0, RationalTime::add_spec_of(w0, width), k, fuel).len() ==> {
                let o = #[trigger] event_hits(i, s, ls, l, w0, RationalTime::add_spec_of(w0, width), k, fuel)[h].offset;
                o.numer() >= 0 && RationalTime::lt_value(o, width)
            },
    decreases fuel,
{
    let w1 = RationalTime::add_spec_of(w0, width);
    let c = cand_at(s, l, k);
    if fuel == 0 || !RationalTime::lt_value(c, w1) {
    } else {
        assert(RationalTime::mul_int_ok(l, k));
        assert forall|j: int| k + 1 <= j < k + 1 + (fuel - 1) implies #[trigger] RationalTime::mul_int_ok(l, j)
            && RationalTime::add_ok(s, RationalTime::mul_int_spec_of(l, j))
            && RationalTime::sub_ok(cand_at(s, l, j), w0) by {
            assert(k <= j < k + fuel);
        }
        lemma_event_hits_offsets(i, s, ls, l, w0, width, k + 1, (fuel - 1) as nat);
        let head: Seq<WindowHit> = if RationalTime::lt_value(c, w0) {
            Seq::empty()
        } else {
            seq![WindowHit { event_index: i as usize, local_step: ls as usize, offset: RationalTime::sub_spec_of(c, w0) }]
        };
        let tail = event_hits(i, s, ls, l, w0, w1, k + 1, (fuel - 1) as nat);
        assert(event_hits(i, s, ls, l, w0, w1, k, fuel) == head + tail);
        if !RationalTime::lt_value(c, w0) {
            RationalTime::lemma_add_wf(s, RationalTime::mul_int_spec_of(l, k));
            lemma_offset_bounds(c, w0, width);
        }
        assert forall|h: int| 0 <= h < (head + tail).len() implies {
            let o = #[trigger] (head + tail)[h].offset;
            o.numer() >= 0 && RationalTime::lt_value(o, width)
        } by {
            if h >= head.len() {
                assert((head + tail)[h] == tail[h - head.len()]);
            }
        }
    }
}

/// Every hit a window scan reports lies inside the window: its offset from
/// the window start is at least 0 and less than the width.
pub proof fn lemma_hit_offsets_in_window(
    events: Seq<NoteEvent>,
    n: int,
    l: RationalTime,
    step: RationalTime,
    w0: RationalTime,
    width: RationalTime,
)
    requires
        0 <= n <= events.len(),
        l.wf(),
        w0.wf(),
        width.wf(),
        l.numer() > 0,
        forall|i: int| 0 <= i < events.len() ==> (#[trigger] events[i]).start.wf(),
        RationalTime::add_ok(w0, width),
        forall|i: int|
            0 <= i < events.len() ==> #[trigger] event_scan_ok(events[i], l, step, w0, RationalTime::add_spec_of(w0, width)),
    ensures
        forall|h: int|
            0 <= h < all_hits(events, n, l, step, w0, RationalTime::add_spec_of(w0, width)).len() ==> {
                let o = #[trigger] all_hits(events, n, l, step, w0, RationalTime::add_spec_of(w0, width))[h].offset;
                o.numer() >= 0 && RationalTime::lt_value(o, width)
            },
    decreases n,
{
    let w1 = RationalTime::add_spec_of(w0, width);
    if n > 0 {
        lemma_hit_offsets_in_window(events, n - 1, l, step, w0, width);
        let e = events[n - 1];
        assert(event_scan_ok(e, l, step, w0, w1));
        assert(e.start.wf());
        let s = wrapped(e, l);
        RationalTime::lemma_rem_wf(e.start, l);
        let k0 = first_k(s, l, w0);
        let f = steps_left(s, l, w1, k0);
        let fuel: nat = if f < 0 {
            0nat
        } else {
            f as nat
        };
        assert forall|j: int| k0 <= j < k0 + fuel implies #[trigger] RationalTime::mul_int_ok(l, j) && RationalTime::add_ok(
            s,
            RationalTime::mul_int_spec_of(l, j),
        ) && RationalTime::sub_ok(cand_at(s, l, j), w0) by {
            assert(k0 <= j <= scan_hi(s, l, w1, k0));
        }
        let ls = (local_of(s, step) as usize) as int;
        lemma_event_hits_offsets(n - 1, s, ls, l, w0, width, k0, fuel);
        let a = all_hits(events, n - 1, l, step, w0, w1);
        let b = event_hits(n - 1, s, ls, l, w0, w1, k0, fuel);
        assert(all_hits(events, n, l, step, w0, w1) == a + b);
        assert forall|h: int| 0 <= h < (a + b).len() implies {
            let o = #[trigger] (a + b)[h].offset;
            o.numer() >= 0 && RationalTime::lt_value(o, width)
        } by {
            if h >= a.len() {
                assert((a + b)[h] == b[h - a.len()]);
            }
        }
    }
}


// ─── Changing the resolution ────────────────────────────────────────────────

/// `start / step + 1/2`, whose floor is the nearest new step.
pub open spec fn slot_point(start: RationalTime, step: RationalTime) -> RationalTime {
    RationalTime::add_spec_of(RationalTime::div_spec_of(start, step), half())
}

/// The new step nearest an event at `start`, a tie going to the earlier step.
pub open spec fn slot_of(start: RationalTime, step: RationalTime) -> int {
    let t = slot_point(start, step);
    t.floor_spec() - if t.denom() == 1 {
        1int
    } else {
        0
    }
}

/// An event at `start` can sit on new step `j`: its offset from the step is
/// within `±99` percent of a step, so `micro` holds it.
pub open spec fn fits(start: RationalTime, j: int, step: RationalTime) -> bool {
    let p = percent_of(RationalTime::sub_spec_of(start, RationalTime::mul_int_spec_of(step, j)), step);
    -99 <= p <= 99
}

/// Slot `j` exists and has no owner.
pub open spec fn free_slot(owners: Seq<int>, j: int) -> bool {
    0 <= j < owners.len() && owners[j] == -1
}

/// The slot an event at `start` takes given the current owners: its nearest
/// step if free, else the free neighbouring step it fits on, else none (`-1`).
pub open spec fn chosen_slot(owners: Seq<int>, start: RationalTime, step: RationalTime) -> int {
    let j = slot_of(start, step);
    if free_slot(owners, j) {
        j
    } else if free_slot(owners, j - 1) && fits(start, j - 1, step) {
        j - 1
    } else if free_slot(owners, j + 1) && fits(start, j + 1, step) {
        j + 1
    } else {
        -1
    }
}

/// Placing events `0..k` (by their starts) onto `n` new steps, in order, each
/// on its [`chosen_slot`]; an event with no slot is dropped. Returns the slot
/// owners (`-1` = free) and the number dropped.
pub open spec fn place(starts: Seq<RationalTime>, k: int, n: int, step: RationalTime) -> (Seq<int>, int)
    decreases k,
{
    if k <= 0 {
        (Seq::new(n as nat, |j: int| -1int), 0)
    } else {
        let prev = place(starts, k - 1, n, step);
        let c = chosen_slot(prev.0, starts[k - 1], step);
        if c == -1 {
            (prev.0, prev.1 + 1)
        } else {
            (prev.0.update(c, k - 1), prev.1)
        }
    }
}

/// Number of owned slots.
pub open spec fn filled_count(owners: Seq<int>) -> int
    decreases owners.len(),
{
    if owners.len() == 0 {
        0
    } else {
        filled_count(owners.drop_last()) + if owners.last() != -1 {
            1int
        } else {
            0
        }
    }
}

/// The offset of an event at `start` from new step `c`, in percent of a
/// step, stays within `i64`.
pub open spec fn offset_ok(start: RationalTime, c: int, step: RationalTime) -> bool {
    &&& RationalTime::mul_int_ok(step, c)
    &&& RationalTime::sub_ok(start, RationalTime::mul_int_spec_of(step, c))
    &&& percent_ok(RationalTime::sub_spec_of(start, RationalTime::mul_int_spec_of(step, c)), step)
}

/// Whether an event at `start` fits on new step `j`.
fn fits_exec(start: RationalTime, j: i64, step: RationalTime) -> (r: bool)
    requires
        RationalTime::mul_int_ok(step, j as int),
        RationalTime::sub_ok(start, RationalTime::mul_int_spec_of(step, j as int)),
        percent_ok(RationalTime::sub_spec_of(start, RationalTime::mul_int_spec_of(step, j as int)), step),
    ensures
        r == fits(start, j as int, step),
{
    let p = percent(start - step * j, step);
    -99 <= p && p <= 99
}

/// `n` is `src` with `micro` and `gate` replaced.
pub open spec fn carries(n: Note, src: Note, micro: int, gate: int) -> bool {
    n.micro == micro && n.gate == gate && (Note { micro: src.micro, gate: src.gate, ..n }).same_as(src)
}

/// The `micro` an event at `start` gets on new step `j`.
pub open spec fn placed_micro(start: RationalTime, j: int, step: RationalTime) -> int {
    clamp_int(percent_of(RationalTime::sub_spec_of(start, RationalTime::mul_int_spec_of(step, j)), step), -99, 99)
}

/// The `gate` an event of duration `dur` gets at the new step size.
pub open spec fn placed_gate(dur: RationalTime, step: RationalTime) -> int {
    clamp_int(percent_of(dur, step), 1, 65535)
}

impl Pattern {
    /// Starts of the events of the active region.
    pub open spec fn event_starts(self) -> Seq<RationalTime> {
        Seq::new(sounding(self.steps@, self.end_spec()).len(), |k: int| self.start_spec(sounding(self.steps@, self.end_spec())[k]))
    }

    /// Durations of the events of the active region.
    pub open spec fn event_durations(self) -> Seq<RationalTime> {
        Seq::new(sounding(self.steps@, self.end_spec()).len(), |k: int| self.duration_spec(sounding(self.steps@, self.end_spec())[k]))
    }

    /// The musical length in units of `step`: `length_beats / step`.
    pub open spec fn span_in(self, step: RationalTime) -> RationalTime {
        RationalTime::div_spec_of(RationalTime::mul_int_spec_of(self.step_spec(), self.length as int), step)
    }

    /// The step count after switching to a step of `step` beats: the musical
    /// length rounded up to whole steps, clamped to `1..=8192`.
    pub open spec fn new_len_for(self, step: RationalTime) -> int {
        let n = self.span_in(step);
        let l = n.floor_spec() + if n.denom() != 1 {
            1int
        } else {
            0
        };
        clamp_int(l, 1, MAX_STEPS as int)
    }

    /// [`Pattern::set_resolution`] stays within `i64`.
    pub open spec fn set_resolution_ok(self, new_res: Resolution) -> bool {
        let step = RationalTime::ratio(4, new_res.den_spec());
        let n = self.span_in(step);
        new_res.den_spec() != self.resolution.den_spec() ==> {
            &&& self.events_ok()
            &&& in_i64_index(self.length as int)
            &&& RationalTime::mul_int_ok(self.step_spec(), self.length as int)
            &&& RationalTime::div_ok(RationalTime::mul_int_spec_of(self.step_spec(), self.length as int), step)
            &&& n.floor_ok()
            &&& (n.denom() != 1 ==> n.floor_spec() < i64::MAX)
            &&& forall|k: int|
                0 <= k < self.event_starts().len() ==> #[trigger] self.event_place_ok(k, step)
        }
    }

    /// Placing event `k` at the new step size stays within `i64`.
    pub open spec fn event_place_ok(self, k: int, step: RationalTime) -> bool {
        let st = self.event_starts()[k];
        let q = RationalTime::div_spec_of(st, step);
        let j = slot_of(st, step);
        let n = self.new_len_for(step);
        &&& RationalTime::div_ok(st, step)
        &&& RationalTime::add_ok(q, half())
        &&& slot_point(st, step).floor_ok()
        &&& slot_point(st, step).floor_spec() > i64::MIN
        &&& percent_ok(self.event_durations()[k], step)
        &&& forall|c: int| j - 1 <= c <= j + 1 && 0 <= c < n ==> #[trigger] offset_ok(st, c, step)
    }

    /// Change the resolution, rebuilding the grid from the exact events at the
    /// new step size: the step count covers the same musical length (rounded up,
    /// clamped to `1..=8192`); each event, in order, goes to its nearest new step
    /// (a tie to the earlier one) or, when that is taken or out of range, to a
    /// free neighbouring step it fits on, with the residual in `micro` and its
    /// duration in `gate`. Returns how many events found no step; placed events
    /// and dropped ones together are all the events. A resolution with the same
    /// denominator only replaces the resolution.
    pub fn set_resolution(&mut self, new_res: Resolution) -> (dropped: usize)
        requires
            old(self).set_resolution_ok(new_res),
        ensures
            final(self).resolution == new_res,
            new_res.den_spec() == old(self).resolution.den_spec() ==> dropped == 0 && final(self).steps@
                == old(self).steps@ && final(self).length == old(self).length,
            new_res.den_spec() != old(self).resolution.den_spec() ==> {
                let step = RationalTime::ratio(4, new_res.den_spec());
                let n = old(self).new_len_for(step);
                let pl = place(old(self).event_starts(), old(self).event_starts().len() as int, n, step);
                &&& final(self).length == n
                &&& final(self).steps@.len() == n
                &&& dropped == pl.1
                &&& filled_count(pl.0) + dropped == old(self).event_starts().len()
                &&& forall|j: int|
                    0 <= j < n ==> if pl.0[j] == -1 {
                        is_blank(#[trigger] final(self).steps@[j])
                    } else {
                        carries(
                            final(self).steps@[j],
                            old(self).steps@[sounding(old(self).steps@, old(self).end_spec())[pl.0[j]]],
                            placed_micro(old(self).event_starts()[pl.0[j]], j, step),
                            placed_gate(old(self).event_durations()[pl.0[j]], step),
                        )
                    }
            },
    {
        if new_res.den() == self.resolution.den() {
            self.resolution = new_res;
            return 0;
        }
        let ghost old_self = *self;
        let events = self.to_events();
        let ghost sidx = sounding(old_self.steps@, old_self.end_spec());
        proof {
            assert forall|k: int| 0 <= k < events@.len() implies events@[k].start == old_self.event_starts()[k]
                && events@[k].duration == old_self.event_durations()[k] && is_payload_of(events@[k].note, old_self.steps@[sidx[k]]) by {
                assert(events@[k].start == old_self.start_spec(sidx[k]));
            }
        }
        let total = self.length_beats();
        let new_step = new_res.step_beats();
        let n = total / new_step;
        let fl = n.floor();
        let nl: i64 = if n.den() != 1 {
            fl + 1
        } else {
            fl
        };
        let new_len: usize = if nl < 1 {
            1
        } else if nl > MAX_STEPS as i64 {
            MAX_STEPS
        } else {
            nl as usize
        };
        proof {
            assert(new_len == old_self.new_len_for(new_step));
        }
        let mut steps = blank_steps(new_len);
        let mut dropped: usize = 0;
        let mut k: usize = 0;
        while k < events.len()
            invariant
                k <= events@.len(),
                events@.len() == old_self.event_starts().len(),
                new_step == RationalTime::ratio(4, new_res.den_spec()),
                new_len == old_self.new_len_for(new_step),
                old_self.set_resolution_ok(new_res),
                new_res.den_spec() != old_self.resolution.den_spec(),
                forall|kk: int| 0 <= kk < events@.len() ==> events@[kk].start == old_self.event_starts()[kk]
                    && events@[kk].duration == old_self.event_durations()[kk] && is_payload_of(events@[kk].note, old_self.steps@[sidx[kk]]),
                sidx == sounding(old_self.steps@, old_self.end_spec()),
                steps@.len() == new_len,
                dropped == place(old_self.event_starts(), k as int, new_len as int, new_step).1,
                dropped <= k,
                forall|j: int|
                    #![trigger steps@[j]]
                    0 <= j < new_len ==> {
                        let o = place(old_self.event_starts(), k as int, new_len as int, new_step).0[j];
                        if o == -1 {
                            is_blank(steps@[j])
                        } else {
                            0 <= o < k && !is_rest(steps@[j].note@) && carries(
                                steps@[j],
                                old_self.steps@[sidx[o]],
                                placed_micro(old_self.event_starts()[o], j, new_step),
                                placed_gate(old_self.event_durations()[o], new_step),
                            )
                        }
                    },
            decreases events@.len() - k,
        {
            let ev = &events[k];
            let ghost starts = old_self.event_starts();
            let ghost prev = place(starts, k as int, new_len as int, new_step);
            proof {
                assert(old_self.event_place_ok(k as int, new_step));
                lemma_place_len(starts, k as int, new_len as int, new_step);
                assert forall|x: int| 0 <= x < new_len implies (prev.0[x] == -1) == is_blank(#[trigger] steps@[x]) by {
                    if prev.0[x] != -1 {
                        assert(!is_rest(steps@[x].note@));
                    }
                }
            }
            let q = ev.start / new_step;
            let t = q + RationalTime::new(1, 2);
            let fl = t.floor();
            let j: i64 = if t.den() == 1 {
                fl - 1
            } else {
                fl
            };
            proof {
                assert(j == slot_of(starts[k as int], new_step));
                if 0 <= j - 1 < new_len {
                    assert(offset_ok(starts[k as int], j - 1, new_step));
                }
                if 0 <= j + 1 < new_len {
                    assert(offset_ok(starts[k as int], j + 1, new_step));
                }
                if 0 <= j < new_len {
                    assert(offset_ok(starts[k as int], j as int, new_step));
                }
            }
            let nl = new_len as i64;
            let mut c: i64 = -1;
            if j >= 0 && j < nl && steps[j as usize].is_empty() {
                c = j;
            } else if j >= 1 && j - 1 < nl && steps[(j - 1) as usize].is_empty() && fits_exec(ev.start, j - 1, new_step) {
                c = j - 1;
            } else if j >= -1 && j < nl - 1 && steps[(j + 1) as usize].is_empty() && fits_exec(ev.start, j + 1, new_step) {
                c = j + 1;
            }
            proof {
                assert(c == chosen_slot(prev.0, starts[k as int], new_step));
                assert(place(starts, k as int + 1, new_len as int, new_step) == if c == -1 {
                    (prev.0, prev.1 + 1)
                } else {
                    (prev.0.update(c as int, k as int), prev.1)
                });
                lemma_place_len(starts, k as int + 1, new_len as int, new_step);
            }
            if c < 0 {
                dropped = dropped + 1;
            } else {
                let ju = c as usize;
                let base = new_step * c;
                let pm = percent(ev.start - base, new_step);
                let micro: i8 = if pm < -99 {
                    -99
                } else if pm > 99 {
                    99
                } else {
                    pm as i8
                };
                let pg = percent(ev.duration, new_step);
                let gate: u16 = if pg < 1 {
                    1
                } else if pg > 65535 {
                    65535
                } else {
                    pg as u16
                };
                let mut note = ev.note.clone();
                note.micro = micro;
                note.gate = gate;
                proof {
                    assert(!is_rest(old_self.steps@[sidx[k as int]].note@)) by {
                        lemma_sounding_member(old_self.steps@, old_self.end_spec(), k as int);
                    }
                }
                steps.set(ju, note);
            }
            k = k + 1;
        }
        proof {
            lemma_place_keeps_every_event(old_self.event_starts(), k as int, new_len as int, new_step);
        }
        self.steps = steps;
        self.length = new_len;
        self.resolution = new_res;
        dropped
    }
}

/// An event lying exactly on new step `m` (`start / step == m`) has `m` as
/// its nearest new step.
pub proof fn lemma_on_grid_slot(start: RationalTime, step: RationalTime, m: int)
    requires
        RationalTime::div_spec_of(start, step).numer() == m,
        RationalTime::div_spec_of(start, step).denom() == 1,
        RationalTime::add_ok(RationalTime::div_spec_of(start, step), half()),
    ensures
        slot_of(start, step) == m,
{
    let q = RationalTime::div_spec_of(start, step);
    RationalTime::lemma_ratio(1, 2);
    let h = half();
    assert(h.denom() == 2 && h.numer() == 1) by {
        if h.denom() == 1 {
            assert(h.numer() * 2 == 1);
        }
    }
    let t = slot_point(start, step);
    assert(t == RationalTime::ratio(m * 2 + 1, 2));
    RationalTime::lemma_ratio(m * 2 + 1, 2);
    assert(t.numer() * 2 == (m * 2 + 1) * t.denom());
    assert(t.denom() == 2) by {
        if t.denom() == 1 {
            assert(t.numer() * 2 == m * 2 + 1);
        }
    }
    assert(t.numer() == 2 * m + 1);
    assert(t.floor_spec() == m);
}

/// Events `0..k` each have their own nearest new step within `0..n`.
pub open spec fn own_slots(starts: Seq<RationalTime>, k: int, n: int, step: RationalTime) -> bool {
    &&& forall|e: int| 0 <= e < k ==> 0 <= #[trigger] slot_of(starts[e], step) < n
    &&& forall|e: int, f: int|
        0 <= e < f < k ==> #[trigger] slot_of(starts[e], step) != #[trigger] slot_of(starts[f], step)
}

/// When every event has its own nearest new step in range (as on a new grid
/// that every event lies on), nothing is dropped and each event sits on its
/// nearest step.
pub proof fn lemma_own_slots_lose_nothing(starts: Seq<RationalTime>, k: int, n: int, step: RationalTime)
    requires
        0 <= k <= starts.len(),
        n >= 0,
        own_slots(starts, k, n, step),
    ensures
        place(starts, k, n, step).1 == 0,
        forall|e: int| 0 <= e < k ==> place(starts, k, n, step).0[#[trigger] slot_of(starts[e], step)] == e,
        forall|j: int|
            0 <= j < n && #[trigger] place(starts, k, n, step).0[j] != -1 ==> slot_of(
                starts[place(starts, k, n, step).0[j]],
                step,
            ) == j,
    decreases k,
{
    lemma_place_len(starts, k, n, step);
    if k > 0 {
        assert(own_slots(starts, k - 1, n, step));
        lemma_own_slots_lose_nothing(starts, k - 1, n, step);
        lemma_place_len(starts, k - 1, n, step);
        let prev = place(starts, k - 1, n, step);
        let j = slot_of(starts[k - 1], step);
        assert(0 <= j < n);
        assert(prev.0[j] == -1) by {
            if prev.0[j] != -1 {
                let o = prev.0[j];
                assert(0 <= o < k - 1);
                assert(slot_of(starts[o], step) == j);
                assert(slot_of(starts[o], step) != slot_of(starts[k - 1], step));
            }
        }
        assert(chosen_slot(prev.0, starts[k - 1], step) == j);
        assert(place(starts, k, n, step) == (prev.0.update(j, k - 1), prev.1));
    }
}

/// Events at `starts` all lie exactly on steps of the new grid (`start /
/// step` is a whole number), inside `0..n`, no two on the same step.
pub open spec fn on_distinct_grid_steps(starts: Seq<RationalTime>, n: int, step: RationalTime) -> bool {
    &&& forall|e: int|
        0 <= e < starts.len() ==> {
            let q = #[trigger] RationalTime::div_spec_of(starts[e], step);
            &&& q.denom() == 1
            &&& 0 <= q.numer() < n
            &&& RationalTime::add_ok(q, half())
        }
    &&& forall|e: int, f: int|
        0 <= e < f < starts.len() ==> (#[trigger] RationalTime::div_spec_of(starts[e], step)).numer()
            != (#[trigger] RationalTime::div_spec_of(starts[f], step)).numer()
}

/// A resolution change onto a grid every note lies on, at distinct steps,
/// loses nothing: no event is dropped and each lands exactly on its step.
pub proof fn lemma_commensurate_change_loses_nothing(starts: Seq<RationalTime>, n: int, step: RationalTime)
    requires
        n >= 0,
        on_distinct_grid_steps(starts, n, step),
    ensures
        place(starts, starts.len() as int, n, step).1 == 0,
        forall|e: int|
            0 <= e < starts.len() ==> place(starts, starts.len() as int, n, step).0[RationalTime::div_spec_of(
                #[trigger] starts[e],
                step,
            ).numer() as int] == e,
{
    assert forall|e: int| 0 <= e < starts.len() implies #[trigger] slot_of(starts[e], step) == RationalTime::div_spec_of(
        starts[e],
        step,
    ).numer() by {
        let q = RationalTime::div_spec_of(starts[e], step);
        lemma_on_grid_slot(starts[e], step, q.numer() as int);
    }
    assert(own_slots(starts, starts.len() as int, n, step)) by {
        assert forall|e: int, f: int| 0 <= e < f < starts.len() implies #[trigger] slot_of(starts[e], step)
            != #[trigger] slot_of(starts[f], step) by {
            assert(RationalTime::div_spec_of(starts[e], step).numer() != RationalTime::div_spec_of(starts[f], step).numer());
        }
    }
    lemma_own_slots_lose_nothing(starts, starts.len() as int, n, step);
    assert forall|e: int| 0 <= e < starts.len() implies place(starts, starts.len() as int, n, step).0[RationalTime::div_spec_of(
        #[trigger] starts[e],
        step,
    ).numer() as int] == e by {
        assert(slot_of(starts[e], step) == RationalTime::div_spec_of(starts[e], step).numer());
    }
}

/// Placing `k` events leaves each one either on a slot or counted as
/// dropped: the owned slots and the dropped count add up to `k`.
pub proof fn lemma_place_keeps_every_event(starts: Seq<RationalTime>, k: int, n: int, step: RationalTime)
    requires
        n >= 0,
        k >= 0,
    ensures
        filled_count(place(starts, k, n, step).0) + place(starts, k, n, step).1 == k,
    decreases k,
{
    if k > 0 {
        lemma_place_len(starts, k - 1, n, step);
        lemma_place_keeps_every_event(starts, k - 1, n, step);
        let prev = place(starts, k - 1, n, step);
        let c = chosen_slot(prev.0, starts[k - 1], step);
        if c != -1 {
            lemma_filled_count_update(prev.0, c, k - 1);
        }
    } else {
        lemma_filled_count_free(n);
    }
}

proof fn lemma_filled_count_free(n: int)
    requires
        n >= 0,
    ensures
        filled_count(Seq::new(n as nat, |j: int| -1int)) == 0,
    decreases n,
{
    if n > 0 {
        assert(Seq::new(n as nat, |j: int| -1int).drop_last() =~= Seq::new((n - 1) as nat, |j: int| -1int));
        lemma_filled_count_free(n - 1);
    }
}

proof fn lemma_filled_count_update(s: Seq<int>, c: int, v: int)
    requires
        0 <= c < s.len(),
        s[c] == -1,
        v != -1,
    ensures
        filled_count(s.update(c, v)) == filled_count(s) + 1,
    decreases s.len(),
{
    let u = s.update(c, v);
    if c == s.len() - 1 {
        assert(u.drop_last() =~= s.drop_last());
    } else {
        assert(u.drop_last() =~= s.drop_last().update(c, v));
        lemma_filled_count_update(s.drop_last(), c, v);
    }
}

proof fn lemma_place_len(starts: Seq<RationalTime>, k: int, n: int, step: RationalTime)
    requires
        n >= 0,
        k >= 0,
    ensures
        place(starts, k, n, step).0.len() == n,
        place(starts, k, n, step).1 <= if k < 0 {
            0
        } else {
            k
        },
        forall|j: int| 0 <= j < n ==> -1 <= #[trigger] place(starts, k, n, step).0[j] < k,
    decreases k,
{
    if k > 0 {
        lemma_place_len(starts, k - 1, n, step);
        let prev = place(starts, k - 1, n, step);
        let c = chosen_slot(prev.0, starts[k - 1], step);
        if c == -1 {
            assert(place(starts, k, n, step) == (prev.0, prev.1 + 1));
        } else {
            assert(place(starts, k, n, step) == (prev.0.update(c, k - 1), prev.1));
        }
    } else {
        assert(place(starts, k, n, step).0 =~= Seq::new(n as nat, |j: int| -1int));
    }
}

/// Every index `sounding` lists is in range and sounds.
pub proof fn lemma_sounding_member(steps: Seq<Note>, end: int, k: int)
    requires
        0 <= k < sounding(steps, end).len(),
        end <= steps.len(),
    ensures
        0 <= sounding(steps, end)[k] < end,
        !is_rest(steps[sounding(steps, end)[k]].note@),
    decreases end,
{
    if end > 0 {
        let prev = sounding(steps, end - 1);
        lemma_sounding_len(steps, end - 1);
        if k < prev.len() {
            lemma_sounding_member(steps, end - 1, k);
        }
    }
}

proof fn lemma_sounding_len(steps: Seq<Note>, end: int)
    ensures
        sounding(steps, end).len() <= if end < 0 {
            0
        } else {
            end
        },
    decreases end,
{
    if end > 0 {
        lemma_sounding_len(steps, end - 1);
    }
}

// ─── Beat groupings ─────────────────────────────────────────────────────────

/// All ordered compositions of `r` into parts of 2 and 3, in lexicographic order.
pub open spec fn compositions(r: int) -> Seq<Seq<u8>>
    decreases r,
{
    if r <= 0 {
        if r == 0 {
            seq![Seq::empty()]
        } else {
            Seq::empty()
        }
    } else {
        (if r >= 2 {
            compositions(r - 2).map_values(|c: Seq<u8>| seq![2u8] + c)
        } else {
            Seq::empty()
        }) + (if r >= 3 {
            compositions(r - 3).map_values(|c: Seq<u8>| seq![3u8] + c)
        } else {
            Seq::empty()
        })
    }
}

/// The views of a vector of vectors.
pub open spec fn views(v: Seq<Vec<u8>>) -> Seq<Seq<u8>> {
    v.map_values(|g: Vec<u8>| g@)
}

fn prefixed(p: u8, rest: &Vec<Vec<u8>>, out: &mut Vec<Vec<u8>>)
    ensures
        views(final(out)@) == views(old(out)@) + views(rest@).map_values(|c: Seq<u8>| seq![p] + c),
{
    let mut i: usize = 0;
    while i < rest.len()
        invariant
            i <= rest@.len(),
            views(out@) == views(old(out)@) + views(rest@).take(i as int).map_values(|c: Seq<u8>| seq![p] + c),
        decreases rest@.len() - i,
    {
        let mut c: Vec<u8> = Vec::new();
        c.push(p);
        let src = &rest[i];
        let mut j: usize = 0;
        while j < src.len()
            invariant
                j <= src@.len(),
                c@ == seq![p] + src@.take(j as int),
            decreases src@.len() - j,
        {
            c.push(src[j]);
            proof {
                assert(src@.take(j as int + 1) =~= src@.take(j as int).push(src@[j as int]));
            }
            j = j + 1;
        }
        proof {
            assert(src@.take(src@.len() as int) =~= src@);
        }
        let ghost before = out@;
        out.push(c);
        proof {
            assert(views(rest@).take(i as int + 1) =~= views(rest@).take(i as int).push(rest@[i as int]@));
            assert(views(out@) =~= views(before).push(c@));
            assert(views(out@) =~= views(old(out)@) + views(rest@).take(i as int + 1).map_values(|c: Seq<u8>| seq![p] + c));
        }
        i = i + 1;
    }
    proof {
        assert(views(rest@).take(rest@.len() as int) =~= views(rest@));
    }
}

fn compose(r: u8) -> (out: Vec<Vec<u8>>)
    requires
        r <= 16,
    ensures
        views(out@) == compositions(r as int),
    decreases r,
{
    if r == 0 {
        let mut out: Vec<Vec<u8>> = Vec::new();
        out.push(Vec::new());
        proof {
            assert(views(out@) =~= seq![Seq::<u8>::empty()]);
        }
        return out;
    }
    let mut out: Vec<Vec<u8>> = Vec::new();
    if r >= 2 {
        let rest = compose(r - 2);
        prefixed(2, &rest, &mut out);
    }
    let ghost mid = views(out@);
    proof {
        assert(mid =~= (if r >= 2 {
            compositions(r - 2).map_values(|c: Seq<u8>| seq![2u8] + c)
        } else {
            Seq::empty()
        }));
    }
    if r >= 3 {
        let rest = compose(r - 3);
        prefixed(3, &rest, &mut out);
    }
    proof {
        assert(views(out@) =~= compositions(r as int));
    }
    out
}

/// The groupings offered for `n` beats (`n` at least 1): `[n]` itself, then
/// every ordered composition of `n` into 2s and 3s other than `[n]`, in
/// lexicographic order; only `[n]` for `n > 16`.
pub open spec fn groupings_spec(n: u8) -> Seq<Seq<u8>> {
    let m: u8 = if n < 1 {
        1
    } else {
        n
    };
    if m > 16 {
        seq![seq![m]]
    } else {
        seq![seq![m]] + compositions(m as int).filter(|c: Seq<u8>| c != seq![m])
    }
}

/// All ordered compositions of `n` into parts of 2 and 3, plus the trivial `[n]`.
pub fn musical_groupings(n: u8) -> (r: Vec<Vec<u8>>)
    ensures
        views(r@) == groupings_spec(n),
{
    let m: u8 = if n < 1 {
        1
    } else {
        n
    };
    let mut result: Vec<Vec<u8>> = Vec::new();
    let mut single: Vec<u8> = Vec::new();
    single.push(m);
    result.push(single);
    proof {
        assert(views(result@) =~= seq![seq![m]]);
    }
    if m > 16 {
        return result;
    }
    let comps = compose(m);
    let ghost cs = views(comps@);
    let mut i: usize = 0;
    while i < comps.len()
        invariant
            i <= comps@.len(),
            cs == views(comps@),
            cs == compositions(m as int),
            views(result@) == seq![seq![m]] + cs.take(i as int).filter(|c: Seq<u8>| c != seq![m]),
        decreases comps@.len() - i,
    {
        let g = &comps[i];
        let is_single = g.len() == 1 && g[0] == m;
        proof {
            assert(is_single <==> (g@ == seq![m])) by {
                if g@ == seq![m] {
                    assert(g@.len() == 1 && g@[0] == m);
                }
                if is_single {
                    assert(g@ =~= seq![m]);
                }
            }
            assert(cs.take(i as int + 1) =~= cs.take(i as int).push(g@));
            assert(cs.take(i as int + 1).filter(|c: Seq<u8>| c != seq![m]) == cs.take(i as int).filter(|c: Seq<u8>| c != seq![m]) + if g@ != seq![m] {
                seq![g@]
            } else {
                Seq::empty()
            }) by {
                reveal(Seq::filter);
                assert(cs.take(i as int + 1).drop_last() =~= cs.take(i as int));
                assert(cs.take(i as int + 1).last() == g@);
            }
        }
        if !is_single {
            let mut copy: Vec<u8> = Vec::new();
            let mut j: usize = 0;
            while j < g.len()
                invariant
                    j <= g@.len(),
                    copy@ == g@.take(j as int),
                decreases g@.len() - j,
            {
                copy.push(g[j]);
                proof {
                    assert(g@.take(j as int + 1) =~= g@.take(j as int).push(g@[j as int]));
                }
                j = j + 1;
            }
            proof {
                assert(g@.take(g@.len() as int) =~= g@);
            }
            let ghost before = views(result@);
            result.push(copy);
            proof {
                assert(views(result@) =~= before.push(g@));
            }
        } else {
            proof {
                assert(views(result@) =~= seq![seq![m]] + cs.take(i as int + 1).filter(|c: Seq<u8>| c != seq![m]));
            }
        }
        i = i + 1;
    }
    proof {
        assert(cs.take(cs.len() as int) =~= cs);
    }
    result
}

} // verus!
