//! Shared rational-time editing state and snap engine.
//!
//! [`EditState`] holds the current edit resolution, an optional [`Tuplet`],
//! the [`SnapMode`] and free-time mode. Snapping is exact rational rounding,
//! so odd resolutions and tuplets snap without drift.

use crate::note::decimal;
use crate::rational::{in_i64, new_ok, round_quot, RationalTime, Resolution, Tuplet};
use crate::text::{append_decimal, append_signed, signed_decimal};
use vstd::prelude::*;
use vstd::string::*;

verus! {

/// How positions and durations are snapped while editing.
#[derive(Debug, Clone, Copy, PartialEq, Eq, Structural)]
pub enum SnapMode {
    /// Snap to the current edit resolution (under the active tuplet, if any).
    Grid,
    /// Snap to the nearest half of the current grid cell.
    Fine,
    /// No snapping: placement is at the exact rational time.
    Off,
}

impl SnapMode {
    pub open spec fn label_spec(self) -> Seq<char> {
        match self {
            SnapMode::Grid => "grid"@,
            SnapMode::Fine => "fine"@,
            SnapMode::Off => "off"@,
        }
    }

    pub fn label(self) -> (r: &'static str)
        ensures
            r@ == self.label_spec(),
    {
        match self {
            SnapMode::Grid => "grid",
            SnapMode::Fine => "fine",
            SnapMode::Off => "off",
        }
    }

    /// Cycle Grid, Fine, Off, Grid.
    pub fn next(self) -> (r: SnapMode)
        ensures
            r == (match self {
                SnapMode::Grid => SnapMode::Fine,
                SnapMode::Fine => SnapMode::Off,
                SnapMode::Off => SnapMode::Grid,
            }),
    {
        match self {
            SnapMode::Grid => SnapMode::Fine,
            SnapMode::Fine => SnapMode::Off,
            SnapMode::Off => SnapMode::Grid,
        }
    }
}

impl Default for SnapMode {
    fn default() -> (r: SnapMode)
        ensures
            r == SnapMode::Grid,
    {
        SnapMode::Grid
    }
}

/// Common edit-resolution denominators offered when cycling, including
/// non-powers-of-two for triplet, quintuplet and septuplet grids.
pub const RESOLUTION_LADDER: [i64; 12] = [1, 2, 4, 8, 16, 32, 64, 3, 6, 12, 24, 48];

/// [`RESOLUTION_LADDER`] as a sequence.
pub open spec fn ladder() -> Seq<i64> {
    seq![1i64, 2, 4, 8, 16, 32, 64, 3, 6, 12, 24, 48]
}

/// Position of `d` on the ladder, or 4 (the 1/16 rung) when absent.
pub open spec fn ladder_index(d: int) -> int {
    if exists|i: int| 0 <= i < 12 && ladder()[i] == d {
        choose|i: int| 0 <= i < 12 && ladder()[i] == d
    } else {
        4
    }
}

/// `v` clamped into `[lo, hi]`.
pub open spec fn clamp(v: int, lo: int, hi: int) -> int {
    if v < lo {
        lo
    } else if v > hi {
        hi
    } else {
        v
    }
}

/// The shared editing state for all rational-time editors.
#[derive(Debug, Clone, Copy, PartialEq, Eq, Structural)]
pub struct EditState {
    /// The grid one step/cell represents while editing.
    pub resolution: Resolution,
    /// Active tuplet applied to the grid (`None` = straight).
    pub tuplet: Option<Tuplet>,
    /// How positions snap.
    pub snap: SnapMode,
    /// When true, all snapping is bypassed.
    pub free_time: bool,
}

impl Default for EditState {
    fn default() -> (r: EditState)
        ensures
            r == (EditState {
                resolution: Resolution::Whole(16),
                tuplet: None,
                snap: SnapMode::Grid,
                free_time: false,
            }),
    {
        EditState {
            resolution: Resolution::default_edit(),
            tuplet: None,
            snap: SnapMode::Grid,
            free_time: false,
        }
    }
}

impl EditState {
    /// The beat span of one grid cell: the resolution's step, scaled by the tuplet.
    pub open spec fn grid_spec(self) -> RationalTime {
        let base = RationalTime::ratio(4, self.resolution.den_spec());
        match self.tuplet {
            Some(t) => RationalTime::mul_spec_of(base, RationalTime::ratio(t.den as int, t.num as int)),
            None => base,
        }
    }

    /// The grid cell stays within `i64`.
    pub open spec fn grid_ok(self) -> bool {
        match self.tuplet {
            Some(t) => new_ok(t.den as int, t.num as int) && RationalTime::mul_ok(
                RationalTime::ratio(4, self.resolution.den_spec()),
                RationalTime::ratio(t.den as int, t.num as int),
            ),
            None => true,
        }
    }

    /// The snap unit: none in free time or with snapping off, the grid cell
    /// for `Grid`, half of it for `Fine`.
    pub open spec fn snap_unit_spec(self) -> Option<RationalTime> {
        if self.free_time {
            None
        } else {
            match self.snap {
                SnapMode::Off => None,
                SnapMode::Grid => Some(self.grid_spec()),
                SnapMode::Fine => Some(RationalTime::div_int_spec_of(self.grid_spec(), 2)),
            }
        }
    }

    /// The snap unit stays within `i64`.
    pub open spec fn snap_unit_ok(self) -> bool {
        self.grid_ok() && (!self.free_time && self.snap == SnapMode::Fine
            ==> RationalTime::div_int_ok(self.grid_spec(), 2))
    }

    /// The beat span of one grid cell at the current resolution and tuplet.
    pub fn grid_beats(&self) -> (r: RationalTime)
        requires
            self.grid_ok(),
        ensures
            r == self.grid_spec(),
    {
        let base = self.resolution.step_beats();
        match self.tuplet {
            Some(t) => base * t.scale(),
            None => base,
        }
    }

    /// The effective snap unit in beats; `None` when no snapping applies.
    pub fn snap_unit(&self) -> (r: Option<RationalTime>)
        requires
            self.snap_unit_ok(),
        ensures
            r == self.snap_unit_spec(),
    {
        if self.free_time {
            return None;
        }
        match self.snap {
            SnapMode::Off => None,
            SnapMode::Grid => Some(self.grid_beats()),
            SnapMode::Fine => Some(self.grid_beats() / 2),
        }
    }

    /// Where [`EditState::snap_pos`] puts `t`: the nearest multiple of a positive
    /// snap unit (halves up); `t` itself without snapping or with a zero unit.
    pub open spec fn snap_pos_spec(self, t: RationalTime) -> RationalTime {
        match self.snap_unit_spec() {
            Some(u) => if u.numer() == 0 {
                t
            } else {
                RationalTime::mul_int_spec_of(u, round_quot(t, u))
            },
            None => t,
        }
    }

    /// Inputs on which snapping `t` stays within `i64`.
    pub open spec fn snap_pos_ok(self, t: RationalTime) -> bool {
        &&& self.snap_unit_ok()
        &&& match self.snap_unit_spec() {
            Some(u) => u.numer() != 0 ==> (u.numer() > 0 && in_i64(round_quot(t, u))
                && RationalTime::mul_int_ok(u, round_quot(t, u))),
            None => true,
        }
    }

    /// Snap an absolute position (beats) to the active grid: exact rounding to
    /// the nearest grid line. Unchanged in free time or with snapping off.
    pub fn snap_pos(&self, t: RationalTime) -> (r: RationalTime)
        requires
            self.snap_pos_ok(t),
        ensures
            r == self.snap_pos_spec(t),
    {
        match self.snap_unit() {
            None => t,
            Some(unit) => {
                if unit.is_zero() {
                    t
                } else {
                    let n = t.round_div(unit);
                    unit * (n as i64)
                }
            },
        }
    }

    /// Where [`EditState::snap_duration`] puts `d`: rounded to a whole number
    /// of snap units, but at least one unit.
    pub open spec fn snap_duration_spec(self, d: RationalTime) -> RationalTime {
        match self.snap_unit_spec() {
            Some(u) => if u.numer() == 0 {
                d
            } else {
                RationalTime::mul_int_spec_of(u, if round_quot(d, u) < 1 {
                    1
                } else {
                    round_quot(d, u)
                })
            },
            None => d,
        }
    }

    /// Inputs on which snapping the duration `d` stays within `i64`.
    pub open spec fn snap_duration_ok(self, d: RationalTime) -> bool {
        &&& self.snap_unit_ok()
        &&& match self.snap_unit_spec() {
            Some(u) => u.numer() != 0 ==> (u.numer() > 0 && in_i64(round_quot(d, u))
                && RationalTime::mul_int_ok(
                u,
                if round_quot(d, u) < 1 {
                    1
                } else {
                    round_quot(d, u)
                },
            )),
            None => true,
        }
    }

    /// Snap a duration to a whole number of snap units, never to zero length.
    pub fn snap_duration(&self, d: RationalTime) -> (r: RationalTime)
        requires
            self.snap_duration_ok(d),
        ensures
            r == self.snap_duration_spec(d),
    {
        match self.snap_unit() {
            None => d,
            Some(unit) => {
                if unit.is_zero() {
                    d
                } else {
                    let mut n = d.round_div(unit);
                    if n < 1 {
                        n = 1;
                    }
                    unit * (n as i64)
                }
            },
        }
    }

    /// Step the resolution along [`RESOLUTION_LADDER`]: `dir > 0` moves towards
    /// the end of the ladder, `dir < 0` towards its start; saturates at the ends.
    /// A resolution that is not on the ladder counts as the 1/16 rung.
    pub fn cycle_resolution(&mut self, dir: i32)
        ensures
            final(self).resolution == Resolution::Whole(
                ladder()[clamp(ladder_index(old(self).resolution.den_spec()) + dir, 0, 11)],
            ),
            final(self).tuplet == old(self).tuplet,
            final(self).snap == old(self).snap,
            final(self).free_time == old(self).free_time,
    {
        let cur = self.resolution.den();
        let mut idx: usize = 0;
        let mut found = false;
        proof {
            assert(RESOLUTION_LADDER@ =~= ladder());
        }
        while idx < 12
            invariant_except_break
                !found,
                forall|j: int| 0 <= j < idx ==> ladder()[j] != cur,
            invariant
                idx <= 12,
                RESOLUTION_LADDER@ == ladder(),
            ensures
                found ==> idx < 12 && ladder()[idx as int] == cur,
                !found ==> idx == 12 && forall|j: int| 0 <= j < 12 ==> ladder()[j] != cur,
            decreases 12 - idx,
        {
            if RESOLUTION_LADDER[idx] == cur {
                found = true;
                break;
            }
            idx = idx + 1;
        }
        let pos: i64 = if found {
            idx as i64
        } else {
            4
        };
        proof {
            if found {
                assert(ladder()[idx as int] == cur);
                assert(forall|i: int, j: int|
                    0 <= i < 12 && 0 <= j < 12 && ladder()[i] == ladder()[j] ==> i == j);
            } else {
                assert(!exists|i: int| 0 <= i < 12 && ladder()[i] == cur);
            }
            assert(pos == ladder_index(cur as int));
        }
        let next: i64 = pos + dir as i64;
        let next: i64 = if next < 0 {
            0
        } else if next > 11 {
            11
        } else {
            next
        };
        self.resolution = Resolution::Whole(RESOLUTION_LADDER[next as usize]);
    }

    /// Toggle a triplet (`3:2`) on and off; any other tuplet becomes a triplet.
    pub fn toggle_triplet(&mut self)
        ensures
            final(self).tuplet == (if old(self).tuplet == Some(Tuplet { num: 3, den: 2 }) {
                None
            } else {
                Some(Tuplet { num: 3, den: 2 })
            }),
            final(self).resolution == old(self).resolution,
            final(self).snap == old(self).snap,
            final(self).free_time == old(self).free_time,
    {
        let triplet = Tuplet::new(3, 2);
        self.tuplet = match self.tuplet {
            Some(t) => if t == triplet {
                None
            } else {
                Some(triplet)
            },
            None => Some(triplet),
        };
    }

    /// The beat span of one grid cell at the current resolution, ignoring any tuplet.
    pub fn display_grid_beats(&self) -> (r: RationalTime)
        ensures
            r == RationalTime::ratio(4, self.resolution.den_spec()),
    {
        self.resolution.step_beats()
    }

    /// ` · free` in free time, else ` · snap <mode>`.
    pub open spec fn mode_suffix(self) -> Seq<char> {
        if self.free_time {
            " · free"@
        } else {
            " · snap "@ + self.snap.label_spec()
        }
    }

    /// `1/<den>` followed by the snap or free-time suffix; never the tuplet.
    pub open spec fn grid_label_spec(self) -> Seq<char> {
        "1/"@ + decimal(self.resolution.den_spec() as nat) + self.mode_suffix()
    }

    /// Grid-only readout: the base resolution plus snap/free state.
    pub fn grid_label(&self) -> (r: String)
        ensures
            r@ == self.grid_label_spec(),
    {
        let mut s = String::from_str("1/");
        append_decimal(&mut s, self.resolution.den() as u64);
        self.append_mode(&mut s);
        s
    }

    fn append_mode(&self, s: &mut String)
        ensures
            final(s)@ == old(s)@ + self.mode_suffix(),
    {
        if self.free_time {
            s.append(" · free");
        } else {
            s.append(" · snap ");
            s.append(self.snap.label());
            proof {
                assert(s@ =~= old(s)@ + self.mode_suffix());
            }
        }
    }

    /// The status-bar summary: like the grid label, with `·<num>:<den>` after
    /// the resolution when a tuplet other than `n:n` is active.
    pub open spec fn summary_spec(self) -> Seq<char> {
        let head = "1/"@ + decimal(self.resolution.den_spec() as nat);
        let tup = match self.tuplet {
            Some(t) => if t.num != t.den {
                "·"@ + signed_decimal(t.num as int) + ":"@ + signed_decimal(t.den as int)
            } else {
                Seq::empty()
            },
            None => Seq::empty(),
        };
        head + tup + self.mode_suffix()
    }

    /// A compact human-readable summary, e.g. `1/8·3:2 · snap fine`.
    pub fn summary(&self) -> (r: String)
        ensures
            r@ == self.summary_spec(),
    {
        let mut s = String::from_str("1/");
        append_decimal(&mut s, self.resolution.den() as u64);
        let ghost head = s@;
        match self.tuplet {
            Some(t) => {
                if !t.is_none() {
                    s.append("·");
                    append_signed(&mut s, t.num);
                    s.append(":");
                    append_signed(&mut s, t.den);
                }
            },
            None => {},
        }
        proof {
            let tup = match self.tuplet {
                Some(t) => if t.num != t.den {
                    "·"@ + signed_decimal(t.num as int) + ":"@ + signed_decimal(t.den as int)
                } else {
                    Seq::empty()
                },
                None => Seq::empty(),
            };
            assert(s@ =~= head + tup);
        }
        self.append_mode(&mut s);
        proof {
            assert(s@ =~= self.summary_spec());
        }
        s
    }
}

/// Snapping `t` to a positive unit `u` picks the multiple `k·u` nearest
/// `t`, a tie going up: `t/u - 1/2 < k <= t/u + 1/2` (in integers over the
/// common denominator); and snapping that multiple again gives it back.
pub proof fn lemma_snap_nearest_and_idempotent(t: RationalTime, u: RationalTime)
    requires
        t.wf(),
        u.wf(),
        u.numer() > 0,
        RationalTime::mul_int_ok(u, round_quot(t, u)),
    ensures
        ({
            let k = round_quot(t, u);
            let a = k * u.numer() * t.denom() - t.numer() * u.denom();
            &&& -(u.numer() * t.denom()) < 2 * a <= u.numer() * t.denom()
            &&& round_quot(RationalTime::mul_int_spec_of(u, k), u) == k
        }),
{
    let k = round_quot(t, u);
    let (tn, td, un, ud) = (t.numer(), t.denom(), u.numer(), u.denom());
    let num = 2 * tn * ud + td * un;
    let den = 2 * td * un;
    assert(den > 0) by (nonlinear_arith)
        requires
            td > 0,
            un > 0,
            den == 2 * td * un,
    ;
    vstd::arithmetic::div_mod::lemma_fundamental_div_mod(num, den);
    let m = num % den;
    assert(0 <= m < den) by {
        vstd::arithmetic::div_mod::lemma_mod_bound(num, den);
    }
    assert(num == den * k + m);
    assert(-(un * td) < 2 * (k * un * td - tn * ud) <= un * td) by (nonlinear_arith)
        requires
            num == den * k + m,
            0 <= m < den,
            num == 2 * tn * ud + td * un,
            den == 2 * td * un,
    ;
    let r = RationalTime::mul_int_spec_of(u, k);
    RationalTime::lemma_ratio(un * k, ud);
    let (rn, rd) = (r.numer(), r.denom());
    assert(rn * ud == un * k * rd);
    assert(rd > 0);
    let x = rd * un;
    assert(x > 0) by (nonlinear_arith)
        requires
            rd > 0,
            un > 0,
            x == rd * un,
    ;
    assert(2 * rn * ud + rd * un == (2 * x) * k + x) by (nonlinear_arith)
        requires
            rn * ud == un * k * rd,
            x == rd * un,
    ;
    assert(2 * rd * un == 2 * x) by (nonlinear_arith)
        requires
            x == rd * un,
    ;
    vstd::arithmetic::div_mod::lemma_fundamental_div_mod_converse(2 * rn * ud + rd * un, 2 * x, k, x);
}

} // verus!
