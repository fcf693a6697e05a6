//! Automation modes and interpolation curve kinds.

use vstd::prelude::*;

verus! {

/// How an automation lane reacts to live edits.
#[derive(Debug, Clone, Copy, PartialEq, Eq, Structural)]
pub enum AutomationMode {
    /// Play back recorded points; ignore live edits.
    Read,
    /// Continuously overwrite with the live value.
    Write,
    /// Overwrite only while the control is touched, then return to Read.
    Touch,
    /// Overwrite from first touch and hold the new value until stop.
    Latch,
}

impl Default for AutomationMode {
    fn default() -> (r: AutomationMode)
        ensures
            r == AutomationMode::Read,
    {
        AutomationMode::Read
    }
}
/// Interpolation from one breakpoint to the next.
#[derive(Debug, Clone, Copy, PartialEq, Eq, Structural)]
pub enum AutomationCurve {
    Linear,
    Exponential,
    Logarithmic,
    Bezier,
}

impl Default for AutomationCurve {
    fn default() -> (r: AutomationCurve)
        ensures
            r == AutomationCurve::Linear,
    {
        AutomationCurve::Linear
    }
}
} // verus!
