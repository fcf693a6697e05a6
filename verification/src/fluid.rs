//! The FluidSynth-family SF2 backend as built without a synthesis engine: it
//! loads nothing and stays silent, so callers can fall back to another
//! sample engine.

use crate::plugin_au::PresetInfo;
use vstd::prelude::*;

verus! {

/// An SF2 synthesizer backend without an engine: every call is accepted and
/// nothing sounds.
pub struct FluidSynthBackend {
    sf2_path: String,
}

impl FluidSynthBackend {
    /// The soundfont it was created for.
    pub closed spec fn path_spec(&self) -> Seq<char> {
        self.sf2_path@
    }

    /// Create a backend for `sf2_path` with `channels` as
    /// `(midi_channel, bank, preset)`; without an engine this always
    /// succeeds.
    pub fn new(sf2_path: String, channels: &[(u8, u8, u8)], sample_rate: u32) -> (r: Result<FluidSynthBackend, String>)
        ensures
            r matches Ok(b) && b.path_spec() == sf2_path@,
    {
        Ok(FluidSynthBackend { sf2_path })
    }

    pub fn note_on(&mut self, channel: u8, note: u8, velocity: u8)
        ensures
            final(self).path_spec() == old(self).path_spec(),
    {
    }

    pub fn note_off(&mut self, channel: u8, note: u8)
        ensures
            final(self).path_spec() == old(self).path_spec(),
    {
    }

    pub fn control_change(&mut self, channel: u8, cc: u8, value: u8)
        ensures
            final(self).path_spec() == old(self).path_spec(),
    {
    }

    pub fn pitch_bend(&mut self, channel: u8, value: i16)
        ensures
            final(self).path_spec() == old(self).path_spec(),
    {
    }

    pub fn all_notes_off(&mut self)
        ensures
            final(self).path_spec() == old(self).path_spec(),
    {
    }

    /// Select bank/preset on channel 0.
    pub fn select_preset(&mut self, bank: u16, program: u8)
        ensures
            final(self).path_spec() == old(self).path_spec(),
    {
    }

    /// Whether a real engine produces sound: not in this build.
    pub fn is_real(&self) -> (r: bool)
        ensures
            !r,
    {
        false
    }

    /// The presets of the loaded soundfont: none.
    pub fn list_presets(&self) -> (r: Vec<PresetInfo>)
        ensures
            r@.len() == 0,
    {
        Vec::new()
    }
}

} // verus!
