//! Audio Unit plugin discovery and a placeholder AU instrument.
//!
//! Audio Units exist on macOS only; on every other platform the scan finds
//! nothing and the instrument is a silent stand-in.

use vstd::prelude::*;

verus! {

/// Metadata about a discovered Audio Unit plugin.
#[derive(Debug, Clone)]
pub struct AuPluginInfo {
    /// Component type (e.g. "aumu" = instrument, "aufx" = effect).
    pub component_type: String,
    /// Manufacturer code (4-char OSType).
    pub manufacturer: String,
    /// Component name.
    pub name: String,
    /// Version integer from the component description.
    pub version: u32,
}

/// One preset an instrument offers.
#[derive(Debug, Clone)]
pub struct PresetInfo {
    pub bank: u16,
    pub program: u8,
    pub name: String,
}

/// Scan the system's Audio Unit component database. No Audio Unit host is
/// built in, so no plugin is found.
pub fn scan_system() -> (r: Vec<AuPluginInfo>)
    ensures
        r@.len() == 0,
{
    Vec::new()
}

/// Placeholder AU instrument: silent on every platform.
pub struct AuInstrument {
    name: String,
    active: bool,
}

impl AuInstrument {
    /// The instrument's name.
    pub closed spec fn name_spec(&self) -> Seq<char> {
        self.name@
    }

    /// Whether it still produces (silent) output.
    pub closed spec fn active_spec(&self) -> bool {
        self.active
    }

    /// A new, active instrument named `name`.
    pub fn new(name: String) -> (r: AuInstrument)
        ensures
            r.name_spec() == name@,
            r.active_spec(),
    {
        AuInstrument { name, active: true }
    }

    /// Whether the instrument is still active.
    pub fn is_active(&self) -> (r: bool)
        ensures
            r == self.active_spec(),
    {
        self.active
    }

    /// Stop the instrument.
    pub fn stop(&mut self)
        ensures
            !final(self).active_spec(),
            final(self).name_spec() == old(self).name_spec(),
    {
        self.active = false;
    }

    /// The backend's display name.
    pub fn backend_name(&self) -> (r: &'static str)
        ensures
            r@ == "Audio Unit (stub)"@,
    {
        "Audio Unit (stub)"
    }

    /// The single preset: bank 0, program 0, named after the instrument.
    pub fn list_presets(&self) -> (r: Vec<PresetInfo>)
        ensures
            r@.len() == 1,
            r@[0].bank == 0,
            r@[0].program == 0,
            r@[0].name@ == self.name_spec(),
    {
        let mut v: Vec<PresetInfo> = Vec::new();
        v.push(PresetInfo { bank: 0, program: 0, name: self.name.clone() });
        v
    }
}

} // verus!
