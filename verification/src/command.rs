//! Help topics offered by the command palette.

use vstd::prelude::*;

verus! {

/// A help page.
#[derive(Debug, Clone, Copy, PartialEq, Eq, Structural)]
pub enum HelpTopic {
    KeyboardShortcuts,
    WorkflowGuide,
    MidiImport,
    Routing,
    PatternEditor,
    Troubleshooting,
    LatencyOptimization,
}
impl HelpTopic {
    /// The value of [`HelpTopic::label`] for each variant.
    pub open spec fn label_spec(self) -> Seq<char> {
        match self {
            HelpTopic::KeyboardShortcuts => "Keyboard Shortcuts"@,
            HelpTopic::WorkflowGuide => "Workflow Guide"@,
            HelpTopic::MidiImport => "MIDI Import Guide"@,
            HelpTopic::Routing => "Routing Guide"@,
            HelpTopic::PatternEditor => "Pattern Editor Guide"@,
            HelpTopic::Troubleshooting => "Troubleshooting"@,
            HelpTopic::LatencyOptimization => "Latency Optimization"@,
        }
    }

    /// Display label.
    pub fn label(&self) -> (r: &'static str)
        ensures
            r@ == self.label_spec(),
    {
        match self {
            HelpTopic::KeyboardShortcuts => "Keyboard Shortcuts",
            HelpTopic::WorkflowGuide => "Workflow Guide",
            HelpTopic::MidiImport => "MIDI Import Guide",
            HelpTopic::Routing => "Routing Guide",
            HelpTopic::PatternEditor => "Pattern Editor Guide",
            HelpTopic::Troubleshooting => "Troubleshooting",
            HelpTopic::LatencyOptimization => "Latency Optimization",
        }
    }

    /// Every topic, in menu order.
    pub const ALL: [HelpTopic; 7] = [HelpTopic::KeyboardShortcuts, HelpTopic::WorkflowGuide, HelpTopic::MidiImport, HelpTopic::Routing, HelpTopic::PatternEditor, HelpTopic::Troubleshooting, HelpTopic::LatencyOptimization];

    /// Every topic, in menu order.
    pub fn all() -> (r: &'static [HelpTopic])
        ensures
            r@ == seq![HelpTopic::KeyboardShortcuts, HelpTopic::WorkflowGuide, HelpTopic::MidiImport, HelpTopic::Routing, HelpTopic::PatternEditor, HelpTopic::Troubleshooting, HelpTopic::LatencyOptimization],
    {
        let r: &'static [HelpTopic] = &Self::ALL;
        proof {
            assert(r@ =~= seq![HelpTopic::KeyboardShortcuts, HelpTopic::WorkflowGuide, HelpTopic::MidiImport, HelpTopic::Routing, HelpTopic::PatternEditor, HelpTopic::Troubleshooting, HelpTopic::LatencyOptimization]);
        }
        r
    }
}

} // verus!
