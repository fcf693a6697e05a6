//! Routing MIDI messages to output ports.

use crate::midi::MidiMessage;
use vstd::prelude::*;

verus! {

/// A MIDI output port.
pub trait MidiOutput {
    /// Send one message; an error names what went wrong.
    fn send(&mut self, msg: &MidiMessage) -> Result<(), String>;

    /// The port's name.
    fn name(&self) -> &str;
}

/// A MIDI input port.
pub trait MidiInput {
    /// The next received message, if any.
    fn poll(&mut self) -> Option<MidiMessage>;

    /// The port's name.
    fn name(&self) -> &str;
}

/// Queues messages and delivers them to every registered output.
pub struct MidiRouter<O> {
    outputs: Vec<O>,
    queue: Vec<MidiMessage>,
    channel_filter: Option<u8>,
}

impl<O: MidiOutput> MidiRouter<O> {
    /// The registered outputs.
    pub closed spec fn outputs_spec(&self) -> Seq<O> {
        self.outputs@
    }

    /// The messages waiting to be delivered, oldest first.
    pub closed spec fn queue_spec(&self) -> Seq<MidiMessage> {
        self.queue@
    }

    /// The channel filter.
    pub closed spec fn filter_spec(&self) -> Option<u8> {
        self.channel_filter
    }

    /// A router with no outputs, nothing queued and no filter.
    pub fn new() -> (r: Self)
        ensures
            r.outputs_spec().len() == 0,
            r.queue_spec().len() == 0,
            r.filter_spec().is_none(),
    {
        MidiRouter { outputs: Vec::new(), queue: Vec::new(), channel_filter: None }
    }

    /// Register an output port.
    pub fn add_output(&mut self, output: O)
        ensures
            final(self).outputs_spec() == old(self).outputs_spec().push(output),
            final(self).queue_spec() == old(self).queue_spec(),
            final(self).filter_spec() == old(self).filter_spec(),
    {
        self.outputs.push(output);
    }

    /// Queue a message.
    pub fn send(&mut self, msg: MidiMessage)
        ensures
            final(self).queue_spec() == old(self).queue_spec().push(msg),
            final(self).outputs_spec() == old(self).outputs_spec(),
            final(self).filter_spec() == old(self).filter_spec(),
    {
        self.queue.push(msg);
    }

    /// Deliver every queued message, oldest first, to every output in the
    /// order they were added; a failed send is skipped. The queue ends empty.
    pub fn flush(&mut self)
        ensures
            final(self).queue_spec().len() == 0,
            final(self).outputs_spec().len() == old(self).outputs_spec().len(),
            final(self).filter_spec() == old(self).filter_spec(),
    {
        let mut q: Vec<MidiMessage> = Vec::new();
        std::mem::swap(&mut q, &mut self.queue);
        let n = self.outputs.len();
        let mut i: usize = 0;
        while i < q.len()
            invariant
                i <= q@.len(),
                self.outputs@.len() == n,
                self.queue@.len() == 0,
                self.channel_filter == old(self).channel_filter,
            decreases q@.len() - i,
        {
            let mut j: usize = 0;
            while j < self.outputs.len()
                invariant
                    j <= self.outputs@.len(),
                    self.outputs@.len() == n,
                    i < q@.len(),
                    self.queue@.len() == 0,
                    self.channel_filter == old(self).channel_filter,
                decreases self.outputs@.len() - j,
            {
                let _ = self.outputs[j].send(&q[i]);
                j = j + 1;
            }
            i = i + 1;
        }
    }

    /// Set the channel filter (`None` passes every channel).
    pub fn set_channel_filter(&mut self, channel: Option<u8>)
        ensures
            final(self).filter_spec() == channel,
            final(self).queue_spec() == old(self).queue_spec(),
            final(self).outputs_spec() == old(self).outputs_spec(),
    {
        self.channel_filter = channel;
    }
}

} // verus!
