//! MIDI 1.0 messages and their byte encoding.

use vstd::prelude::*;

verus! {

/// Canonical MIDI message types.
#[derive(Debug, Clone, PartialEq)]
pub enum MidiMessage {
    NoteOn { channel: u8, note: u8, velocity: u8 },
    NoteOff { channel: u8, note: u8 },
    CC { channel: u8, control: u8, value: u8 },
    ProgramChange { channel: u8, program: u8 },
    PitchBend { channel: u8, value: i16 },
    Clock,
    Start,
    Stop,
    Continue,
    ActiveSensing,
    SysEx(Vec<u8>),
}

/// The 14-bit pitch-bend value sent for a signed bend: `value + 8192`,
/// clamped into `0..=16383`.
pub open spec fn bend14(value: i16) -> int {
    let v = value + 8192;
    if v < 0 {
        0
    } else if v > 16383 {
        16383
    } else {
        v
    }
}

impl MidiMessage {
    /// The raw MIDI bytes of a message: status byte with the channel in its
    /// low nibble, 7-bit data bytes; SysEx framed by `F0`/`F7`.
    pub open spec fn bytes_spec(self) -> Seq<u8> {
        match self {
            MidiMessage::NoteOn { channel, note, velocity } => seq![
                0x90u8 | (channel & 0x0F),
                note & 0x7F,
                velocity & 0x7F,
            ],
            MidiMessage::NoteOff { channel, note } => seq![0x80u8 | (channel & 0x0F), note & 0x7F, 0u8],
            MidiMessage::CC { channel, control, value } => seq![
                0xB0u8 | (channel & 0x0F),
                control & 0x7F,
                value & 0x7F,
            ],
            MidiMessage::ProgramChange { channel, program } => seq![
                0xC0u8 | (channel & 0x0F),
                program & 0x7F,
            ],
            MidiMessage::PitchBend { channel, value } => seq![
                0xE0u8 | (channel & 0x0F),
                ((bend14(value) as u16) & 0x7F) as u8,
                (((bend14(value) as u16) >> 7) & 0x7F) as u8,
            ],
            MidiMessage::Clock => seq![0xF8u8],
            MidiMessage::Start => seq![0xFAu8],
            MidiMessage::Stop => seq![0xFCu8],
            MidiMessage::Continue => seq![0xFBu8],
            MidiMessage::ActiveSensing => seq![0xFEu8],
            MidiMessage::SysEx(data) => seq![0xF0u8] + data@ + seq![0xF7u8],
        }
    }

    /// Encoding does not overflow (`value + 8192` must fit an `i16`).
    pub open spec fn to_bytes_ok(self) -> bool {
        match self {
            MidiMessage::PitchBend { value, .. } => value <= i16::MAX - 8192,
            _ => true,
        }
    }

    /// Encode the message as raw MIDI bytes.
    pub fn to_bytes(&self) -> (r: Vec<u8>)
        requires
            self.to_bytes_ok(),
        ensures
            r@ == self.bytes_spec(),
    {
        let r = match self {
            MidiMessage::NoteOn { channel, note, velocity } => {
                vec![0x90 | (*channel & 0x0F), *note & 0x7F, *velocity & 0x7F]
            },
            MidiMessage::NoteOff { channel, note } => {
                vec![0x80 | (*channel & 0x0F), *note & 0x7F, 0]
            },
            MidiMessage::CC { channel, control, value } => {
                vec![0xB0 | (*channel & 0x0F), *control & 0x7F, *value & 0x7F]
            },
            MidiMessage::ProgramChange { channel, program } => {
                vec![0xC0 | (*channel & 0x0F), *program & 0x7F]
            },
            MidiMessage::PitchBend { channel, value } => {
                let s: i16 = *value + 8192;
                let v: u16 = if s < 0 {
                    0
                } else if s > 16383 {
                    16383
                } else {
                    s as u16
                };
                vec![0xE0 | (*channel & 0x0F), (v & 0x7F) as u8, ((v >> 7) & 0x7F) as u8]
            },
            MidiMessage::Clock => vec![0xF8],
            MidiMessage::Start => vec![0xFA],
            MidiMessage::Stop => vec![0xFC],
            MidiMessage::Continue => vec![0xFB],
            MidiMessage::ActiveSensing => vec![0xFE],
            MidiMessage::SysEx(data) => {
                let mut out: Vec<u8> = vec![0xF0];
                let mut i: usize = 0;
                while i < data.len()
                    invariant
                        i <= data@.len(),
                        out@ == seq![0xF0u8] + data@.take(i as int),
                    decreases data@.len() - i,
                {
                    out.push(data[i]);
                    proof {
                        assert(data@.take(i as int + 1) =~= data@.take(i as int).push(data@[i as int]));
                    }
                    i = i + 1;
                }
                out.push(0xF7);
                proof {
                    assert(data@.take(data@.len() as int) =~= data@);
                }
                out
            },
        };
        proof {
            assert(r@ =~= self.bytes_spec());
        }
        r
    }

    /// The message a byte string other than a SysEx parses to.
    pub open spec fn parse_spec(b: Seq<u8>) -> Option<MidiMessage> {
        if b.len() == 0 {
            None
        } else {
            let status = b[0];
            let hi = status & 0xF0;
            let ch = status & 0x0F;
            if hi == 0x90 && b.len() >= 3 {
                Some(MidiMessage::NoteOn { channel: ch, note: b[1], velocity: b[2] })
            } else if hi == 0x80 && b.len() >= 3 {
                Some(MidiMessage::NoteOff { channel: ch, note: b[1] })
            } else if hi == 0xB0 && b.len() >= 3 {
                Some(MidiMessage::CC { channel: ch, control: b[1], value: b[2] })
            } else if hi == 0xC0 && b.len() >= 2 {
                Some(MidiMessage::ProgramChange { channel: ch, program: b[1] })
            } else if hi == 0xE0 && b.len() >= 3 {
                Some(MidiMessage::PitchBend {
                    channel: ch,
                    value: (((b[2] as i16) << 7u16 | (b[1] as i16)) - 8192) as i16,
                })
            } else if status == 0xF8 {
                Some(MidiMessage::Clock)
            } else if status == 0xFA {
                Some(MidiMessage::Start)
            } else if status == 0xFC {
                Some(MidiMessage::Stop)
            } else if status == 0xFB {
                Some(MidiMessage::Continue)
            } else if status == 0xFE {
                Some(MidiMessage::ActiveSensing)
            } else {
                None
            }
        }
    }

    /// `b` starts a SysEx message.
    pub open spec fn is_sysex(b: Seq<u8>) -> bool {
        b.len() > 0 && b[0] == 0xF0
    }

    /// The payload of SysEx bytes `b`: what lies between the `F0` and a
    /// closing `F7` (everything after `F0` when no `F7` closes it).
    pub open spec fn sysex_payload(b: Seq<u8>) -> Seq<u8> {
        if b.len() >= 2 && b.last() == 0xF7 {
            b.subrange(1, b.len() - 1)
        } else {
            b.skip(1)
        }
    }

    /// Parse raw MIDI bytes. A SysEx message holds the bytes between its
    /// `F0` and its closing `F7`.
    pub fn from_bytes(bytes: &[u8]) -> (r: Option<MidiMessage>)
        ensures
            Self::is_sysex(bytes@) ==> (r matches Some(MidiMessage::SysEx(d)) && d@ == Self::sysex_payload(bytes@)),
            !Self::is_sysex(bytes@) ==> r == Self::parse_spec(bytes@),
    {
        if bytes.len() == 0 {
            return None;
        }
        let status = bytes[0];
        let hi = status & 0xF0;
        let ch = status & 0x0F;
        proof {
            assert(status == 0xF0 ==> status & 0xF0 == 0xF0) by (bit_vector);
        }
        if hi == 0x90 && bytes.len() >= 3 {
            Some(MidiMessage::NoteOn { channel: ch, note: bytes[1], velocity: bytes[2] })
        } else if hi == 0x80 && bytes.len() >= 3 {
            Some(MidiMessage::NoteOff { channel: ch, note: bytes[1] })
        } else if hi == 0xB0 && bytes.len() >= 3 {
            Some(MidiMessage::CC { channel: ch, control: bytes[1], value: bytes[2] })
        } else if hi == 0xC0 && bytes.len() >= 2 {
            Some(MidiMessage::ProgramChange { channel: ch, program: bytes[1] })
        } else if hi == 0xE0 && bytes.len() >= 3 {
            let lsb = bytes[1] as i16;
            let msb = bytes[2] as i16;
            proof {
                assert((msb << 7u16 | lsb) <= 0x7FFF && (msb << 7u16 | lsb) >= 0) by (bit_vector)
                    requires
                        0 <= msb < 256,
                        0 <= lsb < 256,
                ;
            }
            Some(MidiMessage::PitchBend { channel: ch, value: (msb << 7u16 | lsb) - 8192 })
        } else if status == 0xF8 {
            Some(MidiMessage::Clock)
        } else if status == 0xFA {
            Some(MidiMessage::Start)
        } else if status == 0xFC {
            Some(MidiMessage::Stop)
        } else if status == 0xFB {
            Some(MidiMessage::Continue)
        } else if status == 0xFE {
            Some(MidiMessage::ActiveSensing)
        } else if status == 0xF0 {
            let end: usize = if bytes.len() >= 2 && bytes[bytes.len() - 1] == 0xF7 {
                bytes.len() - 1
            } else {
                bytes.len()
            };
            let mut data: Vec<u8> = Vec::new();
            let mut i: usize = 1;
            while i < end
                invariant
                    1 <= i <= end <= bytes@.len(),
                    data@ == bytes@.subrange(1, i as int),
                decreases end - i,
            {
                data.push(bytes[i]);
                proof {
                    assert(bytes@.subrange(1, i as int + 1) =~= bytes@.subrange(1, i as int).push(bytes@[i as int]));
                }
                i = i + 1;
            }
            proof {
                assert(bytes@.subrange(1, bytes@.len() as int) =~= bytes@.skip(1));
                assert(data@ =~= Self::sysex_payload(bytes@));
            }
            Some(MidiMessage::SysEx(data))
        } else {
            None
        }
    }
}

/// `m`'s fields fit the wire format: channel below 16, 7-bit data bytes, a
/// bend within `-8192..=8191` (any SysEx payload).
pub open spec fn encodable(m: MidiMessage) -> bool {
    match m {
        MidiMessage::NoteOn { channel, note, velocity } => channel < 16 && note < 128 && velocity < 128,
        MidiMessage::NoteOff { channel, note } => channel < 16 && note < 128,
        MidiMessage::CC { channel, control, value } => channel < 16 && control < 128 && value < 128,
        MidiMessage::ProgramChange { channel, program } => channel < 16 && program < 128,
        MidiMessage::PitchBend { channel, value } => channel < 16 && -8192 <= value <= 8191,
        _ => true,
    }
}

/// Parsing the bytes of a message whose fields fit the wire format gives
/// the message back; for SysEx, the payload between `F0` and `F7`.
pub proof fn lemma_bytes_roundtrip(m: MidiMessage)
    requires
        encodable(m),
    ensures
        m is SysEx ==> MidiMessage::is_sysex(m.bytes_spec()) && MidiMessage::sysex_payload(m.bytes_spec()) == m->SysEx_0@,
        !(m is SysEx) ==> !MidiMessage::is_sysex(m.bytes_spec()) && MidiMessage::parse_spec(m.bytes_spec()) == Some(m),
{
    match m {
        MidiMessage::SysEx(d) => {
            let b = m.bytes_spec();
            assert(b.subrange(1, b.len() - 1) =~= d@);
        },
        MidiMessage::NoteOn { channel, note, velocity } => {
            assert((0x90u8 | (channel & 0x0F)) != 0xF0 && (0x90u8 | (channel & 0x0F)) & 0xF0 == 0x90 && (0x90u8 | (channel & 0x0F)) & 0x0F == channel
                && note & 0x7F == note && velocity & 0x7F == velocity) by (bit_vector)
                requires
                    channel < 16,
                    note < 128,
                    velocity < 128,
            ;
        },
        MidiMessage::NoteOff { channel, note } => {
            assert((0x80u8 | (channel & 0x0F)) != 0xF0 && (0x80u8 | (channel & 0x0F)) & 0xF0 == 0x80 && (0x80u8 | (channel & 0x0F)) & 0x0F == channel
                && note & 0x7F == note) by (bit_vector)
                requires
                    channel < 16,
                    note < 128,
            ;
        },
        MidiMessage::CC { channel, control, value } => {
            assert((0xB0u8 | (channel & 0x0F)) != 0xF0 && (0xB0u8 | (channel & 0x0F)) & 0xF0 == 0xB0 && (0xB0u8 | (channel & 0x0F)) & 0x0F == channel
                && control & 0x7F == control && value & 0x7F == value) by (bit_vector)
                requires
                    channel < 16,
                    control < 128,
                    value < 128,
            ;
        },
        MidiMessage::ProgramChange { channel, program } => {
            assert((0xC0u8 | (channel & 0x0F)) != 0xF0 && (0xC0u8 | (channel & 0x0F)) & 0xF0 == 0xC0 && (0xC0u8 | (channel & 0x0F)) & 0x0F == channel
                && program & 0x7F == program) by (bit_vector)
                requires
                    channel < 16,
                    program < 128,
            ;
        },
        MidiMessage::PitchBend { channel, value } => {
            let v = (value + 8192) as u16;
            assert(bend14(value) == v);
            assert((0xE0u8 | (channel & 0x0F)) != 0xF0 && (0xE0u8 | (channel & 0x0F)) & 0xF0 == 0xE0 && (0xE0u8 | (channel & 0x0F)) & 0x0F == channel) by (bit_vector)
                requires
                    channel < 16,
            ;
            let lo = (v & 0x7F) as u8;
            let hi = ((v >> 7) & 0x7F) as u8;
            assert((((hi as i16) << 7u16 | (lo as i16)) - 8192) as i16 == value) by (bit_vector)
                requires
                    v == (value + 8192) as u16,
                    -8192 <= value <= 8191,
                    lo == (v & 0x7F) as u8,
                    hi == ((v >> 7) & 0x7F) as u8,
            ;
        },
        _ => {},
    }
}

} // verus!
