//! MIDI 2.0: Universal MIDI Packets (UMP) and MIDI Capability Inquiry (CI).
//!
//! UMP word 0 carries the message type in bits 31-28 and the group in bits
//! 27-24. MIDI 1.0 channel-voice messages are upconverted to MIDI 2.0
//! channel-voice packets with scaled values and back again.

use crate::midi::MidiMessage;
use vstd::prelude::*;

verus! {

/// One 32-bit UMP word.
pub type UmpWord = u32;

/// UMP message type (bits 31-28 of word 0).
#[derive(Debug, Clone, Copy, PartialEq, Eq, Structural)]
pub enum UmpMessageType {
    Utility,
    SystemRealTime,
    Midi1ChannelVoice,
    Data64,
    Midi2ChannelVoice,
    Data128,
    Unknown(u8),
}

impl UmpMessageType {
    /// The type of nibble `n` (only its low four bits count).
    pub open spec fn of_nibble(n: u8) -> UmpMessageType {
        let v = n & 0x0F;
        if v == 0 {
            UmpMessageType::Utility
        } else if v == 1 {
            UmpMessageType::SystemRealTime
        } else if v == 2 {
            UmpMessageType::Midi1ChannelVoice
        } else if v == 3 {
            UmpMessageType::Data64
        } else if v == 4 {
            UmpMessageType::Midi2ChannelVoice
        } else if v == 5 {
            UmpMessageType::Data128
        } else {
            UmpMessageType::Unknown(v)
        }
    }

    pub fn from_nibble(n: u8) -> (r: UmpMessageType)
        ensures
            r == Self::of_nibble(n),
    {
        let v = n & 0x0F;
        if v == 0 {
            UmpMessageType::Utility
        } else if v == 1 {
            UmpMessageType::SystemRealTime
        } else if v == 2 {
            UmpMessageType::Midi1ChannelVoice
        } else if v == 3 {
            UmpMessageType::Data64
        } else if v == 4 {
            UmpMessageType::Midi2ChannelVoice
        } else if v == 5 {
            UmpMessageType::Data128
        } else {
            UmpMessageType::Unknown(v)
        }
    }

    /// Words per packet: 1 for utility, system and MIDI 1.0 voice (and unknown
    /// types), 2 for 64-bit data and MIDI 2.0 voice, 4 for 128-bit data.
    pub open spec fn words_spec(self) -> int {
        match self {
            UmpMessageType::Data64 | UmpMessageType::Midi2ChannelVoice => 2,
            UmpMessageType::Data128 => 4,
            _ => 1,
        }
    }

    pub fn word_count(self) -> (r: usize)
        ensures
            r == self.words_spec(),
    {
        match self {
            UmpMessageType::Data64 | UmpMessageType::Midi2ChannelVoice => 2,
            UmpMessageType::Data128 => 4,
            _ => 1,
        }
    }
}

/// A Universal MIDI Packet of one, two or four 32-bit words.
#[derive(Debug, Clone, Copy, PartialEq, Eq)]
pub enum UmpPacket {
    /// 32-bit packets: utility, system real-time/common, MIDI 1.0 channel voice.
    Single(UmpWord),
    /// 64-bit packets: MIDI 2.0 channel voice, SysEx7 data.
    Double([UmpWord; 2]),
    /// 128-bit packets: SysEx8, UMP stream messages.
    Quad([UmpWord; 4]),
}

/// The message type of word `w`.
pub open spec fn type_of_word(w: u32) -> UmpMessageType {
    UmpMessageType::of_nibble((w >> 28) as u8)
}

#[verifier::external_body]
fn slice_of_one(w: &u32) -> (r: &[u32])
    ensures
        r@ == seq![*w],
{
    core::slice::from_ref(w)
}

impl UmpPacket {
    /// The packet's words in order.
    pub open spec fn words_spec(self) -> Seq<u32> {
        match self {
            UmpPacket::Single(w) => seq![w],
            UmpPacket::Double(ws) => ws@,
            UmpPacket::Quad(ws) => ws@,
        }
    }

    /// The packet read from the front of `words`, if enough words are there.
    pub open spec fn from_words_spec(words: Seq<u32>) -> Option<UmpPacket> {
        if words.len() == 0 {
            None
        } else {
            let n = type_of_word(words[0]).words_spec();
            if n == 1 {
                Some(UmpPacket::Single(words[0]))
            } else if n == 2 && words.len() >= 2 {
                Some(UmpPacket::Double([words[0], words[1]]))
            } else if n == 4 && words.len() >= 4 {
                Some(UmpPacket::Quad([words[0], words[1], words[2], words[3]]))
            } else {
                None
            }
        }
    }

    /// Construct from a flat slice of words (reading as many as the type of
    /// word 0 requires); `None` if the slice is too short.
    pub fn from_words(words: &[UmpWord]) -> (r: Option<UmpPacket>)
        ensures
            r == Self::from_words_spec(words@),
    {
        if words.len() == 0 {
            return None;
        }
        let mt = UmpMessageType::from_nibble((words[0] >> 28) as u8);
        let n = mt.word_count();
        if n == 1 {
            Some(UmpPacket::Single(words[0]))
        } else if n == 2 && words.len() >= 2 {
            Some(UmpPacket::Double([words[0], words[1]]))
        } else if n == 4 && words.len() >= 4 {
            Some(UmpPacket::Quad([words[0], words[1], words[2], words[3]]))
        } else {
            None
        }
    }

    /// First word (always present).
    pub fn word0(&self) -> (r: UmpWord)
        ensures
            r == self.words_spec()[0],
    {
        match self {
            UmpPacket::Single(w) => *w,
            UmpPacket::Double(ws) => ws[0],
            UmpPacket::Quad(ws) => ws[0],
        }
    }

    pub fn message_type(&self) -> (r: UmpMessageType)
        ensures
            r == type_of_word(self.words_spec()[0]),
    {
        UmpMessageType::from_nibble((self.word0() >> 28) as u8)
    }

    /// UMP group (0-15), bits 27-24 of word 0.
    pub fn group(&self) -> (r: u8)
        ensures
            r == ((self.words_spec()[0] >> 24) & 0x0F) as u8,
    {
        ((self.word0() >> 24) & 0x0F) as u8
    }

    /// Flat view of all words.
    pub fn words(&self) -> (r: &[UmpWord])
        ensures
            r@ == self.words_spec(),
    {
        match self {
            UmpPacket::Single(w) => slice_of_one(w),
            UmpPacket::Double(ws) => ws.as_slice(),
            UmpPacket::Quad(ws) => ws.as_slice(),
        }
    }

    /// Build a 32-bit MIDI 1.0 channel-voice packet (type 2).
    pub fn midi1_channel_voice(group: u8, status: u8, channel: u8, data0: u8, data1: u8) -> (r:
        UmpPacket)
        ensures
            r == UmpPacket::Single(cv1_word(group, status, channel, data0, data1)),
    {
        UmpPacket::Single(
            (0x2u32 << 28u32) | (((group as u32) & 0x0F) << 24u32) | (((status as u32) & 0xF0)
                << 16u32) | (((channel as u32) & 0x0F) << 16u32) | (((data0 as u32) & 0x7F)
                << 8u32) | ((data1 as u32) & 0x7F),
        )
    }

    fn midi2_cv(group: u8, status: u8, channel: u8, index0: u8, index1: u8, data32: u32) -> (r:
        UmpPacket)
        ensures
            r == UmpPacket::Double([cv2_word0(group, status, channel, index0, index1), data32]),
    {
        let w0 = (0x4u32 << 28u32) | (((group as u32) & 0x0F) << 24u32) | (((status as u32) & 0xF0)
            << 16u32) | (((channel as u32) & 0x0F) << 16u32) | ((index0 as u32) << 8u32) | (
        index1 as u32);
        UmpPacket::Double([w0, data32])
    }

    /// MIDI 2.0 note on (type 4, status `0x90`) with a 16-bit velocity.
    pub fn note_on_midi2(
        group: u8,
        channel: u8,
        note: u8,
        velocity: u16,
        attr_type: u8,
        attr_data: u16,
    ) -> (r: UmpPacket)
        ensures
            r == UmpPacket::Double(
                [note_word0(group, 0x90, channel, note, attr_type), note_word1(velocity, attr_data)],
            ),
    {
        let w0 = (0x4u32 << 28u32) | (((group as u32) & 0x0F) << 24u32) | (0x90u32 << 16u32) | (((
        channel as u32) & 0x0F) << 16u32) | (((note as u32) & 0x7F) << 8u32) | ((attr_type as u32)
            & 0xFF);
        let w1 = ((velocity as u32) << 16u32) | ((attr_data as u32) & 0xFFFF);
        UmpPacket::Double([w0, w1])
    }

    /// MIDI 2.0 note off (type 4, status `0x80`).
    pub fn note_off_midi2(
        group: u8,
        channel: u8,
        note: u8,
        velocity: u16,
        attr_type: u8,
        attr_data: u16,
    ) -> (r: UmpPacket)
        ensures
            r == UmpPacket::Double(
                [note_word0(group, 0x80, channel, note, attr_type), note_word1(velocity, attr_data)],
            ),
    {
        let w0 = (0x4u32 << 28u32) | (((group as u32) & 0x0F) << 24u32) | (0x80u32 << 16u32) | (((
        channel as u32) & 0x0F) << 16u32) | (((note as u32) & 0x7F) << 8u32) | ((attr_type as u32)
            & 0xFF);
        let w1 = ((velocity as u32) << 16u32) | ((attr_data as u32) & 0xFFFF);
        UmpPacket::Double([w0, w1])
    }

    /// MIDI 2.0 pitch bend (type 4, status `0x60`), 32-bit value centred at `0x8000_0000`.
    pub fn pitch_bend_midi2(group: u8, channel: u8, value: u32) -> (r: UmpPacket)
        ensures
            r == UmpPacket::Double([cv2_word0(group, 0x60, channel, 0, 0), value]),
    {
        Self::midi2_cv(group, 0x60, channel, 0, 0, value)
    }

    /// MIDI 2.0 channel pressure (type 4, status `0xD0`).
    pub fn channel_pressure_midi2(group: u8, channel: u8, value: u32) -> (r: UmpPacket)
        ensures
            r == UmpPacket::Double([cv2_word0(group, 0xD0, channel, 0, 0), value]),
    {
        Self::midi2_cv(group, 0xD0, channel, 0, 0, value)
    }

    /// MIDI 2.0 registered controller (status `0x20`).
    pub fn registered_ctrl_midi2(group: u8, channel: u8, bank: u8, index: u8, value: u32) -> (r:
        UmpPacket)
        ensures
            r == UmpPacket::Double([cv2_word0(group, 0x20, channel, bank, index), value]),
    {
        Self::midi2_cv(group, 0x20, channel, bank, index, value)
    }

    /// MIDI 2.0 assignable controller (status `0x30`).
    pub fn assignable_ctrl_midi2(group: u8, channel: u8, bank: u8, index: u8, value: u32) -> (r:
        UmpPacket)
        ensures
            r == UmpPacket::Double([cv2_word0(group, 0x30, channel, bank, index), value]),
    {
        Self::midi2_cv(group, 0x30, channel, bank, index, value)
    }
}

/// Word of a MIDI 1.0 channel-voice packet.
pub open spec fn cv1_word(group: u8, status: u8, channel: u8, data0: u8, data1: u8) -> u32 {
    (0x2u32 << 28u32) | (((group as u32) & 0x0F) << 24u32) | (((status as u32) & 0xF0) << 16u32) | (((
    channel as u32) & 0x0F) << 16u32) | (((data0 as u32) & 0x7F) << 8u32) | ((data1 as u32) & 0x7F)
}

/// Word 0 of a MIDI 2.0 channel-voice packet.
pub open spec fn cv2_word0(group: u8, status: u8, channel: u8, index0: u8, index1: u8) -> u32 {
    (0x4u32 << 28u32) | (((group as u32) & 0x0F) << 24u32) | (((status as u32) & 0xF0) << 16u32) | (((
    channel as u32) & 0x0F) << 16u32) | ((index0 as u32) << 8u32) | (index1 as u32)
}

/// Word 0 of a MIDI 2.0 note on/off packet (`status` is `0x90` or `0x80`).
pub open spec fn note_word0(group: u8, status: u32, channel: u8, note: u8, attr_type: u8) -> u32 {
    (0x4u32 << 28u32) | (((group as u32) & 0x0F) << 24u32) | (status << 16u32) | (((channel as u32)
        & 0x0F) << 16u32) | (((note as u32) & 0x7F) << 8u32) | ((attr_type as u32) & 0xFF)
}

/// Word 1 of a MIDI 2.0 note on/off packet: velocity in the upper half.
pub open spec fn note_word1(velocity: u16, attr_data: u16) -> u32 {
    ((velocity as u32) << 16u32) | ((attr_data as u32) & 0xFFFF)
}

// ─── Scaling ────────────────────────────────────────────────────────────────

/// 7-bit velocity to 16 bits by bit replication.
pub open spec fn vel16(v7: u8) -> u16 {
    let v = (v7 as u32) & 0x7F;
    ((v << 9u32) | (v << 2u32) | (v >> 5u32)) as u16
}

/// Scale a 7-bit MIDI 1.0 velocity to a 16-bit MIDI 2.0 velocity.
pub fn velocity_midi1_to_midi2(v7: u8) -> (r: u16)
    ensures
        r == vel16(v7),
{
    let v = (v7 as u32) & 0x7F;
    ((v << 9u32) | (v << 2u32) | (v >> 5u32)) as u16
}

/// Scale a 16-bit MIDI 2.0 velocity down to 7 bits (its top seven bits).
pub fn velocity_midi2_to_midi1(v16: u16) -> (r: u8)
    ensures
        r == (v16 >> 9u16) as u8,
{
    (v16 >> 9u16) as u8
}

/// Every 7-bit velocity survives the trip to 16 bits and back.
pub proof fn lemma_velocity_roundtrip(v7: u8)
    requires
        v7 < 128,
    ensures
        (vel16(v7) >> 9u16) as u8 == v7,
{
    assert((((((v7 as u32) & 0x7F) << 9u32) | (((v7 as u32) & 0x7F) << 2u32) | (((v7 as u32)
        & 0x7F) >> 5u32)) as u16 >> 9u16) as u8 == v7) by (bit_vector)
        requires
            v7 < 128,
    ;
}

/// The 14-bit unsigned bend of a signed MIDI 1.0 bend: `pb14 + 8192` clamped to `0..=16383`.
pub open spec fn unsigned14(pb14: i16) -> int {
    let u = pb14 + 8192;
    if u < 0 {
        0
    } else if u > 16383 {
        16383
    } else {
        u
    }
}

/// Scale a 14-bit MIDI 1.0 pitch bend (centre 0) to 32 bits (centre `0x8000_0000`):
/// `u14 * 0xFFFF_FFFF / 16383`.
pub fn pitch_bend_midi1_to_midi2(pb14: i16) -> (r: u32)
    requires
        pb14 <= i16::MAX - 8192,
    ensures
        r == unsigned14(pb14) * 0xFFFF_FFFF / 16383,
{
    let s: i16 = pb14 + 8192;
    let u14: u64 = if s < 0 {
        0
    } else if s > 16383 {
        16383
    } else {
        s as u64
    };
    proof {
        assert(u14 * 0xFFFF_FFFF / 16383 <= 0xFFFF_FFFF) by (nonlinear_arith)
            requires
                u14 <= 16383,
        ;
    }
    ((u14 * 0xFFFF_FFFF) / 16383) as u32
}

/// Scale a 32-bit MIDI 2.0 pitch bend back to a signed 14-bit value:
/// `pb32 * 16383 / 0xFFFF_FFFF - 8192`.
pub fn pitch_bend_midi2_to_midi1(pb32: u32) -> (r: i16)
    ensures
        r == pb32 * 16383 / 0xFFFF_FFFF - 8192,
{
    proof {
        assert(pb32 * 16383 / 0xFFFF_FFFF <= 16383) by (nonlinear_arith)
            requires
                pb32 <= 0xFFFF_FFFF,
        ;
    }
    let u14 = ((pb32 as u64) * 16383 / 0xFFFF_FFFF) as i16;
    u14 - 8192
}

/// A pitch bend in `-8192..=8191` comes back within one step after the trip
/// to 32 bits and back.
pub proof fn lemma_pitch_bend_roundtrip(pb: i16)
    requires
        -8192 <= pb <= 8191,
    ensures
        -1 <= ((unsigned14(pb) * 0xFFFF_FFFF / 16383) * 16383 / 0xFFFF_FFFF - 8192) - pb <= 1,
{
    let u = unsigned14(pb);
    assert(u == pb + 8192);
    let x = u * 0xFFFF_FFFF / 16383;
    let y = x * 16383 / 0xFFFF_FFFF;
    assert(y <= u && y >= u - 1) by (nonlinear_arith)
        requires
            0 <= u <= 16383,
            x == u * 0xFFFF_FFFF / 16383,
            y == x * 16383 / 0xFFFF_FFFF,
    ;
}

/// 7-bit controller value to 32 bits by bit replication.
pub open spec fn cc32(v7: u8) -> u32 {
    let v = (v7 as u32) & 0x7F;
    (v << 25u32) | (v << 18u32) | (v << 11u32) | (v << 4u32) | (v >> 3u32)
}

/// Scale a 7-bit MIDI 1.0 control value to 32 bits (bit replication).
pub fn cc_midi1_to_midi2(v7: u8) -> (r: u32)
    ensures
        r == cc32(v7),
{
    let v = (v7 as u32) & 0x7F;
    (v << 25u32) | (v << 18u32) | (v << 11u32) | (v << 4u32) | (v >> 3u32)
}

/// Scale a 32-bit controller value to 7 bits (its top seven bits).
pub fn cc_midi2_to_midi1(v32: u32) -> (r: u8)
    ensures
        r == (v32 >> 25u32) as u8,
{
    (v32 >> 25u32) as u8
}

/// Every 7-bit controller value survives the trip to 32 bits and back.
pub proof fn lemma_cc_roundtrip(v7: u8)
    requires
        v7 < 128,
    ensures
        (cc32(v7) >> 25u32) as u8 == v7,
{
    let v = (v7 as u32) & 0x7F;
    assert((((v << 25u32) | (v << 18u32) | (v << 11u32) | (v << 4u32) | (v >> 3u32)) >> 25u32) as u8
        == v7) by (bit_vector)
        requires
            v7 < 128,
            v == (v7 as u32) & 0x7F,
    ;
}

// ─── MIDI 1.0 <-> UMP ───────────────────────────────────────────────────────

/// Word of a system real-time packet (type 1).
pub open spec fn sys_rt_word(group: u8, status: u8) -> u32 {
    (0x1u32 << 28u32) | (((group as u32) & 0x0F) << 24u32) | ((status as u32) << 16u32)
}

fn sys_rt(group: u8, status: u8) -> (r: UmpPacket)
    ensures
        r == UmpPacket::Single(sys_rt_word(group, status)),
{
    UmpPacket::Single((0x1u32 << 28u32) | (((group as u32) & 0x0F) << 24u32) | ((status as u32) << 16u32))
}

/// Word 1 bits of payload bytes `2..k` of a SysEx7 packet, byte `i` at bit `24 - 8(i-2)`.
pub open spec fn sx_tail(p: Seq<u8>, k: int) -> u32
    decreases k,
{
    if k <= 2 {
        0
    } else {
        sx_tail(p, k - 1) | ((p[k - 1] as u32) << ((24 - (k - 3) * 8) as u32))
    }
}

/// Number of payload bytes a SysEx7 packet carries (at most 6).
pub open spec fn sx_len(p: Seq<u8>) -> int {
    if p.len() < 6 {
        p.len() as int
    } else {
        6
    }
}

/// Word 0 of a SysEx7 packet: type 3, group, status nibble, byte count and
/// the first two payload bytes.
pub open spec fn sx_word0(group: u8, status: u32, p: Seq<u8>) -> u32 {
    let base = (0x3u32 << 28u32) | (((group as u32) & 0x0F) << 24u32) | (status << 20u32) | ((
    sx_len(p) as u32) << 16u32);
    let b0 = if p.len() > 0 {
        base | ((p[0] as u32) << 8u32)
    } else {
        base
    };
    if p.len() > 1 {
        b0 | (p[1] as u32)
    } else {
        b0
    }
}

/// The 64-bit SysEx7 packet for up to six payload bytes.
pub open spec fn sx_packet(group: u8, status: u32, p: Seq<u8>) -> UmpPacket {
    UmpPacket::Double([sx_word0(group, status, p), sx_tail(p, sx_len(p))])
}

/// SysEx7 status nibbles: complete, start, continue, end.
pub open spec fn sx_complete() -> u32 {
    0
}

fn sysex7_packet(group: u8, status: u32, payload: &[u8]) -> (r: UmpPacket)
    requires
        status < 4,
    ensures
        r == sx_packet(group, status, payload@),
{
    let g = (group as u32) & 0x0F;
    let len: u32 = if payload.len() < 6 {
        payload.len() as u32
    } else {
        6
    };
    let mut w0 = (0x3u32 << 28u32) | (g << 24u32) | (status << 20u32) | (len << 16u32);
    if payload.len() > 0 {
        w0 = w0 | ((payload[0] as u32) << 8u32);
    }
    if payload.len() > 1 {
        w0 = w0 | (payload[1] as u32);
    }
    let mut w1: u32 = 0;
    let mut i: usize = 2;
    while i < len as usize
        invariant
            2 <= i,
            i <= len || len < 2,
            len < 2 ==> i == 2,
            len as int == sx_len(payload@),
            len <= 6,
            i <= 6,
            w1 == sx_tail(payload@, i as int),
        decreases 6 - i,
    {
        w1 = w1 | ((payload[i] as u32) << ((24 - (i - 2) * 8) as u32));
        i = i + 1;
    }
    proof {
        if len < 2 {
            assert(sx_tail(payload@, len as int) == 0);
        }
        if len >= 2 {
            assert(i as int == len as int);
            assert(w1 == sx_tail(payload@, len as int));
        } else {
            assert(w1 == sx_tail(payload@, i as int));
            assert(i == 2);
            assert(sx_tail(payload@, 2) == 0);
        }
        assert(w1 == sx_tail(payload@, sx_len(payload@)));
        assert(w0 == sx_word0(group, status, payload@));
    }
    UmpPacket::Double([w0, w1])
}

/// The UMP packet [`ump_from_midi1`] produces for `msg` in group `group & 0xF`.
pub open spec fn ump_of(msg: MidiMessage, group: u8) -> UmpPacket {
    let g = group & 0x0F;
    match msg {
        MidiMessage::NoteOn { channel, note, velocity } => UmpPacket::Double(
            [note_word0(g, 0x90, channel, note, 0), note_word1(vel16(velocity), 0)],
        ),
        MidiMessage::NoteOff { channel, note } => UmpPacket::Double(
            [note_word0(g, 0x80, channel, note, 0), note_word1(0, 0)],
        ),
        MidiMessage::CC { channel, control, value } => UmpPacket::Double(
            [cv2_word0(g, 0x30, channel, 0, control), cc32(value)],
        ),
        MidiMessage::PitchBend { channel, value } => UmpPacket::Double(
            [cv2_word0(g, 0x60, channel, 0, 0), (unsigned14(value) * 0xFFFF_FFFF / 16383) as u32],
        ),
        MidiMessage::ProgramChange { channel, program } => UmpPacket::Double(
            [
                (0x4u32 << 28u32) | ((g as u32) << 24u32) | (0xC0u32 << 16u32) | (((channel as u32)
                    & 0x0F) << 16u32),
                (program as u32) << 24u32,
            ],
        ),
        MidiMessage::Clock => UmpPacket::Single(sys_rt_word(g, 0xF8)),
        MidiMessage::Start => UmpPacket::Single(sys_rt_word(g, 0xFA)),
        MidiMessage::Stop => UmpPacket::Single(sys_rt_word(g, 0xFC)),
        MidiMessage::Continue => UmpPacket::Single(sys_rt_word(g, 0xFB)),
        MidiMessage::ActiveSensing => UmpPacket::Single(sys_rt_word(g, 0xFE)),
        MidiMessage::SysEx(data) => if data@.len() <= 6 {
            sx_packet(g, 0, data@)
        } else {
            sx_packet(g, 1, data@.take(6))
        },
    }
}

/// The conversion does not overflow (a bend's `value + 8192` must fit an `i16`).
pub open spec fn ump_from_midi1_ok(msg: MidiMessage) -> bool {
    match msg {
        MidiMessage::PitchBend { value, .. } => value <= i16::MAX - 8192,
        _ => true,
    }
}

/// Convert a MIDI 1.0 message to a UMP packet: channel-voice messages become
/// MIDI 2.0 channel-voice packets with upscaled values, real-time messages
/// type-1 packets, SysEx a single SysEx7 packet (complete for at most six
/// bytes, else the start fragment of the first six).
pub fn ump_from_midi1(msg: &MidiMessage, group: u8) -> (r: UmpPacket)
    requires
        ump_from_midi1_ok(*msg),
    ensures
        r == ump_of(*msg, group),
{
    let g = group & 0x0F;
    match msg {
        MidiMessage::NoteOn { channel, note, velocity } => {
            UmpPacket::note_on_midi2(g, *channel, *note, velocity_midi1_to_midi2(*velocity), 0, 0)
        },
        MidiMessage::NoteOff { channel, note } => {
            UmpPacket::note_off_midi2(g, *channel, *note, 0, 0, 0)
        },
        MidiMessage::CC { channel, control, value } => {
            UmpPacket::assignable_ctrl_midi2(g, *channel, 0, *control, cc_midi1_to_midi2(*value))
        },
        MidiMessage::PitchBend { channel, value } => {
            UmpPacket::pitch_bend_midi2(g, *channel, pitch_bend_midi1_to_midi2(*value))
        },
        MidiMessage::ProgramChange { channel, program } => {
            let w0 = (0x4u32 << 28u32) | ((g as u32) << 24u32) | (0xC0u32 << 16u32) | (((
            *channel as u32) & 0x0F) << 16u32);
            let w1 = (*program as u32) << 24u32;
            UmpPacket::Double([w0, w1])
        },
        MidiMessage::Clock => sys_rt(g, 0xF8),
        MidiMessage::Start => sys_rt(g, 0xFA),
        MidiMessage::Stop => sys_rt(g, 0xFC),
        MidiMessage::Continue => sys_rt(g, 0xFB),
        MidiMessage::ActiveSensing => sys_rt(g, 0xFE),
        MidiMessage::SysEx(data) => {
            if data.len() <= 6 {
                sysex7_packet(g, 0, data.as_slice())
            } else {
                sysex7_packet(g, 1, vstd::slice::slice_subrange(data.as_slice(), 0, 6))
            }
        },
    }
}

/// Status nibble of SysEx7 packet `i` of `n`: complete, start, end or continue.
pub open spec fn sx_status(i: int, n: int) -> u32 {
    if i == 0 && n == 1 {
        0
    } else if i == 0 {
        1
    } else if i == n - 1 {
        3
    } else {
        2
    }
}

/// Number of six-byte chunks of a payload of `len` bytes.
pub open spec fn sx_chunks(len: int) -> int {
    (len + 5) / 6
}

/// Chunk `i` of a payload: bytes `6i .. min(6i + 6, len)`.
pub open spec fn sx_chunk(p: Seq<u8>, i: int) -> Seq<u8> {
    p.subrange(6 * i, if 6 * i + 6 < p.len() {
        6 * i + 6
    } else {
        p.len() as int
    })
}

/// Segment a SysEx payload into 64-bit SysEx7 packets of up to six bytes each:
/// one complete packet, or a start packet, continue packets and an end packet.
pub fn ump_sysex7_packets(payload: &[u8], group: u8) -> (r: Vec<UmpPacket>)
    ensures
        payload@.len() == 0 ==> r@ == seq![sx_packet(group, 0, Seq::empty())],
        payload@.len() > 0 ==> r@.len() == sx_chunks(payload@.len() as int) && forall|i: int|
            0 <= i < r@.len() ==> #[trigger] r@[i] == sx_packet(
                group,
                sx_status(i, sx_chunks(payload@.len() as int)),
                sx_chunk(payload@, i),
            ),
{
    if payload.len() == 0 {
        let e: &[u8] = vstd::slice::slice_subrange(payload, 0, 0);
        let p = sysex7_packet(group, 0, e);
        proof {
            assert(e@ =~= Seq::<u8>::empty());
        }
        let mut v: Vec<UmpPacket> = Vec::new();
        v.push(p);
        proof {
            assert(v@ =~= seq![sx_packet(group, 0, Seq::empty())]);
        }
        return v;
    }
    let len = payload.len();
    let n: usize = len / 6 + if len % 6 == 0 {
        0
    } else {
        1
    };
    proof {
        assert(n == sx_chunks(len as int));
    }
    let mut out: Vec<UmpPacket> = Vec::new();
    let mut i: usize = 0;
    while i < n
        invariant
            i <= n,
            len == payload@.len(),
            len > 0,
            n == sx_chunks(len as int),
            out@.len() == i,
            forall|j: int|
                0 <= j < i ==> #[trigger] out@[j] == sx_packet(group, sx_status(j, n as int), sx_chunk(payload@, j)),
        decreases n - i,
    {
        let status: u32 = if i == 0 && n == 1 {
            0
        } else if i == 0 {
            1
        } else if i == n - 1 {
            3
        } else {
            2
        };
        proof {
            assert(6 * i < len) by (nonlinear_arith)
                requires
                    i < n,
                    n == (len + 5) / 6,
            ;
        }
        let from = 6 * i;
        let to = if len - from > 6 {
            from + 6
        } else {
            len
        };
        let chunk = vstd::slice::slice_subrange(payload, from, to);
        out.push(sysex7_packet(group, status, chunk));
        i = i + 1;
    }
    out
}

/// A MIDI 1.0 channel-voice message from its status nibble and data bytes.
pub open spec fn cv_from_spec(sn: u8, ch: u8, d0: u8, d1: u8) -> Option<MidiMessage> {
    if sn == 0x90 && d1 > 0 {
        Some(MidiMessage::NoteOn { channel: ch, note: d0, velocity: d1 })
    } else if sn == 0x90 || sn == 0x80 {
        Some(MidiMessage::NoteOff { channel: ch, note: d0 })
    } else if sn == 0xB0 {
        Some(MidiMessage::CC { channel: ch, control: d0, value: d1 })
    } else if sn == 0xC0 {
        Some(MidiMessage::ProgramChange { channel: ch, program: d0 })
    } else if sn == 0xE0 {
        Some(MidiMessage::PitchBend { channel: ch, value: (((d0 as i16) | ((d1 as i16) << 7u16)) - 8192) as i16 })
    } else {
        None
    }
}

fn midi1_cv_from(sn: u8, ch: u8, d0: u8, d1: u8) -> (r: Option<MidiMessage>)
    requires
        d0 < 128,
        d1 < 128,
    ensures
        r == cv_from_spec(sn, ch, d0, d1),
{
    if sn == 0x90 && d1 > 0 {
        Some(MidiMessage::NoteOn { channel: ch, note: d0, velocity: d1 })
    } else if sn == 0x90 || sn == 0x80 {
        Some(MidiMessage::NoteOff { channel: ch, note: d0 })
    } else if sn == 0xB0 {
        Some(MidiMessage::CC { channel: ch, control: d0, value: d1 })
    } else if sn == 0xC0 {
        Some(MidiMessage::ProgramChange { channel: ch, program: d0 })
    } else if sn == 0xE0 {
        proof {
            assert(((d0 as i16) | ((d1 as i16) << 7u16)) <= 0x3FFF && ((d0 as i16) | ((d1 as i16) << 7u16)) >= 0) by (bit_vector)
                requires
                    d0 < 128,
                    d1 < 128,
            ;
        }
        Some(MidiMessage::PitchBend { channel: ch, value: ((d0 as i16) | ((d1 as i16) << 7u16)) - 8192 })
    } else {
        None
    }
}

/// The real-time message of a status byte.
pub open spec fn sys_rt_from_spec(status: u8) -> Option<MidiMessage> {
    if status == 0xF8 {
        Some(MidiMessage::Clock)
    } else if status == 0xFA {
        Some(MidiMessage::Start)
    } else if status == 0xFC {
        Some(MidiMessage::Stop)
    } else if status == 0xFB {
        Some(MidiMessage::Continue)
    } else if status == 0xFE {
        Some(MidiMessage::ActiveSensing)
    } else {
        None
    }
}

fn sys_rt_from(status: u8) -> (r: Option<MidiMessage>)
    ensures
        r == sys_rt_from_spec(status),
{
    if status == 0xF8 {
        Some(MidiMessage::Clock)
    } else if status == 0xFA {
        Some(MidiMessage::Start)
    } else if status == 0xFC {
        Some(MidiMessage::Stop)
    } else if status == 0xFB {
        Some(MidiMessage::Continue)
    } else if status == 0xFE {
        Some(MidiMessage::ActiveSensing)
    } else {
        None
    }
}

/// `pkt` is a 64-bit SysEx7 packet (type 3).
pub open spec fn is_sysex_packet(pkt: UmpPacket) -> bool {
    pkt matches UmpPacket::Double(ws) && ((ws[0] >> 28u32) as u8) == 3
}

/// The payload bytes of a SysEx7 packet: the byte count from bits 19-16,
/// bytes 0-1 from word 0 and up to four more from word 1, each as 7 bits.
pub open spec fn sx_bytes(w0: u32, w1: u32) -> Seq<u8> {
    let len = ((w0 >> 16u32) & 0x0F) as int;
    let head = if len > 0 {
        seq![((w0 >> 8u32) & 0x7F) as u8]
    } else {
        Seq::empty()
    };
    let head2 = if len > 1 {
        head.push((w0 & 0x7F) as u8)
    } else {
        head
    };
    let k = if len - 2 < 0 {
        0
    } else if len - 2 > 4 {
        4
    } else {
        len - 2
    };
    head2 + Seq::new(k as nat, |i: int| ((w1 >> ((24 - i * 8) as u32)) & 0x7F) as u8)
}

/// What [`midi1_from_ump`] gives for a packet that is not a SysEx7 packet.
pub open spec fn midi1_of(pkt: UmpPacket) -> Option<MidiMessage> {
    match pkt {
        UmpPacket::Single(w) => {
            let mt = (w >> 28u32) as u8;
            let status = ((w >> 16u32) & 0xFF) as u8;
            if mt == 2 {
                cv_from_spec(status & 0xF0, status & 0x0F, ((w >> 8u32) & 0x7F) as u8, (w & 0x7F) as u8)
            } else if mt == 1 {
                sys_rt_from_spec(status)
            } else {
                None
            }
        },
        UmpPacket::Double(ws) => {
            let mt = (ws[0] >> 28u32) as u8;
            let status = ((ws[0] >> 16u32) & 0xFF) as u8;
            let ch = status & 0x0F;
            let index0 = ((ws[0] >> 8u32) & 0xFF) as u8;
            let index1 = (ws[0] & 0xFF) as u8;
            let data32 = ws[1];
            let sn = status & 0xF0;
            if mt != 4 {
                None
            } else if sn == 0x90 {
                Some(MidiMessage::NoteOn { channel: ch, note: index0, velocity: (((data32 >> 16u32) as u16) >> 9u16) as u8 })
            } else if sn == 0x80 {
                Some(MidiMessage::NoteOff { channel: ch, note: index0 })
            } else if sn == 0x60 {
                Some(MidiMessage::PitchBend { channel: ch, value: (data32 * 16383 / 0xFFFF_FFFF - 8192) as i16 })
            } else if sn == 0x30 {
                Some(MidiMessage::CC { channel: ch, control: index1, value: (data32 >> 25u32) as u8 })
            } else if sn == 0xC0 {
                Some(MidiMessage::ProgramChange { channel: ch, program: (data32 >> 24u32) as u8 })
            } else {
                None
            }
        },
        UmpPacket::Quad(_) => None,
    }
}

/// Convert a UMP packet back to a MIDI 1.0 message where one exists; `None`
/// for packets without a MIDI 1.0 equivalent.
pub fn midi1_from_ump(pkt: &UmpPacket) -> (r: Option<MidiMessage>)
    ensures
        is_sysex_packet(*pkt) ==> (r matches Some(MidiMessage::SysEx(d)) && d@ == sx_bytes(
            pkt.words_spec()[0],
            pkt.words_spec()[1],
        )),
        !is_sysex_packet(*pkt) ==> r == midi1_of(*pkt),
{
    match pkt {
        UmpPacket::Single(w) => {
            let mt = (*w >> 28u32) as u8;
            let status = ((*w >> 16u32) & 0xFF) as u8;
            let d0 = ((*w >> 8u32) & 0x7F) as u8;
            let d1 = (*w & 0x7F) as u8;
            proof {
                assert(d0 < 128 && d1 < 128) by (bit_vector)
                    requires
                        d0 == ((*w >> 8u32) & 0x7F) as u8,
                        d1 == (*w & 0x7F) as u8,
                ;
            }
            let ch = status & 0x0F;
            if mt == 2 {
                midi1_cv_from(status & 0xF0, ch, d0, d1)
            } else if mt == 1 {
                sys_rt_from(status)
            } else {
                None
            }
        },
        UmpPacket::Double(ws) => {
            let mt = (ws[0] >> 28u32) as u8;
            let status = ((ws[0] >> 16u32) & 0xFF) as u8;
            let ch = status & 0x0F;
            let index0 = ((ws[0] >> 8u32) & 0xFF) as u8;
            let index1 = (ws[0] & 0xFF) as u8;
            let data32 = ws[1];
            if mt == 4 {
                let sn = status & 0xF0;
                if sn == 0x90 {
                    let v16 = (data32 >> 16u32) as u16;
                    Some(MidiMessage::NoteOn { channel: ch, note: index0, velocity: velocity_midi2_to_midi1(v16) })
                } else if sn == 0x80 {
                    Some(MidiMessage::NoteOff { channel: ch, note: index0 })
                } else if sn == 0x60 {
                    Some(MidiMessage::PitchBend { channel: ch, value: pitch_bend_midi2_to_midi1(data32) })
                } else if sn == 0x30 {
                    Some(MidiMessage::CC { channel: ch, control: index1, value: cc_midi2_to_midi1(data32) })
                } else if sn == 0xC0 {
                    Some(MidiMessage::ProgramChange { channel: ch, program: (data32 >> 24u32) as u8 })
                } else {
                    None
                }
            } else if mt == 3 {
                let w0 = ws[0];
                let w1 = ws[1];
                let len = ((w0 >> 16u32) & 0x0F) as usize;
                let mut data: Vec<u8> = Vec::new();
                if len > 0 {
                    data.push(((w0 >> 8u32) & 0x7F) as u8);
                }
                if len > 1 {
                    data.push((w0 & 0x7F) as u8);
                }
                let ghost head = data@;
                let k: usize = if len < 2 {
                    0
                } else if len - 2 > 4 {
                    4
                } else {
                    len - 2
                };
                let mut i: usize = 0;
                while i < k
                    invariant
                        i <= k <= 4,
                        data@ == head + Seq::new(i as nat, |j: int| ((w1 >> ((24 - j * 8) as u32)) & 0x7F) as u8),
                    decreases k - i,
                {
                    data.push(((w1 >> ((24 - i * 8) as u32)) & 0x7F) as u8);
                    proof {
                        assert(data@ =~= head + Seq::new((i + 1) as nat, |j: int| ((w1 >> ((24 - j * 8) as u32)) & 0x7F) as u8));
                    }
                    i = i + 1;
                }
                proof {
                    assert(data@ =~= sx_bytes(w0, w1));
                }
                Some(MidiMessage::SysEx(data))
            } else {
                None
            }
        },
        UmpPacket::Quad(_) => None,
    }
}

/// A MIDI 1.0 note on survives conversion to a MIDI 2.0 packet and back.
pub proof fn lemma_note_on_roundtrip(channel: u8, note: u8, velocity: u8, group: u8)
    requires
        channel < 16,
        note < 128,
        velocity < 128,
    ensures
        midi1_of(ump_of(MidiMessage::NoteOn { channel, note, velocity }, group)) == Some(
            MidiMessage::NoteOn { channel, note, velocity },
        ),
        !is_sysex_packet(ump_of(MidiMessage::NoteOn { channel, note, velocity }, group)),
{
    let g = group & 0x0F;
    let w0 = note_word0(g, 0x90, channel, note, 0);
    let w1 = note_word1(vel16(velocity), 0);
    assert((w0 >> 28u32) as u8 == 4 && ((((w0 >> 16u32) & 0xFF) as u8) & 0xF0) == 0x90 && ((((w0 >> 16u32) & 0xFF) as u8) & 0x0F) == channel
        && (((w0 >> 8u32) & 0xFF) as u8) == note) by (bit_vector)
        requires
            w0 == (0x4u32 << 28u32) | (((g as u32) & 0x0F) << 24u32) | (0x90u32 << 16u32) | (((channel as u32) & 0x0F) << 16u32) | (((note as u32) & 0x7F) << 8u32) | ((0u8 as u32) & 0xFF),
            channel < 16,
            note < 128,
    ;
    let v = (velocity as u32) & 0x7F;
    assert(((((w1 >> 16u32) as u16) >> 9u16) as u8) == velocity) by (bit_vector)
        requires
            w1 == ((((v << 9u32) | (v << 2u32) | (v >> 5u32)) as u16 as u32) << 16u32) | ((0u16 as u32) & 0xFFFF),
            v == (velocity as u32) & 0x7F,
            velocity < 128,
    ;
}

/// A MIDI 1.0 controller change survives conversion to a MIDI 2.0 packet and back.
pub proof fn lemma_cc_message_roundtrip(channel: u8, control: u8, value: u8, group: u8)
    requires
        channel < 16,
        value < 128,
    ensures
        midi1_of(ump_of(MidiMessage::CC { channel, control, value }, group)) == Some(
            MidiMessage::CC { channel, control, value },
        ),
        !is_sysex_packet(ump_of(MidiMessage::CC { channel, control, value }, group)),
{
    let g = group & 0x0F;
    let w0 = cv2_word0(g, 0x30, channel, 0, control);
    assert((w0 >> 28u32) as u8 == 4 && ((((w0 >> 16u32) & 0xFF) as u8) & 0xF0) == 0x30 && ((((w0 >> 16u32) & 0xFF) as u8) & 0x0F) == channel
        && ((w0 & 0xFF) as u8) == control) by (bit_vector)
        requires
            w0 == (0x4u32 << 28u32) | (((g as u32) & 0x0F) << 24u32) | (((0x30u8 as u32) & 0xF0) << 16u32) | (((channel as u32) & 0x0F) << 16u32) | ((0u8 as u32) << 8u32) | (control as u32),
            channel < 16,
    ;
    lemma_cc_roundtrip(value);
}

/// A MIDI 1.0 pitch bend comes back from a MIDI 2.0 packet on its channel,
/// within one step of its value.
pub proof fn lemma_pitch_bend_message_roundtrip(channel: u8, value: i16, group: u8)
    requires
        channel < 16,
        -8192 <= value <= 8191,
    ensures
        midi1_of(ump_of(MidiMessage::PitchBend { channel, value }, group)) matches Some(
            MidiMessage::PitchBend { channel: c, value: w },
        ) && c == channel && -1 <= w - value <= 1,
        !is_sysex_packet(ump_of(MidiMessage::PitchBend { channel, value }, group)),
{
    let g = group & 0x0F;
    let w0 = cv2_word0(g, 0x60, channel, 0, 0);
    assert((w0 >> 28u32) as u8 == 4 && ((((w0 >> 16u32) & 0xFF) as u8) & 0xF0) == 0x60 && ((((w0 >> 16u32) & 0xFF) as u8) & 0x0F) == channel) by (bit_vector)
        requires
            w0 == (0x4u32 << 28u32) | (((g as u32) & 0x0F) << 24u32) | (((0x60u8 as u32) & 0xF0) << 16u32) | (((channel as u32) & 0x0F) << 16u32) | ((0u8 as u32) << 8u32) | (0u8 as u32),
            channel < 16,
    ;
    lemma_pitch_bend_roundtrip(value);
    let u = unsigned14(value);
    let x = u * 0xFFFF_FFFF / 16383;
    assert(0 <= x <= 0xFFFF_FFFF) by (nonlinear_arith)
        requires
            0 <= u <= 16383,
            x == u * 0xFFFF_FFFF / 16383,
    ;
    let d = (x as u32) * 16383 / 0xFFFF_FFFF - 8192;
    assert(-8192 <= d <= 8191) by (nonlinear_arith)
        requires
            0 <= x <= 0xFFFF_FFFF,
            d == x * 16383 / 0xFFFF_FFFF - 8192,
    ;
}

/// A MIDI 1.0 note off survives conversion to a MIDI 2.0 packet and back.
pub proof fn lemma_note_off_roundtrip(channel: u8, note: u8, group: u8)
    requires
        channel < 16,
        note < 128,
    ensures
        midi1_of(ump_of(MidiMessage::NoteOff { channel, note }, group)) == Some(
            MidiMessage::NoteOff { channel, note },
        ),
        !is_sysex_packet(ump_of(MidiMessage::NoteOff { channel, note }, group)),
{
    let g = group & 0x0F;
    let w0 = note_word0(g, 0x80, channel, note, 0);
    assert((w0 >> 28u32) as u8 == 4 && ((((w0 >> 16u32) & 0xFF) as u8) & 0xF0) == 0x80 && ((((w0 >> 16u32) & 0xFF) as u8) & 0x0F) == channel
        && (((w0 >> 8u32) & 0xFF) as u8) == note) by (bit_vector)
        requires
            w0 == (0x4u32 << 28u32) | (((g as u32) & 0x0F) << 24u32) | (0x80u32 << 16u32) | (((channel as u32) & 0x0F) << 16u32) | (((note as u32) & 0x7F) << 8u32) | ((0u8 as u32) & 0xFF),
            channel < 16,
            note < 128,
    ;
}

/// A real-time clock message survives conversion to a UMP packet and back.
pub proof fn lemma_clock_roundtrip(group: u8)
    ensures
        midi1_of(ump_of(MidiMessage::Clock, group)) == Some(MidiMessage::Clock),
        !is_sysex_packet(ump_of(MidiMessage::Clock, group)),
{
    let g = group & 0x0F;
    let w = sys_rt_word(g, 0xF8);
    assert((w >> 28u32) as u8 == 1 && ((w >> 16u32) & 0xFF) as u8 == 0xF8) by (bit_vector)
        requires
            w == (0x1u32 << 28u32) | (((g as u32) & 0x0F) << 24u32) | ((0xF8u8 as u32) << 16u32),
    ;
}

/// A MIDI 1.0 program change survives conversion to a MIDI 2.0 packet and back.
pub proof fn lemma_program_change_roundtrip(channel: u8, program: u8, group: u8)
    requires
        channel < 16,
    ensures
        midi1_of(ump_of(MidiMessage::ProgramChange { channel, program }, group)) == Some(
            MidiMessage::ProgramChange { channel, program },
        ),
        !is_sysex_packet(ump_of(MidiMessage::ProgramChange { channel, program }, group)),
{
    let g = group & 0x0F;
    assert(g < 16) by (bit_vector)
        requires
            g == group & 0x0F,
    ;
    let w0 = (0x4u32 << 28u32) | ((g as u32) << 24u32) | (0xC0u32 << 16u32) | (((channel as u32) & 0x0F) << 16u32);
    let w1 = (program as u32) << 24u32;
    assert((w0 >> 28u32) as u8 == 4 && ((((w0 >> 16u32) & 0xFF) as u8) & 0xF0) == 0xC0 && ((((w0 >> 16u32) & 0xFF) as u8) & 0x0F) == channel) by (bit_vector)
        requires
            w0 == (0x4u32 << 28u32) | ((g as u32) << 24u32) | (0xC0u32 << 16u32) | (((channel as u32) & 0x0F) << 16u32),
            g < 16,
            channel < 16,
    ;
    assert(((w1 >> 24u32) as u8) == program) by (bit_vector)
        requires
            w1 == (program as u32) << 24u32,
    ;
}

/// The real-time messages with a UMP form.
pub open spec fn is_realtime(m: MidiMessage) -> bool {
    m is Clock || m is Start || m is Stop || m is Continue || m is ActiveSensing
}

/// A real-time message (clock, start, stop, continue, active sensing)
/// survives conversion to a UMP packet and back.
pub proof fn lemma_realtime_roundtrip(m: MidiMessage, group: u8)
    requires
        is_realtime(m),
    ensures
        midi1_of(ump_of(m, group)) == Some(m),
        !is_sysex_packet(ump_of(m, group)),
{
    let g = group & 0x0F;
    let st: u8 = match m {
        MidiMessage::Clock => 0xF8,
        MidiMessage::Start => 0xFA,
        MidiMessage::Stop => 0xFC,
        MidiMessage::Continue => 0xFB,
        _ => 0xFE,
    };
    let w = sys_rt_word(g, st);
    assert((w >> 28u32) as u8 == 1 && ((w >> 16u32) & 0xFF) as u8 == st) by (bit_vector)
        requires
            w == (0x1u32 << 28u32) | (((g as u32) & 0x0F) << 24u32) | ((st as u32) << 16u32),
    ;
}

/// A SysEx message of at most six 7-bit bytes survives conversion to a UMP
/// packet and back.
pub proof fn lemma_short_sysex_roundtrip(v: Vec<u8>, group: u8)
    requires
        v@.len() <= 6,
        forall|i: int| 0 <= i < v@.len() ==> #[trigger] v@[i] < 0x80,
    ensures
        is_sysex_packet(ump_of(MidiMessage::SysEx(v), group)),
        sx_bytes(
            ump_of(MidiMessage::SysEx(v), group).words_spec()[0],
            ump_of(MidiMessage::SysEx(v), group).words_spec()[1],
        ) == v@,
{
    let p = v@;
    let n = p.len() as int;
    let g = group & 0x0F;
    let b0: u8 = if n > 0 { p[0] } else { 0 };
    let b1: u8 = if n > 1 { p[1] } else { 0 };
    let b2: u8 = if n > 2 { p[2] } else { 0 };
    let b3: u8 = if n > 3 { p[3] } else { 0 };
    let b4: u8 = if n > 4 { p[4] } else { 0 };
    let b5: u8 = if n > 5 { p[5] } else { 0 };
    let nn = n as u32;
    let base = (0x3u32 << 28u32) | (((g as u32) & 0x0F) << 24u32) | (0u32 << 20u32) | (nn << 16u32);
    let w0 = sx_word0(g, 0, p);
    let w1 = sx_tail(p, sx_len(p));
    assert(sx_len(p) == n);
    assert(w0 == base | ((b0 as u32) << 8u32) | (b1 as u32)) by {
        if n == 0 {
            assert(base | ((0u8 as u32) << 8u32) | (0u8 as u32) == base) by (bit_vector);
        } else if n == 1 {
            assert((base | ((b0 as u32) << 8u32)) | (0u8 as u32) == base | ((b0 as u32) << 8u32)) by (bit_vector);
        }
    }
    reveal_with_fuel(sx_tail, 5);
    assert(w1 == ((b2 as u32) << 24u32) | ((b3 as u32) << 16u32) | ((b4 as u32) << 8u32) | (b5 as u32)) by {
        let z = 0u32;
        if n <= 2 {
            assert(((0u8 as u32) << 24u32) | ((0u8 as u32) << 16u32) | ((0u8 as u32) << 8u32) | (0u8 as u32) == 0u32) by (bit_vector);
        } else if n == 3 {
            assert(sx_tail(p, 3) == 0u32 | ((p[2] as u32) << 24u32));
            let x = p[2];
            assert((0u32 | ((x as u32) << 24u32)) == ((x as u32) << 24u32) | ((0u8 as u32) << 16u32) | ((0u8 as u32) << 8u32) | (0u8 as u32)) by (bit_vector);
        } else if n == 4 {
            let x = p[2];
            let y = p[3];
            assert(((0u32 | ((x as u32) << 24u32)) | ((y as u32) << 16u32)) == ((x as u32) << 24u32) | ((y as u32) << 16u32) | ((0u8 as u32) << 8u32) | (0u8 as u32)) by (bit_vector);
        } else if n == 5 {
            let x = p[2];
            let y = p[3];
            let z5 = p[4];
            assert((((0u32 | ((x as u32) << 24u32)) | ((y as u32) << 16u32)) | ((z5 as u32) << 8u32)) == ((x as u32) << 24u32) | ((y as u32) << 16u32) | ((z5 as u32) << 8u32) | (0u8 as u32)) by (bit_vector);
        } else {
            let x = p[2];
            let y = p[3];
            let z5 = p[4];
            let t = p[5];
            assert(((((0u32 | ((x as u32) << 24u32)) | ((y as u32) << 16u32)) | ((z5 as u32) << 8u32)) | ((t as u32) << 0u32)) == ((x as u32) << 24u32) | ((y as u32) << 16u32) | ((z5 as u32) << 8u32) | (t as u32)) by (bit_vector);
        }
    }
    assert(g < 16) by (bit_vector)
        requires
            g == group & 0x0F,
    ;
    assert({
        &&& (w0 >> 28u32) as u8 == 3
        &&& ((w0 >> 16u32) & 0x0F) == nn
        &&& ((w0 >> 8u32) & 0x7F) as u8 == b0
        &&& (w0 & 0x7F) as u8 == b1
        &&& ((w1 >> 24u32) & 0x7F) as u8 == b2
        &&& ((w1 >> 16u32) & 0x7F) as u8 == b3
        &&& ((w1 >> 8u32) & 0x7F) as u8 == b4
        &&& ((w1 >> 0u32) & 0x7F) as u8 == b5
    }) by (bit_vector)
        requires
            w0 == base | ((b0 as u32) << 8u32) | (b1 as u32),
            base == (0x3u32 << 28u32) | (((g as u32) & 0x0F) << 24u32) | (0u32 << 20u32) | (nn << 16u32),
            w1 == ((b2 as u32) << 24u32) | ((b3 as u32) << 16u32) | ((b4 as u32) << 8u32) | (b5 as u32),
            g < 16,
            nn <= 6,
            b0 < 0x80,
            b1 < 0x80,
            b2 < 0x80,
            b3 < 0x80,
            b4 < 0x80,
            b5 < 0x80,
    ;
    let k = if n - 2 < 0 {
        0
    } else {
        n - 2
    };
    let tail = Seq::new(k as nat, |i: int| ((w1 >> ((24 - i * 8) as u32)) & 0x7F) as u8);
    assert forall|i: int| 0 <= i < k implies tail[i] == p[i + 2] by {
        if i == 0 {
            assert(((24 - i * 8) as u32) == 24u32);
        } else if i == 1 {
            assert(((24 - i * 8) as u32) == 16u32);
        } else if i == 2 {
            assert(((24 - i * 8) as u32) == 8u32);
        } else {
            assert(((24 - i * 8) as u32) == 0u32);
        }
    }
    assert(sx_bytes(w0, w1) =~= p);
}

// ─── MIDI Capability Inquiry ────────────────────────────────────────────────

/// A 28-bit MIDI-CI unique identifier (four 7-bit bytes, least significant first).
#[derive(Debug, Clone, Copy, PartialEq, Eq, Structural)]
pub struct Muid(pub u32);

/// The four 7-bit bytes of `v`, least significant first.
pub open spec fn muid_bytes(v: u32) -> Seq<u8> {
    seq![(v & 0x7F) as u8, ((v >> 7u32) & 0x7F) as u8, ((v >> 14u32) & 0x7F) as u8, ((v >> 21u32) & 0x7F) as u8]
}

/// The value of four 7-bit bytes, least significant first, masked to 28 bits.
pub open spec fn muid_value(b: Seq<u8>) -> u32 {
    ((b[0] as u32) | ((b[1] as u32) << 7u32) | ((b[2] as u32) << 14u32) | ((b[3] as u32) << 21u32)) & 0x0FFF_FFFF
}

impl Muid {
    /// The broadcast MUID `0x0FFF_FFFF`.
    pub fn broadcast() -> (m: Muid)
        ensures
            m == Muid(0x0FFF_FFFF),
    {
        Muid(0x0FFF_FFFF)
    }

    /// Encode as four 7-bit bytes (least significant first) into `buf`.
    pub fn encode(&self, buf: &mut [u8; 4])
        ensures
            final(buf)@ == muid_bytes(self.0),
    {
        let v = self.0;
        buf[0] = (v & 0x7F) as u8;
        buf[1] = ((v >> 7u32) & 0x7F) as u8;
        buf[2] = ((v >> 14u32) & 0x7F) as u8;
        buf[3] = ((v >> 21u32) & 0x7F) as u8;
        proof {
            assert(buf@ =~= muid_bytes(v));
        }
    }

    /// Decode from four 7-bit bytes (least significant first).
    pub fn decode(buf: &[u8; 4]) -> (m: Muid)
        ensures
            m == Muid(muid_value(buf@)),
    {
        let v = (buf[0] as u32) | ((buf[1] as u32) << 7u32) | ((buf[2] as u32) << 14u32) | ((buf[3] as u32) << 21u32);
        Muid(v & 0x0FFF_FFFF)
    }
}

/// Any 28-bit MUID survives encoding and decoding.
pub proof fn lemma_muid_roundtrip(v: u32)
    requires
        v <= 0x0FFF_FFFF,
    ensures
        muid_value(muid_bytes(v)) == v,
{
    let b = muid_bytes(v);
    let (b0, b1, b2, b3) = (b[0], b[1], b[2], b[3]);
    assert((((b0 as u32) | ((b1 as u32) << 7u32) | ((b2 as u32) << 14u32) | ((b3 as u32) << 21u32)) & 0x0FFF_FFFF) == v) by (bit_vector)
        requires
            b0 == (v & 0x7F) as u8,
            b1 == ((v >> 7u32) & 0x7F) as u8,
            b2 == ((v >> 14u32) & 0x7F) as u8,
            b3 == ((v >> 21u32) & 0x7F) as u8,
            v <= 0x0FFF_FFFF,
    ;
}

/// MIDI-CI sub-ID#2 values.
#[derive(Debug, Clone, Copy, PartialEq, Eq, Structural)]
pub enum MidiCiSubId {
    Discovery,
    DiscoveryReply,
    InvalidateMuid,
    Nak,
    ProfileInquiry,
    ProfileInquiryReply,
    ProfileAdded,
    ProfileRemoved,
    ProfileDetails,
    ProfileDetailsReply,
    PropertyCapabilities,
    PropertyCapabilitiesReply,
    GetProperty,
    GetPropertyReply,
    SetProperty,
    SetPropertyReply,
}

impl MidiCiSubId {
    /// The sub-ID byte of each variant.
    pub open spec fn byte_spec(self) -> u8 {
        match self {
            MidiCiSubId::Discovery => 0x70u8,
            MidiCiSubId::DiscoveryReply => 0x71u8,
            MidiCiSubId::InvalidateMuid => 0x7Eu8,
            MidiCiSubId::Nak => 0x7Fu8,
            MidiCiSubId::ProfileInquiry => 0x20u8,
            MidiCiSubId::ProfileInquiryReply => 0x21u8,
            MidiCiSubId::ProfileAdded => 0x26u8,
            MidiCiSubId::ProfileRemoved => 0x27u8,
            MidiCiSubId::ProfileDetails => 0x28u8,
            MidiCiSubId::ProfileDetailsReply => 0x29u8,
            MidiCiSubId::PropertyCapabilities => 0x30u8,
            MidiCiSubId::PropertyCapabilitiesReply => 0x31u8,
            MidiCiSubId::GetProperty => 0x34u8,
            MidiCiSubId::GetPropertyReply => 0x35u8,
            MidiCiSubId::SetProperty => 0x38u8,
            MidiCiSubId::SetPropertyReply => 0x39u8,
        }
    }

    /// The variant with sub-ID byte `b`, if any.
    pub open spec fn of_byte(b: u8) -> Option<MidiCiSubId> {
        if b == 0x70 { Some(MidiCiSubId::Discovery) } else if b == 0x71 { Some(MidiCiSubId::DiscoveryReply) } else if b == 0x7E { Some(MidiCiSubId::InvalidateMuid) } else if b == 0x7F { Some(MidiCiSubId::Nak) } else if b == 0x20 { Some(MidiCiSubId::ProfileInquiry) } else if b == 0x21 { Some(MidiCiSubId::ProfileInquiryReply) } else if b == 0x26 { Some(MidiCiSubId::ProfileAdded) } else if b == 0x27 { Some(MidiCiSubId::ProfileRemoved) } else if b == 0x28 { Some(MidiCiSubId::ProfileDetails) } else if b == 0x29 { Some(MidiCiSubId::ProfileDetailsReply) } else if b == 0x30 { Some(MidiCiSubId::PropertyCapabilities) } else if b == 0x31 { Some(MidiCiSubId::PropertyCapabilitiesReply) } else if b == 0x34 { Some(MidiCiSubId::GetProperty) } else if b == 0x35 { Some(MidiCiSubId::GetPropertyReply) } else if b == 0x38 { Some(MidiCiSubId::SetProperty) } else if b == 0x39 { Some(MidiCiSubId::SetPropertyReply) } else { None }
    }

    pub fn from_byte(b: u8) -> (r: Option<MidiCiSubId>)
        ensures
            r == Self::of_byte(b),
    {
        if b == 0x70 { Some(MidiCiSubId::Discovery) } else if b == 0x71 { Some(MidiCiSubId::DiscoveryReply) } else if b == 0x7E { Some(MidiCiSubId::InvalidateMuid) } else if b == 0x7F { Some(MidiCiSubId::Nak) } else if b == 0x20 { Some(MidiCiSubId::ProfileInquiry) } else if b == 0x21 { Some(MidiCiSubId::ProfileInquiryReply) } else if b == 0x26 { Some(MidiCiSubId::ProfileAdded) } else if b == 0x27 { Some(MidiCiSubId::ProfileRemoved) } else if b == 0x28 { Some(MidiCiSubId::ProfileDetails) } else if b == 0x29 { Some(MidiCiSubId::ProfileDetailsReply) } else if b == 0x30 { Some(MidiCiSubId::PropertyCapabilities) } else if b == 0x31 { Some(MidiCiSubId::PropertyCapabilitiesReply) } else if b == 0x34 { Some(MidiCiSubId::GetProperty) } else if b == 0x35 { Some(MidiCiSubId::GetPropertyReply) } else if b == 0x38 { Some(MidiCiSubId::SetProperty) } else if b == 0x39 { Some(MidiCiSubId::SetPropertyReply) } else { None }
    }

    /// The sub-ID byte.
    pub fn to_byte(self) -> (r: u8)
        ensures
            r == self.byte_spec(),
    {
        match self {
            MidiCiSubId::Discovery => 0x70,
            MidiCiSubId::DiscoveryReply => 0x71,
            MidiCiSubId::InvalidateMuid => 0x7E,
            MidiCiSubId::Nak => 0x7F,
            MidiCiSubId::ProfileInquiry => 0x20,
            MidiCiSubId::ProfileInquiryReply => 0x21,
            MidiCiSubId::ProfileAdded => 0x26,
            MidiCiSubId::ProfileRemoved => 0x27,
            MidiCiSubId::ProfileDetails => 0x28,
            MidiCiSubId::ProfileDetailsReply => 0x29,
            MidiCiSubId::PropertyCapabilities => 0x30,
            MidiCiSubId::PropertyCapabilitiesReply => 0x31,
            MidiCiSubId::GetProperty => 0x34,
            MidiCiSubId::GetPropertyReply => 0x35,
            MidiCiSubId::SetProperty => 0x38,
            MidiCiSubId::SetPropertyReply => 0x39,
        }
    }
}

/// Reading the byte of any sub-ID gives the sub-ID back.
pub proof fn lemma_sub_id_roundtrip(s: MidiCiSubId)
    ensures
        MidiCiSubId::of_byte(s.byte_spec()) == Some(s),
{
}

/// A MIDI-CI message: the universal SysEx header with sub-ID 0x0D, then payload.
#[derive(Debug, Clone, PartialEq, Eq)]
pub struct MidiCiMessage {
    pub version: u8,
    pub source_muid: Muid,
    pub destination_muid: Muid,
    pub sub_id: MidiCiSubId,
    /// Payload bytes after the 13-byte CI header.
    pub payload: Vec<u8>,
}

/// The 28-bit value as four 7-bit bytes, least significant first.
pub open spec fn size_bytes(n: u32) -> Seq<u8> {
    Seq::new(4, |i: int| ((n >> ((7 * i) as u32)) & 0x7F) as u8)
}

fn push_all(out: &mut Vec<u8>, src: &[u8])
    ensures
        final(out)@ == old(out)@ + src@,
{
    let mut i: usize = 0;
    while i < src.len()
        invariant
            i <= src@.len(),
            out@ == old(out)@ + src@.take(i as int),
        decreases src@.len() - i,
    {
        out.push(src[i]);
        proof {
            assert(src@.take(i as int + 1) =~= src@.take(i as int).push(src@[i as int]));
        }
        i = i + 1;
    }
    proof {
        assert(src@.take(src@.len() as int) =~= src@);
    }
}

impl MidiCiMessage {
    /// Sub-ID#1 of MIDI-CI messages.
    pub const CI_SUB_ID1: u8 = 0x0D;

    /// The bytes [`MidiCiMessage::encode`] produces: `7E 7F 0D`, sub-ID, version,
    /// source and destination MUIDs, payload.
    pub open spec fn encode_spec(self) -> Seq<u8> {
        seq![0x7Eu8, 0x7Fu8, 0x0Du8, self.sub_id.byte_spec(), self.version] + muid_bytes(self.source_muid.0)
            + muid_bytes(self.destination_muid.0) + self.payload@
    }

    /// Build a discovery message from `source` to the broadcast MUID; the payload
    /// is manufacturer, family, member, version, categories and the maximum
    /// SysEx size as four 7-bit bytes.
    pub fn discovery(
        source: Muid,
        manufacturer: [u8; 3],
        family: [u8; 2],
        family_member: [u8; 2],
        version: [u8; 4],
        ci_categories: u8,
        receivable_max_sysex_size: u32,
    ) -> (m: MidiCiMessage)
        ensures
            m.version == 2,
            m.source_muid == source,
            m.destination_muid == Muid(0x0FFF_FFFF),
            m.sub_id == MidiCiSubId::Discovery,
            m.payload@ == manufacturer@ + family@ + family_member@ + version@ + seq![ci_categories]
                + size_bytes(receivable_max_sysex_size),
    {
        let mut payload: Vec<u8> = Vec::new();
        push_all(&mut payload, manufacturer.as_slice());
        push_all(&mut payload, family.as_slice());
        push_all(&mut payload, family_member.as_slice());
        push_all(&mut payload, version.as_slice());
        payload.push(ci_categories);
        let ghost head = payload@;
        let mut i: u32 = 0;
        while i < 4
            invariant
                i <= 4,
                payload@ == head + size_bytes(receivable_max_sysex_size).take(i as int),
            decreases 4 - i,
        {
            payload.push(((receivable_max_sysex_size >> (7 * i)) & 0x7F) as u8);
            proof {
                assert(size_bytes(receivable_max_sysex_size).take(i as int + 1) =~= size_bytes(receivable_max_sysex_size).take(i as int).push(((receivable_max_sysex_size >> (7 * i)) & 0x7F) as u8));
            }
            i = i + 1;
        }
        proof {
            assert(size_bytes(receivable_max_sysex_size).take(4) =~= size_bytes(receivable_max_sysex_size));
        }
        MidiCiMessage {
            version: 2,
            source_muid: source,
            destination_muid: Muid::broadcast(),
            sub_id: MidiCiSubId::Discovery,
            payload,
        }
    }

    /// Encode to SysEx bytes (without `F0`/`F7` framing).
    pub fn encode(&self) -> (out: Vec<u8>)
        ensures
            out@ == self.encode_spec(),
    {
        let mut out: Vec<u8> = Vec::new();
        out.push(0x7E);
        out.push(0x7F);
        out.push(Self::CI_SUB_ID1);
        out.push(self.sub_id.to_byte());
        out.push(self.version);
        let mut src = [0u8; 4];
        self.source_muid.encode(&mut src);
        let mut dst = [0u8; 4];
        self.destination_muid.encode(&mut dst);
        push_all(&mut out, src.as_slice());
        push_all(&mut out, dst.as_slice());
        push_all(&mut out, self.payload.as_slice());
        proof {
            assert(out@ =~= self.encode_spec());
        }
        out
    }

    /// Parse SysEx bytes (after `F0`, starting with `7E`): `None` if shorter
    /// than the 13-byte header, if byte 0 is not `7E`, byte 2 not `0D`, or the
    /// sub-ID is unknown.
    pub fn parse(bytes: &[u8]) -> (r: Option<MidiCiMessage>)
        ensures
            match r {
                Some(m) => bytes@.len() >= 13 && bytes@[0] == 0x7E && bytes@[2] == 0x0D
                    && MidiCiSubId::of_byte(bytes@[3]) == Some(m.sub_id) && m.version == bytes@[4]
                    && m.source_muid == Muid(muid_value(bytes@.subrange(5, 9)))
                    && m.destination_muid == Muid(muid_value(bytes@.subrange(9, 13)))
                    && m.payload@ == bytes@.skip(13),
                None => !(bytes@.len() >= 13 && bytes@[0] == 0x7E && bytes@[2] == 0x0D
                    && MidiCiSubId::of_byte(bytes@[3]) is Some),
            },
    {
        if bytes.len() < 13 {
            return None;
        }
        if bytes[0] != 0x7E {
            return None;
        }
        if bytes[2] != Self::CI_SUB_ID1 {
            return None;
        }
        let sub_id = match MidiCiSubId::from_byte(bytes[3]) {
            Some(s) => s,
            None => {
                return None;
            },
        };
        let version = bytes[4];
        let src_bytes = [bytes[5], bytes[6], bytes[7], bytes[8]];
        let dst_bytes = [bytes[9], bytes[10], bytes[11], bytes[12]];
        proof {
            assert(src_bytes@ =~= bytes@.subrange(5, 9));
            assert(dst_bytes@ =~= bytes@.subrange(9, 13));
        }
        let mut payload: Vec<u8> = Vec::new();
        let mut i: usize = 13;
        while i < bytes.len()
            invariant
                13 <= i <= bytes@.len(),
                payload@ == bytes@.subrange(13, i as int),
            decreases bytes@.len() - i,
        {
            payload.push(bytes[i]);
            proof {
                assert(bytes@.subrange(13, i as int + 1) =~= bytes@.subrange(13, i as int).push(bytes@[i as int]));
            }
            i = i + 1;
        }
        proof {
            assert(bytes@.subrange(13, bytes@.len() as int) =~= bytes@.skip(13));
        }
        Some(MidiCiMessage {
            version,
            source_muid: Muid::decode(&src_bytes),
            destination_muid: Muid::decode(&dst_bytes),
            sub_id,
            payload,
        })
    }

    /// The encoded message as a SysEx MIDI message.
    pub fn to_sysex(&self) -> (r: MidiMessage)
        ensures
            r matches MidiMessage::SysEx(d) && d@ == self.encode_spec(),
    {
        MidiMessage::SysEx(self.encode())
    }
}

/// Parsing an encoded message gives back its sub-ID, version, payload, and
/// its MUIDs (each to 28 bits).
pub proof fn lemma_ci_roundtrip(m: MidiCiMessage)
    requires
        m.source_muid.0 <= 0x0FFF_FFFF,
        m.destination_muid.0 <= 0x0FFF_FFFF,
    ensures
        m.encode_spec().len() >= 13,
        m.encode_spec()[0] == 0x7E,
        m.encode_spec()[2] == 0x0D,
        MidiCiSubId::of_byte(m.encode_spec()[3]) == Some(m.sub_id),
        m.encode_spec()[4] == m.version,
        muid_value(m.encode_spec().subrange(5, 9)) == m.source_muid.0,
        muid_value(m.encode_spec().subrange(9, 13)) == m.destination_muid.0,
        m.encode_spec().skip(13) == m.payload@,
{
    let e = m.encode_spec();
    lemma_sub_id_roundtrip(m.sub_id);
    assert(e.subrange(5, 9) =~= muid_bytes(m.source_muid.0));
    assert(e.subrange(9, 13) =~= muid_bytes(m.destination_muid.0));
    assert(e.skip(13) =~= m.payload@);
    lemma_muid_roundtrip(m.source_muid.0);
    lemma_muid_roundtrip(m.destination_muid.0);
}

// ─── UMP byte streams ───────────────────────────────────────────────────────

/// Big-endian bytes of a word.
pub open spec fn be_bytes(w: u32) -> Seq<u8> {
    seq![
        (w / 0x100_0000) as u8,
        ((w / 0x1_0000) % 0x100) as u8,
        ((w / 0x100) % 0x100) as u8,
        (w % 0x100) as u8,
    ]
}

/// The big-endian word at byte offset `i`.
pub open spec fn be_word(b: Seq<u8>, i: int) -> u32 {
    ((b[i] as int) * 0x100_0000 + (b[i + 1] as int) * 0x1_0000 + (b[i + 2] as int) * 0x100 + (b[i
        + 3] as int)) as u32
}

/// Big-endian bytes of a sequence of words.
pub open spec fn words_bytes(ws: Seq<u32>) -> Seq<u8>
    decreases ws.len(),
{
    if ws.len() == 0 {
        Seq::empty()
    } else {
        words_bytes(ws.drop_last()) + be_bytes(ws.last())
    }
}

/// The byte stream of a sequence of packets.
pub open spec fn stream_bytes(ps: Seq<UmpPacket>) -> Seq<u8>
    decreases ps.len(),
{
    if ps.len() == 0 {
        Seq::empty()
    } else {
        stream_bytes(ps.drop_last()) + words_bytes(ps.last().words_spec())
    }
}

/// The `n` big-endian words starting at byte offset `i`.
pub open spec fn words_at(b: Seq<u8>, i: int, n: int) -> Seq<u32> {
    Seq::new(n as nat, |j: int| be_word(b, i + 4 * j))
}

/// The packets read from byte offset `i` on: one packet per whole word group
/// (its size given by the type of its first word), stopping at the first
/// group that does not fit.
pub open spec fn parse_from(b: Seq<u8>, i: int) -> Seq<UmpPacket>
    decreases b.len() - i,
{
    if i < 0 || i + 3 >= b.len() {
        Seq::empty()
    } else {
        let n = type_of_word(be_word(b, i)).words_spec();
        if i + 4 * n > b.len() {
            Seq::empty()
        } else {
            match UmpPacket::from_words_spec(words_at(b, i, n)) {
                Some(p) => seq![p] + parse_from(b, i + 4 * n),
                None => parse_from(b, i + 4 * n),
            }
        }
    }
}

fn read_be(bytes: &[u8], i: usize) -> (w: u32)
    requires
        i + 3 < bytes@.len(),
    ensures
        w == be_word(bytes@, i as int),
{
    (bytes[i] as u32) * 0x100_0000 + (bytes[i + 1] as u32) * 0x1_0000 + (bytes[i + 2] as u32) * 0x100
        + (bytes[i + 3] as u32)
}

/// A packet holds as many words as the type of its first word calls for.
pub open spec fn well_sized(p: UmpPacket) -> bool {
    p.words_spec().len() == type_of_word(p.words_spec()[0]).words_spec()
}

proof fn lemma_be_word_of_bytes(w: u32)
    ensures
        be_word(be_bytes(w), 0) == w,
{
    let b = be_bytes(w);
    assert((w / 0x100_0000) * 0x100_0000 + ((w / 0x1_0000) % 0x100) * 0x1_0000 + ((w / 0x100) % 0x100) * 0x100 + (w % 0x100) == w) by (bit_vector);
    assert(w / 0x100_0000 < 0x100);
    assert(b[0] as int == w / 0x100_0000);
    assert(b[1] as int == (w / 0x1_0000) % 0x100);
    assert(b[2] as int == (w / 0x100) % 0x100);
    assert(b[3] as int == w % 0x100);
}

proof fn lemma_words_bytes_index(ws: Seq<u32>)
    ensures
        words_bytes(ws).len() == 4 * ws.len(),
        forall|i: int| 0 <= i < 4 * ws.len() ==> #[trigger] words_bytes(ws)[i] == be_bytes(ws[i / 4])[i % 4],
    decreases ws.len(),
{
    if ws.len() > 0 {
        let init = ws.drop_last();
        lemma_words_bytes_index(init);
        let n = init.len();
        assert forall|i: int| 0 <= i < 4 * ws.len() implies #[trigger] words_bytes(ws)[i] == be_bytes(ws[i / 4])[i % 4] by {
            if i < 4 * n {
                assert(words_bytes(ws)[i] == words_bytes(init)[i]);
                assert(ws[i / 4] == init[i / 4]);
            } else {
                assert(words_bytes(ws)[i] == be_bytes(ws.last())[i - 4 * n]);
                assert(i / 4 == n);
            }
        }
    }
}

/// The words of `ws`, written big-endian at the front of a stream, read back.
proof fn lemma_words_read_back(ws: Seq<u32>, rest: Seq<u8>)
    ensures
        forall|j: int| 0 <= j < ws.len() ==> #[trigger] be_word(words_bytes(ws) + rest, 4 * j) == ws[j],
{
    lemma_words_bytes_index(ws);
    let b = words_bytes(ws) + rest;
    assert forall|j: int| 0 <= j < ws.len() implies #[trigger] be_word(b, 4 * j) == ws[j] by {
        lemma_be_word_of_bytes(ws[j]);
        assert(b[4 * j] == be_bytes(ws[j])[0]);
        assert(b[4 * j + 1] == be_bytes(ws[j])[1]);
        assert(b[4 * j + 2] == be_bytes(ws[j])[2]);
        assert(b[4 * j + 3] == be_bytes(ws[j])[3]);
    }
}

proof fn lemma_stream_front(ps: Seq<UmpPacket>)
    requires
        ps.len() >= 1,
    ensures
        stream_bytes(ps) == words_bytes(ps[0].words_spec()) + stream_bytes(ps.drop_first()),
    decreases ps.len(),
{
    if ps.len() == 1 {
        assert(ps.drop_last() =~= Seq::<UmpPacket>::empty());
        assert(ps.drop_first() =~= Seq::<UmpPacket>::empty());
        assert(stream_bytes(ps) =~= words_bytes(ps[0].words_spec()) + stream_bytes(ps.drop_first()));
    } else {
        lemma_stream_front(ps.drop_last());
        assert(ps.drop_last().drop_first() =~= ps.drop_first().drop_last());
        assert(ps.drop_first().last() == ps.last());
        assert(stream_bytes(ps) =~= words_bytes(ps[0].words_spec()) + stream_bytes(ps.drop_first()));
    }
}

proof fn lemma_parse_shift(pre: Seq<u8>, b: Seq<u8>, i: int)
    requires
        i >= 0,
    ensures
        parse_from(pre + b, pre.len() + i) == parse_from(b, i),
    decreases b.len() - i,
{
    let c = pre + b;
    let k = pre.len() + i;
    if i + 3 < b.len() {
        assert(be_word(c, k) == be_word(b, i)) by {
            assert(c[k] == b[i] && c[k + 1] == b[i + 1] && c[k + 2] == b[i + 2] && c[k + 3] == b[i + 3]);
        }
        let n = type_of_word(be_word(b, i)).words_spec();
        if i + 4 * n <= b.len() {
            assert(words_at(c, k, n) =~= words_at(b, i, n)) by {
                assert forall|j: int| 0 <= j < n implies #[trigger] words_at(c, k, n)[j] == words_at(b, i, n)[j] by {
                    assert(c[k + 4 * j] == b[i + 4 * j]);
                    assert(c[k + 4 * j + 1] == b[i + 4 * j + 1]);
                    assert(c[k + 4 * j + 2] == b[i + 4 * j + 2]);
                    assert(c[k + 4 * j + 3] == b[i + 4 * j + 3]);
                }
            }
            lemma_parse_shift(pre, b, i + 4 * n);
        }
    }
}

proof fn lemma_from_own_words(p: UmpPacket)
    requires
        well_sized(p),
    ensures
        UmpPacket::from_words_spec(p.words_spec()) == Some(p),
{
    let ws = p.words_spec();
    match p {
        UmpPacket::Single(w) => {
            assert(ws[0] == w);
            assert(ws.len() == 1);
            assert(type_of_word(ws[0]).words_spec() == 1);
            assert(UmpPacket::from_words_spec(ws) == Some(UmpPacket::Single(ws[0])));
        },
        UmpPacket::Double(a) => {
            assert(ws[0] == a[0] && ws[1] == a[1]);
            assert([ws[0], ws[1]] =~= a);
        },
        UmpPacket::Quad(a) => {
            assert(ws[0] == a[0] && ws[1] == a[1] && ws[2] == a[2] && ws[3] == a[3]);
            assert([ws[0], ws[1], ws[2], ws[3]] =~= a);
        },
    }
}

proof fn lemma_words_at_front(ws: Seq<u32>, rest: Seq<u8>)
    ensures
        (words_bytes(ws) + rest).len() == 4 * ws.len() + rest.len(),
        words_at(words_bytes(ws) + rest, 0, ws.len() as int) == ws,
{
    lemma_words_bytes_index(ws);
    lemma_words_read_back(ws, rest);
    let s = words_bytes(ws) + rest;
    let n = ws.len() as int;
    assert forall|j: int| 0 <= j < n implies #[trigger] words_at(s, 0, n)[j] == ws[j] by {
        assert(be_word(s, 4 * j) == ws[j]);
    }
    assert(words_at(s, 0, n) =~= ws);
}

proof fn lemma_parse_first(p: UmpPacket, rest: Seq<u8>)
    requires
        well_sized(p),
    ensures
        parse_from(words_bytes(p.words_spec()) + rest, 0) == seq![p] + parse_from(rest, 0),
{
    let ws = p.words_spec();
    let s = words_bytes(ws) + rest;
    let n = ws.len() as int;
    lemma_words_at_front(ws, rest);
    lemma_from_own_words(p);
    assert(words_at(s, 0, n)[0] == be_word(s, 0));
    assert(be_word(s, 0) == ws[0]);
    lemma_parse_shift(words_bytes(ws), rest, 0);
    assert(words_bytes(ws).len() == 4 * n);
    assert(parse_from(s, 4 * n) == parse_from(rest, 0));
}

/// Parsing the byte stream of well-sized packets gives the packets back.
pub proof fn lemma_stream_roundtrip(ps: Seq<UmpPacket>)
    requires
        forall|k: int| 0 <= k < ps.len() ==> well_sized(#[trigger] ps[k]),
    ensures
        parse_from(stream_bytes(ps), 0) == ps,
    decreases ps.len(),
{
    if ps.len() > 0 {
        let tail = ps.drop_first();
        lemma_stream_front(ps);
        assert forall|k: int| 0 <= k < tail.len() implies well_sized(#[trigger] tail[k]) by {
            assert(tail[k] == ps[k + 1]);
        }
        lemma_stream_roundtrip(tail);
        lemma_parse_first(ps[0], stream_bytes(tail));
        assert(seq![ps[0]] + tail =~= ps);
    } else {
        assert(stream_bytes(ps) =~= Seq::<u8>::empty());
    }
}

/// Parse a big-endian byte stream into packets, four bytes per word.
pub fn parse_ump_stream(bytes: &[u8]) -> (r: Vec<UmpPacket>)
    ensures
        r@ == parse_from(bytes@, 0),
{
    let mut packets: Vec<UmpPacket> = Vec::new();
    let mut i: usize = 0;
    let mut done = false;
    while !done && bytes.len() - i > 3
        invariant
            i <= bytes@.len(),
            packets@ + parse_from(bytes@, i as int) == parse_from(bytes@, 0),
            done ==> parse_from(bytes@, i as int) == Seq::<UmpPacket>::empty(),
        decreases bytes@.len() - i, if done { 0int } else { 1int },
    {
        let w = read_be(bytes, i);
        let mt = UmpMessageType::from_nibble((w >> 28u32) as u8);
        let wc = mt.word_count();
        let needed = wc * 4;
        if needed > bytes.len() - i {
            proof {
                assert(parse_from(bytes@, i as int) =~= Seq::<UmpPacket>::empty());
            }
            done = true;
        } else {
            let mut words: Vec<u32> = Vec::new();
            let mut j: usize = 0;
            while j < wc
                invariant
                    j <= wc <= 4,
                    i + 4 * wc <= bytes@.len(),
                    bytes@.len() <= usize::MAX,
                    words@ == words_at(bytes@, i as int, j as int),
                decreases wc - j,
            {
                assert(i + j * 4 + 3 < bytes@.len());
                words.push(read_be(bytes, i + j * 4));
                proof {
                    assert(words@ =~= words_at(bytes@, i as int, j as int + 1));
                }
                j = j + 1;
            }
            let ghost before = packets@;
            match UmpPacket::from_words(words.as_slice()) {
                Some(pkt) => {
                    packets.push(pkt);
                    proof {
                        assert(packets@ + parse_from(bytes@, i + needed) =~= before + parse_from(bytes@, i as int));
                    }
                },
                None => {},
            }
            i = i + needed;
        }
    }
    proof {
        if !done {
            assert(parse_from(bytes@, i as int) =~= Seq::<UmpPacket>::empty());
        }
        assert(packets@ + parse_from(bytes@, i as int) =~= packets@);
    }
    packets
}

/// Encode packets as a big-endian byte stream.
pub fn encode_ump_stream(packets: &[UmpPacket]) -> (out: Vec<u8>)
    ensures
        out@ == stream_bytes(packets@),
{
    let mut out: Vec<u8> = Vec::new();
    let mut k: usize = 0;
    while k < packets.len()
        invariant
            k <= packets@.len(),
            out@ == stream_bytes(packets@.take(k as int)),
        decreases packets@.len() - k,
    {
        let ws = packets[k].words();
        let ghost base = out@;
        let mut j: usize = 0;
        while j < ws.len()
            invariant
                j <= ws@.len(),
                out@ == base + words_bytes(ws@.take(j as int)),
            decreases ws@.len() - j,
        {
            let w = ws[j];
            out.push((w / 0x100_0000) as u8);
            out.push(((w / 0x1_0000) % 0x100) as u8);
            out.push(((w / 0x100) % 0x100) as u8);
            out.push((w % 0x100) as u8);
            proof {
                assert(ws@.take(j as int + 1).drop_last() =~= ws@.take(j as int));
                assert(out@ =~= base + words_bytes(ws@.take(j as int + 1)));
            }
            j = j + 1;
        }
        proof {
            assert(ws@.take(ws@.len() as int) =~= ws@);
            assert(packets@.take(k as int + 1).drop_last() =~= packets@.take(k as int));
        }
        k = k + 1;
    }
    proof {
        assert(packets@.take(packets@.len() as int) =~= packets@);
    }
    out
}

} // verus!
