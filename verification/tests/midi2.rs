use seqterm::midi::MidiMessage;
use seqterm::midi2::{
    cc_midi1_to_midi2, cc_midi2_to_midi1, encode_ump_stream, midi1_from_ump, parse_ump_stream,
    pitch_bend_midi1_to_midi2, pitch_bend_midi2_to_midi1, ump_from_midi1, ump_sysex7_packets,
    velocity_midi1_to_midi2, velocity_midi2_to_midi1, MidiCiMessage, MidiCiSubId, Muid,
    UmpMessageType, UmpPacket,
};

#[test]
fn velocity_scaling_roundtrip() {
    for v7 in 0u8..=127 {
        let v16 = velocity_midi1_to_midi2(v7);
        let back = velocity_midi2_to_midi1(v16);
        assert_eq!(back, v7, "velocity roundtrip failed for {v7}");
    }
}

#[test]
fn pitch_bend_scaling_roundtrip() {
    for pb in [-8192i16, -4096, 0, 4095, 8191] {
        let v32 = pitch_bend_midi1_to_midi2(pb);
        let back = pitch_bend_midi2_to_midi1(v32);
        assert!((back - pb).abs() <= 1, "pb roundtrip failed for {pb}: got {back}");
    }
}

#[test]
fn cc_scaling_roundtrip() {
    for v in 0u8..=127 {
        let v32 = cc_midi1_to_midi2(v);
        let back = cc_midi2_to_midi1(v32);
        assert_eq!(back, v, "cc roundtrip failed for {v}");
    }
}

#[test]
fn note_on_midi1_to_ump_and_back() {
    let msg = MidiMessage::NoteOn { channel: 1, note: 60, velocity: 100 };
    let pkt = ump_from_midi1(&msg, 0);
    assert_eq!(pkt.message_type(), UmpMessageType::Midi2ChannelVoice);
    let back = midi1_from_ump(&pkt).unwrap();
    match back {
        MidiMessage::NoteOn { channel, note, velocity } => {
            assert_eq!(channel, 1);
            assert_eq!(note, 60);
            assert_eq!(velocity, 100);
        }
        other => panic!("expected NoteOn, got {other:?}"),
    }
}

#[test]
fn note_off_midi1_to_ump_and_back() {
    let msg = MidiMessage::NoteOff { channel: 2, note: 48 };
    let pkt = ump_from_midi1(&msg, 0);
    let back = midi1_from_ump(&pkt).unwrap();
    match back {
        MidiMessage::NoteOff { channel, note } => {
            assert_eq!(channel, 2);
            assert_eq!(note, 48);
        }
        other => panic!("expected NoteOff, got {other:?}"),
    }
}

#[test]
fn pitch_bend_midi1_to_ump_and_back() {
    let msg = MidiMessage::PitchBend { channel: 0, value: 4096 };
    let pkt = ump_from_midi1(&msg, 0);
    let back = midi1_from_ump(&pkt).unwrap();
    match back {
        MidiMessage::PitchBend { value, .. } => {
            assert!((value - 4096).abs() <= 1);
        }
        other => panic!("expected PitchBend, got {other:?}"),
    }
}

#[test]
fn sys_rt_clock_roundtrip() {
    let pkt = ump_from_midi1(&MidiMessage::Clock, 0);
    assert_eq!(pkt.message_type(), UmpMessageType::SystemRealTime);
    assert_eq!(midi1_from_ump(&pkt), Some(MidiMessage::Clock));
}

#[test]
fn cc_midi1_to_ump_and_back() {
    let msg = MidiMessage::CC { channel: 3, control: 74, value: 64 };
    let pkt = ump_from_midi1(&msg, 0);
    let back = midi1_from_ump(&pkt).unwrap();
    match back {
        MidiMessage::CC { channel, control, value } => {
            assert_eq!(channel, 3);
            assert_eq!(control, 74);
            assert_eq!(value, 64);
        }
        other => panic!("expected CC, got {other:?}"),
    }
}

#[test]
fn sysex_midi1_to_ump_and_back() {
    let payload = vec![0x41, 0x10, 0x42, 0x12];
    let msg = MidiMessage::SysEx(payload.clone());
    let pkt = ump_from_midi1(&msg, 0);
    assert_eq!(pkt.message_type(), UmpMessageType::Data64);
    let back = midi1_from_ump(&pkt).unwrap();
    match back {
        MidiMessage::SysEx(data) => assert_eq!(&data, &payload),
        other => panic!("expected SysEx, got {other:?}"),
    }
}

#[test]
fn ump_stream_encode_decode_roundtrip() {
    let packets = vec![
        ump_from_midi1(&MidiMessage::NoteOn { channel: 0, note: 60, velocity: 80 }, 0),
        ump_from_midi1(&MidiMessage::Clock, 0),
    ];
    let bytes = encode_ump_stream(&packets);
    let decoded = parse_ump_stream(&bytes);
    assert_eq!(decoded, packets);
}

#[test]
fn muid_encode_decode_roundtrip() {
    let muid = Muid(0x0123_4567);
    let mut buf = [0u8; 4];
    muid.encode(&mut buf);
    let back = Muid::decode(&buf);
    assert_eq!(back, muid);
}

#[test]
fn muid_broadcast_value() {
    assert_eq!(Muid::broadcast().0, 0x0FFF_FFFF);
}

#[test]
fn midi_ci_discovery_parse_roundtrip() {
    let src = Muid(0x1234);
    let ci = MidiCiMessage::discovery(
        src,
        [0x41, 0x00, 0x00],
        [0x01, 0x00],
        [0x01, 0x00],
        [0x01, 0x00, 0x00, 0x00],
        0x7F,
        512,
    );
    let encoded = ci.encode();
    let parsed = MidiCiMessage::parse(&encoded).unwrap();
    assert_eq!(parsed.sub_id, MidiCiSubId::Discovery);
    assert_eq!(parsed.source_muid, src);
    assert_eq!(parsed.destination_muid, Muid::broadcast());
    assert_eq!(parsed.payload, ci.payload);
}

#[test]
fn midi2_note_on_packet_structure() {
    let pkt = UmpPacket::note_on_midi2(0, 1, 60, 0xC800, 0, 0);
    let UmpPacket::Double(ws) = pkt else { panic!("expected Double") };
    assert_eq!((ws[0] >> 28) & 0xF, 0x4);
    assert_eq!((ws[0] >> 16) & 0xFF, 0x91);
    assert_eq!((ws[0] >> 8) & 0x7F, 60);
    assert_eq!((ws[1] >> 16) as u16, 0xC800);
}

#[test]
fn sysex_segmentation_statuses() {
    let payload: Vec<u8> = (0u8..14).collect();
    let pkts = ump_sysex7_packets(&payload, 2);
    assert_eq!(pkts.len(), 3);
    let statuses: Vec<u32> = pkts.iter().map(|p| (p.words()[0] >> 20) & 0xF).collect();
    assert_eq!(statuses, vec![1, 2, 3]);
    assert_eq!(pkts[2].words()[0] >> 16 & 0xF, 2);
    assert_eq!(ump_sysex7_packets(&[], 0).len(), 1);
    let long = MidiMessage::SysEx(payload.clone());
    match midi1_from_ump(&ump_from_midi1(&long, 0)) {
        Some(MidiMessage::SysEx(d)) => assert_eq!(d, payload[..6].to_vec()),
        other => panic!("expected SysEx, got {other:?}"),
    }
}

#[test]
fn unknown_and_short_inputs() {
    assert_eq!(UmpPacket::from_words(&[]), None);
    assert_eq!(UmpPacket::from_words(&[0x4000_0000]), None);
    assert_eq!(UmpPacket::from_words(&[0x9000_0000]), Some(UmpPacket::Single(0x9000_0000)));
    assert_eq!(MidiCiSubId::from_byte(0x12), None);
    assert_eq!(MidiCiMessage::parse(&[0x7E; 12]), None);
    assert_eq!(parse_ump_stream(&[0x40, 0, 0, 0]), vec![]);
    assert_eq!(UmpMessageType::from_nibble(0x1F), UmpMessageType::Unknown(0xF));
    let p = UmpPacket::midi1_channel_voice(3, 0x90, 2, 60, 0);
    assert_eq!(p.group(), 3);
    assert_eq!(midi1_from_ump(&p), Some(MidiMessage::NoteOff { channel: 2, note: 60 }));
    let sx = MidiCiMessage::discovery(Muid(7), [1, 2, 3], [4, 5], [6, 7], [8, 9, 10, 11], 1, 300)
        .to_sysex();
    match sx {
        MidiMessage::SysEx(d) => assert_eq!(&d[..4], &[0x7E, 0x7F, 0x0D, 0x70]),
        _ => panic!("expected SysEx"),
    }
}

#[test]
fn midi1_bytes_roundtrip() {
    let m = MidiMessage::PitchBend { channel: 4, value: -100 };
    let b = m.to_bytes();
    assert_eq!(MidiMessage::from_bytes(&b), Some(m));
    let s = MidiMessage::SysEx(vec![1, 2, 3]);
    assert_eq!(s.to_bytes(), vec![0xF0, 1, 2, 3, 0xF7]);
    assert_eq!(MidiMessage::from_bytes(&s.to_bytes()), Some(s.clone()));
    assert_eq!(MidiMessage::from_bytes(&[0xF0, 1, 2, 0xF7]), Some(MidiMessage::SysEx(vec![1, 2])));
    assert_eq!(MidiMessage::from_bytes(&[0xF0, 1, 2]), Some(MidiMessage::SysEx(vec![1, 2])));
    assert_eq!(MidiMessage::from_bytes(&[0xF0]), Some(MidiMessage::SysEx(vec![])));
    assert_eq!(MidiMessage::from_bytes(&[]), None);
    assert_eq!(MidiMessage::from_bytes(&[0x90, 1]), None);
    assert_eq!(MidiMessage::NoteOn { channel: 17, note: 200, velocity: 130 }.to_bytes(), vec![0x91, 72, 2]);
}

#[test]
fn program_change_and_realtime_roundtrip() {
    for m in [
        MidiMessage::ProgramChange { channel: 3, program: 42 },
        MidiMessage::Start,
        MidiMessage::Stop,
        MidiMessage::Continue,
        MidiMessage::ActiveSensing,
    ] {
        assert_eq!(midi1_from_ump(&ump_from_midi1(&m, 5)), Some(m));
    }
}
