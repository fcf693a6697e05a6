use seqterm::note::Note;
use seqterm::pattern::Pattern;
use seqterm::smf::{note_messages, pattern_note_events};
use seqterm::smf::{
    encode_track, parse_cc_target, sanitize_name, time_sig_at_tick, write_midi_header, write_varlen, MidiImportOptions,
};

fn vl(n: u32) -> Vec<u8> {
    let mut v = Vec::new();
    write_varlen(&mut v, n);
    v
}

#[test]
fn varlen_matches_the_smf_examples() {
    assert_eq!(vl(0), vec![0x00]);
    assert_eq!(vl(0x40), vec![0x40]);
    assert_eq!(vl(0x7F), vec![0x7F]);
    assert_eq!(vl(0x80), vec![0x81, 0x00]);
    assert_eq!(vl(0x2000), vec![0xC0, 0x00]);
    assert_eq!(vl(0x3FFF), vec![0xFF, 0x7F]);
    assert_eq!(vl(0x4000), vec![0x81, 0x80, 0x00]);
    assert_eq!(vl(0x0FFF_FFFF), vec![0xFF, 0xFF, 0xFF, 0x7F]);
    assert_eq!(vl(u32::MAX).len(), 5);
}

#[test]
fn header_and_track_bytes() {
    let mut h = Vec::new();
    write_midi_header(&mut h, 3, 480);
    assert_eq!(h, vec![b'M', b'T', b'h', b'd', 0, 0, 0, 6, 0, 1, 0, 3, 0x01, 0xE0]);
    let mut h1 = Vec::new();
    write_midi_header(&mut h1, 1, 96);
    assert_eq!(h1[9], 0);
    let t = encode_track(b"A", &[(0, vec![0x90, 60, 100]), (120, vec![0x80, 60, 0]), (100, vec![0x90, 62, 1])]);
    assert_eq!(
        t,
        vec![0x00, 0xFF, 0x03, 0x01, b'A', 0x00, 0x90, 60, 100, 0x78, 0x80, 60, 0, 0x00, 0x90, 62, 1, 0x00, 0xFF, 0x2F, 0x00]
    );
}

#[test]
fn cc_targets_and_time_signatures() {
    assert_eq!(parse_cc_target("channel.1.cc74"), Some((0, 74)));
    assert_eq!(parse_cc_target("channel.0.cc7"), Some((0, 7)));
    assert_eq!(parse_cc_target("channel.5.cc300"), None);
    assert_eq!(parse_cc_target("channel.5.send_a"), None);
    assert_eq!(parse_cc_target("bpm"), None);
    let map = [(0u32, 4u8, 2u8), (960, 3, 2), (1920, 7, 3)];
    assert_eq!(time_sig_at_tick(&map, 0), (4, 2));
    assert_eq!(time_sig_at_tick(&map, 1000), (3, 2));
    assert_eq!(time_sig_at_tick(&map, 5000), (7, 3));
    assert_eq!(time_sig_at_tick(&[], 5), (4, 4));
}

#[test]
fn names_are_sanitized() {
    assert_eq!(sanitize_name("Lead synth #2"), "LEADSYNT");
    assert_eq!(sanitize_name("bass-1_a"), "BASS-1_A");
    assert_eq!(sanitize_name("!!!"), "TRK");
    assert_eq!(sanitize_name("ké"), "K");
    let o = MidiImportOptions::default();
    assert_eq!((o.bars_per_pattern, o.steps_per_beat, o.detect_drums), (4, 4, true));
}

#[test]
fn pattern_notes_become_timed_note_events() {
    let mut p = Pattern::new("P".to_string(), 4);
    p.set_step(0, Note::from_midi(60, 100).unwrap());
    let mut short = Note::from_midi(64, 90).unwrap();
    short.gate = 5;
    p.set_step(2, short);
    let notes = pattern_note_events(&p.steps, 3, 960, 120);
    assert_eq!(notes, vec![(960, 3, 60, 100, 120), (1200, 3, 64, 90, 10)]);
    let msgs = note_messages(&notes);
    assert_eq!(
        msgs,
        vec![
            (960, vec![0x93, 60, 100]),
            (1080, vec![0x83, 60, 0]),
            (1200, vec![0x93, 64, 90]),
            (1210, vec![0x83, 64, 0]),
        ]
    );
}
