use seqterm::note::note_name_fits;
use seqterm::note::{parse_note_name, Note, NoteError, NoteEvent};
use seqterm::rational::RationalTime;

#[test]
fn test_from_midi_c4() {
    let note = Note::from_midi(60, 100).unwrap();
    assert_eq!(note.note, "C-5");
}

#[test]
fn test_to_midi_empty() {
    let note = Note::default();
    assert!(note.to_midi().is_none());
}

#[test]
fn test_roundtrip() {
    let note = Note::from_midi(69, 80).unwrap();
    assert_eq!(note.to_midi(), Some(69));
}

#[test]
fn test_polyphonic_voice_count() {
    let mut note = Note::from_midi(60, 100).unwrap();
    assert_eq!(note.voice_count(), 1);
    note.chord_notes.push("E-5".to_string());
    assert_eq!(note.voice_count(), 2);
}

#[test]
fn empty_note_is_empty() {
    let n = Note::default();
    assert!(n.is_empty());
}

#[test]
fn midi_note_is_not_empty() {
    let n = Note::from_midi(60, 100).unwrap();
    assert!(!n.is_empty());
}

#[test]
fn all_note_ons_single() {
    let n = Note::from_midi(48, 90).unwrap();
    let ons = n.all_note_ons();
    assert_eq!(ons.len(), 1);
    assert_eq!(ons[0], (48, 90));
}

#[test]
fn all_note_ons_chord() {
    let mut n = Note::from_midi(60, 100).unwrap();
    n.chord_notes.push("E-5".to_string());
    n.chord_notes.push("G-5".to_string());
    let ons = n.all_note_ons();
    assert_eq!(ons.len(), 3);
    assert_eq!(ons[0].0, 60);
}

#[test]
fn from_midi_range_check() {
    assert!(Note::from_midi(127, 100).is_ok());
    assert!(Note::from_midi(128, 100).is_err());
}

#[test]
fn parse_note_name_various() {
    assert_eq!(parse_note_name("C-0"), Some(0));
    assert_eq!(parse_note_name("C-5"), Some(60));
    assert_eq!(parse_note_name("A-4"), Some(57));
    assert_eq!(parse_note_name("---"), None);
    assert_eq!(parse_note_name(""), None);
}

#[test]
fn note_name_roundtrip_all_midi() {
    for midi in 0u8..=127 {
        let n = Note::from_midi(midi, 100).unwrap();
        let back = n.to_midi().unwrap();
        assert_eq!(back, midi, "roundtrip failed for MIDI {midi}");
    }
}

#[test]
fn velocity_defaults() {
    let n = Note::from_midi(60, 64).unwrap();
    assert_eq!(n.velocity, 64);
    assert_eq!(n.prob, 100);
    assert_eq!(n.gate, 100);
}

#[test]
fn parse_octave_forms() {
    assert_eq!(parse_note_name("C-+1"), Some(12));
    assert_eq!(parse_note_name("C-05"), Some(60));
    assert_eq!(parse_note_name("C-x"), None);
    assert_eq!(parse_note_name("H-4"), None);
    assert_eq!(parse_note_name("C-"), None);
    assert_eq!(parse_note_name("C-+"), None);
    assert_eq!(parse_note_name("C-256"), None);
    assert_eq!(parse_note_name("G-10"), Some(127));
    assert_eq!(parse_note_name("B#4"), None);
}

#[test]
fn out_of_range_error_carries_value() {
    match Note::from_midi(200, 1) {
        Err(NoteError::MidiOutOfRange(m)) => assert_eq!(m, 200),
        _ => panic!("expected an error"),
    }
    assert_eq!(Note::from_midi(127, 1).unwrap().note, "G-10");
}

#[test]
fn chord_voice_velocities() {
    let mut n = Note::from_midi(60, 100).unwrap();
    n.chord_notes.push("E-5".to_string());
    n.chord_notes.push("bad".to_string());
    n.chord_notes.push("G-5".to_string());
    n.chord_velocities.push(70);
    assert_eq!(n.voice_velocity(0), 100);
    assert_eq!(n.voice_velocity(1), 70);
    assert_eq!(n.voice_velocity(3), 100);
    assert_eq!(n.all_note_ons(), vec![(60, 100), (64, 70), (67, 100)]);
    assert_eq!(n.voice_count(), 4);
    assert_eq!(Note::default().voice_count(), 0);
    assert_eq!(n.note_on(), Some((60, 100)));
}

#[test]
fn note_event_reports_midi() {
    let e = NoteEvent::new(RationalTime::zero(), RationalTime::new(1, 4), Note::from_midi(61, 90).unwrap());
    assert_eq!(e.to_midi(), Some(61));
    assert_eq!(e.clone().note.note, "C#5");
}

#[test]
fn note_names_fit_a_byte_up_to_octave_21() {
    assert!(note_name_fits("C-4"));
    assert!(note_name_fits("---"));
    assert!(note_name_fits("X"));
    assert!(note_name_fits("D#20"));
    assert!(note_name_fits("D-21"));
    assert!(!note_name_fits("C-22"));
    assert!(!note_name_fits("G#200"));
}
