use seqterm::midi_import::{
    build_tempo_map, build_time_sig_map, extract_notes, probe_midi, probe_track, NoteSpan, SmfEvent, SmfEventKind,
};

fn ev(delta: u32, kind: SmfEventKind) -> SmfEvent {
    SmfEvent { delta, kind }
}

fn on(ch: u8, key: u8, vel: u8) -> SmfEventKind {
    SmfEventKind::NoteOn { channel: ch, key, vel }
}

fn off(ch: u8, key: u8) -> SmfEventKind {
    SmfEventKind::NoteOff { channel: ch, key }
}

#[test]
fn extract_pairs_notes_onto_steps() {
    // 120 ticks per step; a note on at 0 held one step, one at 240 held half a step.
    let track = vec![
        ev(0, SmfEventKind::TrackName("Bass".into())),
        ev(0, SmfEventKind::Controller { channel: 2, controller: 74, value: 90 }),
        ev(0, on(2, 36, 100)),
        ev(120, off(2, 36)),
        ev(120, on(2, 40, 80)),
        ev(60, SmfEventKind::NoteOn { channel: 2, key: 40, vel: 0 }),
    ];
    let (name, spans, ch) = extract_notes(&track, 120, true);
    assert_eq!(name, "Bass");
    assert_eq!(ch, 2);
    assert_eq!(
        spans,
        vec![
            NoteSpan { step: 0, pitch: 36, vel: 100, gate: 100, close_offset: Some(0), cc01: 0, cc74: 90, bend: 0 },
            NoteSpan { step: 2, pitch: 40, vel: 80, gate: 50, close_offset: Some(60), cc01: 0, cc74: 0, bend: 0 },
        ]
    );
}

#[test]
fn extract_flushes_unended_notes_and_sorts_by_step() {
    let track = vec![
        ev(480, on(9, 38, 90)),
        ev(0, SmfEventKind::PitchBend { channel: 9, bend: -100 }),
        ev(10, on(9, 36, 100)),
        ev(0, on(9, 36, 110)), // restrike ends the earlier note: gate clamps up to 10
    ];
    let (name, spans, ch) = extract_notes(&track, 120, true);
    assert_eq!(name, "");
    assert_eq!(ch, 9);
    assert_eq!(spans.len(), 3);
    assert!(spans.windows(2).all(|w| w[0].step <= w[1].step));
    let ended = spans.iter().find(|s| s.close_offset.is_some()).unwrap();
    assert_eq!((ended.pitch, ended.vel, ended.gate, ended.step, ended.bend), (36, 100, 10, 4, -100));
    let held: Vec<_> = spans.iter().filter(|s| s.close_offset.is_none()).collect();
    assert_eq!(held.len(), 2);
    assert!(held.iter().all(|s| s.gate == 100 && s.step == 4));
}

#[test]
fn extract_without_drum_detection_keeps_first_note_channel() {
    let track = vec![ev(0, on(9, 38, 90)), ev(0, on(3, 40, 90))];
    let (_, spans, ch) = extract_notes(&track, 0, false);
    assert_eq!(ch, 9);
    assert_eq!(spans.len(), 2);
}

#[test]
fn tempo_map_starts_at_120_bpm() {
    assert_eq!(build_tempo_map(&[]), vec![(0, 500_000)]);
    let t0 = vec![ev(0, SmfEventKind::Tempo(600_000)), ev(960, SmfEventKind::Tempo(400_000)), ev(10, on(0, 60, 1))];
    assert_eq!(build_tempo_map(&[t0]), vec![(0, 500_000), (0, 600_000), (960, 400_000)]);
}

#[test]
fn time_signature_map_defaults_to_four_four() {
    assert_eq!(build_time_sig_map(&[]), vec![(0, 4, 4)]);
    assert_eq!(build_time_sig_map(&[vec![ev(5, SmfEventKind::Other)]]), vec![(0, 4, 4)]);
    let t0 = vec![ev(0, SmfEventKind::TimeSignature(3, 2)), ev(1920, SmfEventKind::TimeSignature(7, 3))];
    assert_eq!(build_time_sig_map(&[t0]), vec![(0, 3, 4), (1920, 7, 8)]);
}

#[test]
fn probe_reports_tracks_with_notes() {
    let meta = vec![ev(0, SmfEventKind::Tempo(500_000))];
    let drums = vec![ev(0, on(9, 36, 100)), ev(10, on(9, 36, 0)), ev(0, on(9, 38, 90))];
    let named = vec![ev(0, SmfEventKind::TrackName("Lead".into())), ev(0, on(1, 60, 100)), ev(5, off(4, 60))];
    let infos = probe_midi(&[meta.clone(), drums.clone(), named]);
    assert_eq!(infos.len(), 2);
    assert_eq!(infos[0].name, "TRK02");
    assert_eq!((infos[0].channel, infos[0].note_count, infos[0].is_drum), (9, 2, true));
    assert_eq!(infos[1].name, "Lead");
    assert_eq!((infos[1].channel, infos[1].note_count, infos[1].is_drum), (4, 1, false));
    assert!(probe_track(&meta, 0).is_none());
    assert_eq!(probe_track(&drums, 11).unwrap().name, "TRK12");
}

#[test]
fn notes_are_sliced_into_patterns_by_start_step() {
    let s = seqterm::midi_import::slice_notes(&[0, 5, 17, 3, 40], 16);
    assert_eq!(s, vec![vec![0, 1, 3], vec![2], vec![4]]);
    assert_eq!(seqterm::midi_import::slice_notes(&[], 16), vec![Vec::<usize>::new()]);
}

