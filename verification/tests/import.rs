use seqterm::import::{import_row, read_import, ImportError};
use seqterm::midi_import::{parse_smf, probe_tracks, SmfEventKind};
use seqterm::smf::MidiImportOptions;

fn smf(head: [u8; 2], tracks: &[Vec<u8>]) -> Vec<u8> {
    let mut out = b"MThd".to_vec();
    out.extend_from_slice(&[0, 0, 0, 6, 0, 1, 0, tracks.len() as u8, head[0], head[1]]);
    for body in tracks {
        out.extend_from_slice(b"MTrk");
        out.extend_from_slice(&(body.len() as u32).to_be_bytes());
        out.extend_from_slice(body);
    }
    out
}

fn bass() -> Vec<u8> {
    let mut t = vec![0x00, 0xFF, 0x03, 0x04];
    t.extend_from_slice(b"Bass");
    t.extend_from_slice(&[0x00, 0x90, 60, 100, 24, 0x80, 60, 0, 0x00, 0xFF, 0x2F, 0x00]);
    t
}

fn lead() -> Vec<u8> {
    let mut t = vec![0x00, 0xFF, 0x03, 0x06];
    t.extend_from_slice(b" Lead ");
    // the same note in bar 1 and in bar 3 (step 32 at 24 ticks per step)
    t.extend_from_slice(&[0x00, 0x90, 64, 80, 24, 0x80, 64, 0]);
    t.extend_from_slice(&[0x85, 0x68, 0x90, 64, 80, 24, 0x80, 64, 0, 0x00, 0xFF, 0x2F, 0x00]);
    t
}

fn opts() -> MidiImportOptions {
    MidiImportOptions { bars_per_pattern: 1, steps_per_beat: 4, detect_drums: false }
}

#[test]
fn parse_smf_reads_events_and_trims_names() {
    let bytes = smf([0, 96], &[lead()]);
    let (tpq, tracks) = parse_smf(&bytes).unwrap();
    assert_eq!(tpq, Some(96));
    assert_eq!(tracks.len(), 1);
    assert_eq!(tracks[0].len(), 6);
    assert!(matches!(&tracks[0][0].kind, SmfEventKind::TrackName(n) if n == "Lead"));
    assert!(matches!(tracks[0][1].kind, SmfEventKind::NoteOn { channel: 0, key: 64, vel: 80 }));
    assert_eq!(tracks[0][2].delta, 24);
    assert!(matches!(tracks[0][2].kind, SmfEventKind::NoteOff { channel: 0, key: 64 }));
    assert_eq!(tracks[0][3].delta, 744);
    assert!(matches!(tracks[0][5].kind, SmfEventKind::Other));
    assert!(parse_smf(b"not a midi file").is_none());
}

#[test]
fn probe_tracks_summarises_each_track_with_notes() {
    let bytes = smf([0, 96], &[bass(), lead()]);
    let infos = probe_tracks(&bytes).unwrap();
    assert_eq!(infos.len(), 2);
    assert_eq!(infos[0].name, "Bass");
    assert_eq!((infos[0].channel, infos[0].note_count, infos[0].is_drum), (0, 1, false));
    assert_eq!(infos[1].name, "Lead");
    assert_eq!(infos[1].note_count, 2);
    assert!(probe_tracks(b"MThd").is_none());
}

#[test]
fn read_import_refuses_bad_files() {
    assert!(matches!(read_import(b"junk", &opts()), Err(ImportError::Invalid)));
    let timecode = smf([0xE7, 0x28], &[bass()]);
    assert!(matches!(read_import(&timecode, &opts()), Err(ImportError::Timecode)));
    let mut bad_sig = vec![0x00, 0xFF, 0x58, 0x04, 4, 9, 24, 8];
    bad_sig.extend_from_slice(&[0x00, 0xFF, 0x2F, 0x00]);
    let f = smf([0, 96], &[bad_sig, bass()]);
    assert!(matches!(read_import(&f, &opts()), Err(ImportError::TimeSignature)));
}

#[test]
fn read_import_gives_grid_maps_and_noted_tracks() {
    let bytes = smf([0, 96], &[bass(), lead()]);
    let r = read_import(&bytes, &opts()).unwrap();
    assert_eq!(r.ticks_per_beat, 96);
    assert_eq!(r.ticks_per_step, 24);
    assert_eq!(r.steps_per_pattern, 16);
    assert_eq!(r.tempo_map, vec![(0, 500_000)]);
    assert_eq!(r.time_sigs, vec![(0, 4, 4)]);
    assert_eq!(r.tracks.len(), 2);
    assert_eq!((r.tracks[0].index, r.tracks[0].name.as_str(), r.tracks[0].channel), (0, "Bass", 0));
    assert_eq!(r.tracks[1].spans.iter().map(|s| s.step).collect::<Vec<_>>(), vec![0, 32]);
}

#[test]
fn import_row_shares_identical_slices() {
    let bytes = smf([0, 96], &[bass(), lead()]);
    let r = read_import(&bytes, &opts()).unwrap();
    let mut table = Vec::new();
    let mut pats = Vec::new();
    let mic = vec![0i8; r.tracks[0].spans.len()];
    let (row0, t0) = import_row(&mut table, &mut pats, &r.tracks[0], &mic, 0, 16, 24, &r.time_sigs, 1);
    assert_eq!(row0.len(), 1);
    let c = row0[0].as_ref().unwrap();
    assert_eq!((c.name.as_str(), c.pattern_key.as_deref(), c.row, c.col, c.midi_channel), ("BASS", Some("BASS"), 0, 0, 1));
    assert_eq!(t0.name, "BASS");
    assert_eq!(t0.blocks, vec![(0, 1, "BASS".to_string())]);
    assert_eq!(pats.len(), 1);
    assert_eq!(pats[0].name, "BASS");
    assert_eq!(pats[0].steps.len(), 16);
    assert_eq!((pats[0].steps[0].velocity, pats[0].steps[0].gate), (100, 100));

    let mic = vec![0i8; r.tracks[1].spans.len()];
    let (row1, t1) = import_row(&mut table, &mut pats, &r.tracks[1], &mic, 1, 16, 24, &r.time_sigs, 1);
    assert_eq!(row1.len(), 3);
    assert!(row1[1].is_none());
    let first = row1[0].as_ref().unwrap();
    let third = row1[2].as_ref().unwrap();
    assert_eq!(first.pattern_key.as_deref(), Some("LEAD01"));
    assert_eq!(third.pattern_key.as_deref(), Some("LEAD01"));
    assert_eq!((third.row, third.col), (1, 2));
    assert_eq!(t1.blocks, vec![(0, 1, "LEAD01".to_string()), (2, 1, "LEAD01".to_string())]);
    assert_eq!(table.len(), 2);
    assert_eq!(pats.len(), 2);
    assert_eq!(pats[1].name, "LEAD01");
}
