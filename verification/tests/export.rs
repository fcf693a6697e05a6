use seqterm::export::{smf_export_bytes, tempo_track, ExportError, ExportRow};
use seqterm::note::Note;
use seqterm::pattern::Pattern;
use seqterm::project::AutomationLane;

fn one_note(len: usize, step: usize, gate: u16) -> Pattern {
    let mut p = Pattern::new("p".to_string(), len);
    let mut n = Note::from_midi(60, 100).unwrap();
    n.gate = gate;
    p.set_step(step, n);
    p
}

#[test]
fn tempo_track_holds_signature_and_tempo() {
    assert_eq!(
        tempo_track(500_000, 4, 2),
        vec![0, 0xFF, 0x58, 4, 4, 2, 24, 8, 0, 0xFF, 0x51, 3, 0x07, 0xA1, 0x20, 0, 0xFF, 0x2F, 0]
    );
}

#[test]
fn export_writes_header_tempo_row_and_lane_tracks() {
    let rows = vec![
        ExportRow { name: "A".to_string(), clips: vec![(2, one_note(16, 0, 100))] },
        ExportRow { name: "B".to_string(), clips: vec![] },
    ];
    let mut lane = AutomationLane::new("Cut".to_string(), "channel.1.cc74".to_string());
    lane.points = vec![(1, 90), (0, 10)];
    let off = AutomationLane::new("Off".to_string(), "bpm".to_string());
    let b = smf_export_bytes(500_000, 4, 2, &rows, &vec![lane, off]).unwrap();
    // header: format 1, three tracks (tempo, row A, lane), 480 ticks per beat
    assert_eq!(&b[..14], &[0x4D, 0x54, 0x68, 0x64, 0, 0, 0, 6, 0, 1, 0, 3, 0x01, 0xE0]);
    assert_eq!(&b[14..18], b"MTrk");
    assert_eq!(&b[18..22], &[0, 0, 0, 19]);
    assert_eq!(&b[22..41], tempo_track(500_000, 4, 2).as_slice());
    assert_eq!(&b[41..45], b"MTrk");
    let row_len = u32::from_be_bytes([b[45], b[46], b[47], b[48]]) as usize;
    let row = &b[49..49 + row_len];
    // name "A", note on channel 2 at tick 0, note off 120 ticks later
    assert_eq!(row, &[0, 0xFF, 3, 1, b'A', 0, 0x91, 60, 100, 120, 0x81, 60, 0, 0, 0xFF, 0x2F, 0]);
    let lane_at = 49 + row_len;
    assert_eq!(&b[lane_at..lane_at + 4], b"MTrk");
    let lane_body = &b[lane_at + 8..];
    // channel 1 is the first; the points sorted by bar: bar 0 at tick 0, bar 1 at tick 1920 (varlen 0x8F 0x00)
    assert_eq!(lane_body, &[0, 0xFF, 3, 3, b'C', b'u', b't', 0, 0xB0, 74, 10, 0x8F, 0x00, 0xB0, 74, 90, 0, 0xFF, 0x2F, 0]);
}

#[test]
fn export_refuses_rows_past_the_last_tick() {
    let mut long = Pattern::new("l".to_string(), 16);
    long.length = 35_791_394;
    let rows = vec![ExportRow { name: "A".to_string(), clips: vec![(1, long), (1, one_note(16, 0, 100))] }];
    assert_eq!(smf_export_bytes(500_000, 4, 2, &rows, &vec![]), Err(ExportError::PatternTooLong));

    let mut half = Pattern::new("h".to_string(), 16);
    half.length = 20_000_000;
    let rows = vec![ExportRow { name: "A".to_string(), clips: vec![(1, half.clone()), (1, half)] }];
    assert_eq!(smf_export_bytes(500_000, 4, 2, &rows, &vec![]), Err(ExportError::SessionTooLong));

    let mut lead = Pattern::new("k".to_string(), 16);
    lead.length = 35_791_390;
    let rows = vec![ExportRow { name: "A".to_string(), clips: vec![(1, lead), (1, one_note(4, 3, 400))] }];
    assert_eq!(smf_export_bytes(500_000, 4, 2, &rows, &vec![]), Err(ExportError::NoteTooLong));
}
