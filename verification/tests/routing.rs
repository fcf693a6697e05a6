use seqterm::matrix::PatternSource;
use seqterm::sched::{drum_map_for, hit_prelude, note_targets, Emit};

fn sf2() -> PatternSource {
    PatternSource::Sf2 { path: "gm.sf2".to_string(), bank: 0, preset: 0, preset_name: String::new() }
}

fn audio() -> PatternSource {
    PatternSource::AudioFile { path: "loop.wav".to_string(), looping: false, original_bpm_bits: 0, gain_bits: 0 }
}

#[test]
fn drum_map_for_takes_the_first_drum_channel_on_the_port() {
    let drums = vec![(Some("A".to_string()), [1u8; 16]), (Some("B".to_string()), [2u8; 16]), (Some("B".to_string()), [3u8; 16]), (None, [4u8; 16])];
    assert_eq!(drum_map_for(&drums, &Some("B".to_string())), Some([2u8; 16]));
    assert_eq!(drum_map_for(&drums, &None), Some([4u8; 16]));
    assert_eq!(drum_map_for(&drums, &Some("C".to_string())), None);
    assert_eq!(drum_map_for(&[], &None), None);
}

#[test]
fn hit_prelude_triggers_audio_files_and_forwards_changed_controllers() {
    let r = hit_prelude(&audio(), Some(3), 0, 64, 32);
    assert_eq!(r.len(), 1);
    assert!(matches!(r[0], Emit::AudioClipTrigger { slot_id: 3 }));
    assert!(hit_prelude(&audio(), None, 0, 64, 32).is_empty());

    let r = hit_prelude(&sf2(), Some(1), 2, 10, 32);
    assert_eq!(r.len(), 1);
    assert!(matches!(r[0], Emit::AudioControlChange { slot_id: 1, channel: 2, cc: 1, value: 10 }));
    let r = hit_prelude(&sf2(), Some(1), 2, 10, 90);
    assert_eq!(r.len(), 2);
    assert!(matches!(r[1], Emit::AudioControlChange { slot_id: 1, channel: 2, cc: 74, value: 90 }));
    assert!(hit_prelude(&sf2(), Some(1), 2, 64, 32).is_empty());
    assert!(hit_prelude(&PatternSource::Midi, Some(1), 2, 10, 90).is_empty());
}

#[test]
fn note_targets_route_by_source() {
    assert_eq!(note_targets(&audio(), Some(1), true), (None, false));
    assert_eq!(note_targets(&sf2(), Some(1), true), (Some((1, true)), false));
    assert_eq!(note_targets(&sf2(), None, true), (None, false));
    assert_eq!(note_targets(&PatternSource::Midi, Some(2), true), (Some((2, false)), true));
    assert_eq!(note_targets(&PatternSource::Midi, None, false), (None, true));
}
