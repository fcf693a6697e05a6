use seqterm::matrix::{Clip, PatternSource, UNITY_GAIN_BITS};
use seqterm::pad::{mute_group_members, MuteGroup};

#[test]
fn clip_row_label() {
    let c = Clip::new("PAT1".to_string(), 0, 0);
    assert_eq!(c.row_label(), 'A');
    let c2 = Clip::new("PAT2".to_string(), 7, 0);
    assert_eq!(c2.row_label(), 'H');
}

#[test]
fn clip_with_sf2_builder() {
    let c = Clip::new("X".to_string(), 0, 0).with_sf2("/usr/share/sounds/bank.sf2".to_string(), 0, 1);
    assert!(c.source.is_sf2());
}

#[test]
fn clip_with_audio_builder() {
    let c = Clip::new("X".to_string(), 0, 0).with_audio("/tmp/loop.wav".to_string(), true);
    assert!(c.source.is_audio());
}

#[test]
fn new_clip_defaults() {
    let c = Clip::new("K".to_string(), 2, 3);
    assert_eq!(c.name, "K");
    assert_eq!((c.row, c.col), (2, 3));
    assert!(c.enabled && !c.playing && !c.frozen);
    assert_eq!(c.midi_channel, 1);
    assert!(c.source.is_midi());
    assert!(c.pattern_key.is_none() && c.midi_out.is_none() && c.mpe_zone.is_none());
}

#[test]
fn builders_set_pattern_and_clamp_channel() {
    let c = Clip::new("K".to_string(), 0, 0).with_pattern("KCK01".to_string()).with_channel(0);
    assert_eq!(c.pattern_key.as_deref(), Some("KCK01"));
    assert_eq!(c.midi_channel, 1);
    let c = c.with_channel(20);
    assert_eq!(c.midi_channel, 16);
    let c = c.with_channel(10);
    assert_eq!(c.midi_channel, 10);
}

#[test]
fn audio_builder_is_unity_gain_without_tempo_hint() {
    let c = Clip::new("X".to_string(), 0, 0).with_audio("a.wav".to_string(), false);
    match c.source {
        PatternSource::AudioFile { path, looping, original_bpm_bits, gain_bits } => {
            assert_eq!(path, "a.wav");
            assert!(!looping);
            assert_eq!(f64::from_bits(original_bpm_bits), 0.0);
            assert_eq!(f32::from_bits(gain_bits), 1.0);
            assert_eq!(gain_bits, UNITY_GAIN_BITS);
        }
        _ => panic!("not an audio source"),
    }
}

#[test]
fn source_labels_and_icons() {
    let plugin = PatternSource::Plugin { id: "/usr/lib/lv2/Amp.lv2".into(), format: "LV2".into(), name: "Amp".into() };
    assert!(plugin.is_plugin());
    assert_eq!(plugin.kind_label(), "SYNTH");
    assert_eq!(plugin.icon(), '\u{25C7}');
    assert_eq!(PatternSource::Midi.kind_label(), "MIDI");
    assert_eq!(PatternSource::Midi.icon(), ' ');
    let sf2 = PatternSource::Sf2 { path: "b.sf2".into(), bank: 0, preset: 0, preset_name: String::new() };
    assert_eq!(sf2.kind_label(), "SF2");
    assert_eq!(sf2.icon(), '\u{266A}');
    let audio = PatternSource::AudioFile { path: "x.wav".into(), looping: false, original_bpm_bits: 0, gain_bits: UNITY_GAIN_BITS };
    assert_eq!(audio.kind_label(), "AUDIO");
    assert_eq!(audio.icon(), '\u{25B6}');
    assert!(PatternSource::default().is_midi());
}

#[test]
fn mute_group_zero_has_no_members() {
    let slots = vec![Some(MuteGroup(0)), None, Some(MuteGroup(0))];
    assert!(mute_group_members(&slots, MuteGroup(0)).is_empty());
}

#[test]
fn mute_group_members_in_order() {
    let slots = vec![Some(MuteGroup(2)), None, Some(MuteGroup(1)), Some(MuteGroup(2)), None, Some(MuteGroup(2))];
    assert_eq!(mute_group_members(&slots, MuteGroup(2)), vec![0, 3, 5]);
    assert_eq!(mute_group_members(&slots, MuteGroup(1)), vec![2]);
    assert!(mute_group_members(&slots, MuteGroup(3)).is_empty());
}
