use seqterm::channel::Pan;
use seqterm::edits::{channel_setting, ChannelParam, ChannelSetting, SetChannelParam};
use seqterm::edits::{
    CreatePattern, DeleteClip, NoteField, RenamePattern, SetClipMidiOut, SetClipSource, SetNote, SetNoteField, SetPatternLength, SwapClips,
    ToggleClipEnabled,
};
use seqterm::history::{EditCommand, History};
use seqterm::matrix::{Clip, PatternSource};
use seqterm::note::Note;
use seqterm::pattern::Pattern;

fn pattern_with_note() -> Pattern {
    let mut pat = Pattern::new("PAT1".to_string(), 8);
    pat.set_step(0, Note::from_midi(60, 100).unwrap());
    pat
}

#[test]
fn set_note_apply_revert() {
    let mut pat = pattern_with_note();
    let mut hist: History<SetNote> = History::new();
    let old_note = Note::default();
    let new_note = Note::from_midi(72, 80).unwrap();
    hist.push(SetNote { pattern_key: "PAT1".into(), step: 1, old: old_note, new: new_note }, &mut pat);
    assert_eq!(pat.steps[1].to_midi(), Some(72));
    hist.undo(&mut pat);
    assert!(pat.steps[1].is_empty());
    assert_eq!(pat.steps[0].to_midi(), Some(60));
}

#[test]
fn set_note_past_the_end_changes_nothing() {
    let mut pat = pattern_with_note();
    let cmd = SetNote { pattern_key: "PAT1".into(), step: 8, old: Note::default(), new: Note::from_midi(72, 80).unwrap() };
    cmd.apply(&mut pat);
    assert_eq!(pat.steps.len(), 8);
    assert_eq!(cmd.description(), "Set note");
}

#[test]
fn note_field_edits_clamp_and_revert() {
    let mut pat = pattern_with_note();
    let cmd = SetNoteField { pattern_key: "PAT1".into(), step: 0, field: NoteField::Velocity, old: 100, new: 300 };
    cmd.apply(&mut pat);
    assert_eq!(pat.steps[0].velocity, 127);
    cmd.revert(&mut pat);
    assert_eq!(pat.steps[0].velocity, 100);
    let gate = SetNoteField { pattern_key: "PAT1".into(), step: 0, field: NoteField::Gate, old: 100, new: 1 };
    gate.apply(&mut pat);
    assert_eq!(pat.steps[0].gate, 10);
    let micro = SetNoteField { pattern_key: "PAT1".into(), step: 0, field: NoteField::Micro, old: 0, new: -500 };
    micro.apply(&mut pat);
    assert_eq!(pat.steps[0].micro, -99);
    let prob = SetNoteField { pattern_key: "PAT1".into(), step: 0, field: NoteField::Prob, old: 100, new: 55 };
    prob.apply(&mut pat);
    assert_eq!(pat.steps[0].prob, 55);
    let cc = SetNoteField { pattern_key: "PAT1".into(), step: 0, field: NoteField::Cc74, old: 0, new: 64 };
    cc.apply(&mut pat);
    assert_eq!(pat.steps[0].cc74, 64);
    assert_eq!(cc.description(), "Edit note field");
}

#[test]
fn toggle_clip_twice_restores() {
    let mut slot = Some(Clip::new("PAT1".to_string(), 0, 0));
    let cmd = ToggleClipEnabled { row_key: "A".into(), col: 0 };
    cmd.apply(&mut slot);
    assert!(!slot.as_ref().unwrap().enabled);
    cmd.revert(&mut slot);
    assert!(slot.as_ref().unwrap().enabled);
    let mut empty: Option<Clip> = None;
    cmd.apply(&mut empty);
    assert!(empty.is_none());
}

#[test]
fn clip_midi_out_apply_revert() {
    let mut slot = Some(Clip::new("PAT1".to_string(), 0, 0));
    let cmd = SetClipMidiOut { row_key: "A".into(), col: 0, old: None, new: Some("SYNTH".into()) };
    cmd.apply(&mut slot);
    assert_eq!(slot.as_ref().unwrap().midi_out.as_deref(), Some("SYNTH"));
    cmd.revert(&mut slot);
    assert!(slot.as_ref().unwrap().midi_out.is_none());
    assert_eq!(cmd.description(), "Set MIDI out");
}

#[test]
fn swap_clips_apply_revert() {
    let mut a = Some(Clip::new("PAT1".to_string(), 0, 0).with_pattern("PAT1".to_string()));
    let mut b: Option<Clip> = None;
    let cmd = SwapClips { from_key: "A".into(), from_col: 0, to_key: "B".into(), to_col: 0 };
    cmd.apply_to(&mut a, &mut b);
    assert!(a.is_none());
    assert!(b.is_some());
    cmd.revert_on(&mut a, &mut b);
    assert!(a.is_some());
    assert!(b.is_none());
}

#[test]
fn moving_from_an_empty_slot_changes_nothing() {
    let mut a: Option<Clip> = None;
    let mut b = Some(Clip::new("X".to_string(), 1, 0));
    SwapClips { from_key: "A".into(), from_col: 0, to_key: "B".into(), to_col: 0 }.apply_to(&mut a, &mut b);
    assert!(a.is_none());
    assert_eq!(b.unwrap().name, "X");
}

#[test]
fn pattern_length_grows_blank_and_shrinks_back() {
    let mut pat = pattern_with_note();
    let mut hist: History<SetPatternLength> = History::new();
    hist.push(SetPatternLength { pattern_key: "PAT1".into(), old: 8, new: 12 }, &mut pat);
    assert_eq!(pat.length, 12);
    assert_eq!(pat.steps.len(), 12);
    assert!(pat.steps[11].is_empty());
    assert_eq!(pat.steps[0].to_midi(), Some(60));
    hist.undo(&mut pat);
    assert_eq!(pat.length, 8);
    assert_eq!(pat.steps.len(), 8);
    assert_eq!(pat.steps[0].to_midi(), Some(60));
}

#[test]
fn delete_clip_apply_revert() {
    let clip = Clip::new("PAT1".to_string(), 0, 2).with_pattern("PAT1".to_string());
    let mut slot = Some(clip.clone());
    let cmd = DeleteClip { row_key: "A".into(), col: 2, old_clip: Some(clip) };
    cmd.apply(&mut slot);
    assert!(slot.is_none());
    cmd.revert(&mut slot);
    let back = slot.unwrap();
    assert_eq!((back.name.as_str(), back.col, back.pattern_key.as_deref()), ("PAT1", 2, Some("PAT1")));
}

#[test]
fn create_pattern_places_and_clears_its_clip() {
    let cmd = CreatePattern { key: "NEW1".into(), pattern: Pattern::new("NEW1".to_string(), 16), row_key: "A".into(), col: 1 };
    let mut row: Vec<Option<Clip>> = vec![None, None, None];
    cmd.place_clip(&mut row);
    let c = row[1].as_ref().unwrap();
    assert_eq!((c.name.as_str(), c.pattern_key.as_deref(), c.row, c.col), ("NEW1", Some("NEW1"), 0, 1));
    assert!(row[0].is_none() && row[2].is_none());
    cmd.clear_clip(&mut row);
    assert!(row.iter().all(|s| s.is_none()));
    let mut short: Vec<Option<Clip>> = vec![None];
    cmd.place_clip(&mut short);
    assert!(short[0].is_none());
}

#[test]
fn rename_pattern_renames_clips_and_back() {
    let cmd = RenamePattern { old_key: "PAT1".into(), new_key: "LEAD".into() };
    let mut slot = Some(Clip::new("PAT1".to_string(), 0, 0).with_pattern("PAT1".to_string()));
    cmd.apply_to_slot(&mut slot);
    let c = slot.as_ref().unwrap();
    assert_eq!((c.name.as_str(), c.pattern_key.as_deref()), ("LEAD", Some("LEAD")));
    cmd.revert_on_slot(&mut slot);
    let c = slot.as_ref().unwrap();
    assert_eq!((c.name.as_str(), c.pattern_key.as_deref()), ("PAT1", Some("PAT1")));
    let mut other = Some(Clip::new("KICK".to_string(), 1, 0).with_pattern("KICK".to_string()));
    cmd.apply_to_slot(&mut other);
    assert_eq!(other.as_ref().unwrap().name, "KICK");
    let mut pat = pattern_with_note();
    cmd.rename_pattern(&mut pat);
    assert_eq!(pat.name, "LEAD");
    cmd.unrename_pattern(&mut pat);
    assert_eq!(pat.name, "PAT1");
}

#[test]
fn set_clip_source_apply_revert() {
    let mut slot = Some(Clip::new("PAT1".to_string(), 0, 0).with_pattern("PAT1".to_string()));
    let sf2 = PatternSource::Sf2 { path: "/tmp/test.sf2".into(), bank: 0, preset: 0, preset_name: "Piano".into() };
    let cmd = SetClipSource { row_key: "A".into(), col: 0, old: PatternSource::Midi, new: sf2, clip_existed: true };
    cmd.apply(&mut slot);
    assert!(slot.as_ref().unwrap().source.is_sf2());
    cmd.revert(&mut slot);
    assert!(slot.as_ref().unwrap().source.is_midi());
}

#[test]
fn set_clip_source_creates_clip_on_empty_cell() {
    let mut slot: Option<Clip> = None;
    let sf2 = PatternSource::Sf2 { path: "/tmp/x.sf2".into(), bank: 0, preset: 0, preset_name: "P".into() };
    let cmd = SetClipSource { row_key: "C".into(), col: 3, old: PatternSource::Midi, new: sf2, clip_existed: false };
    cmd.apply(&mut slot);
    let c = slot.as_ref().unwrap();
    assert!(c.source.is_sf2());
    assert_eq!((c.row, c.col, c.name.as_str()), (2, 3, ""));
    assert_eq!(cmd.row_index(), 2);
    cmd.revert(&mut slot);
    assert!(slot.is_none());
}

#[test]
fn channel_param_settings_clamp() {
    assert_eq!(channel_setting(ChannelParam::Volume, -63), ChannelSetting::VolumeTenths(-63));
    assert_eq!(channel_setting(ChannelParam::Pan, -80), ChannelSetting::Pan(Pan::Left(50)));
    assert_eq!(channel_setting(ChannelParam::Pan, 0), ChannelSetting::Pan(Pan::Center));
    assert_eq!(channel_setting(ChannelParam::EqHigh, 20), ChannelSetting::EqHigh(12));
    assert_eq!(channel_setting(ChannelParam::EqLow, -3), ChannelSetting::EqLow(-3));
    assert_eq!(channel_setting(ChannelParam::FxAmount, 300), ChannelSetting::FxAmount(127));
    let c = SetChannelParam { channel_port: "P1".to_string(), param: ChannelParam::EqLowMid, old: 2, new: -40 };
    assert_eq!(c.applied_setting(), ChannelSetting::EqLowMid(-12));
    assert_eq!(c.reverted_setting(), ChannelSetting::EqLowMid(2));
    assert_eq!(c.description(), "Adjust channel");
}
