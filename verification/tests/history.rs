use seqterm::history::{EditCommand, History, HISTORY_CAP};

/// A tiny document: the project tempo.
struct Doc {
    bpm: f64,
}

struct SetBpm {
    old: f64,
    new: f64,
}

impl EditCommand<Doc> for SetBpm {
    fn apply(&self, doc: &mut Doc) {
        doc.bpm = self.new;
    }
    fn revert(&self, doc: &mut Doc) {
        doc.bpm = self.old;
    }
    fn description(&self) -> &str {
        "Set BPM"
    }
}

fn project() -> Doc {
    Doc { bpm: 120.0 }
}

#[test]
fn push_applies_command() {
    let mut proj = project();
    let mut hist: History<SetBpm> = History::new();
    let old = proj.bpm;
    hist.push(SetBpm { old, new: 140.0 }, &mut proj);
    assert!((proj.bpm - 140.0).abs() < 1e-9);
}

#[test]
fn undo_reverts_command() {
    let mut proj = project();
    let mut hist: History<SetBpm> = History::new();
    let old = proj.bpm;
    hist.push(SetBpm { old, new: 140.0 }, &mut proj);
    assert_eq!(hist.undo(&mut proj), Some("Set BPM".to_string()));
    assert!((proj.bpm - old).abs() < 1e-9);
}

#[test]
fn redo_reapplies_command() {
    let mut proj = project();
    let mut hist: History<SetBpm> = History::new();
    let old = proj.bpm;
    hist.push(SetBpm { old, new: 150.0 }, &mut proj);
    hist.undo(&mut proj);
    hist.redo(&mut proj);
    assert!((proj.bpm - 150.0).abs() < 1e-9);
}

#[test]
fn undo_empty_is_noop() {
    let mut proj = project();
    let mut hist: History<SetBpm> = History::new();
    let result = hist.undo(&mut proj);
    assert!(result.is_none());
}

#[test]
fn redo_empty_is_noop() {
    let mut proj = project();
    let mut hist: History<SetBpm> = History::new();
    let result = hist.redo(&mut proj);
    assert!(result.is_none());
}

#[test]
fn push_clears_redo_stack() {
    let mut proj = project();
    let mut hist: History<SetBpm> = History::new();
    hist.push(SetBpm { old: proj.bpm, new: 120.0 }, &mut proj);
    hist.undo(&mut proj);
    assert!(hist.can_redo());
    hist.push(SetBpm { old: proj.bpm, new: 180.0 }, &mut proj);
    // Redo stack should be cleared by the new push.
    assert!(!hist.can_redo());
}

#[test]
fn group_transaction_undone_atomically() {
    let mut proj = project();
    let mut hist: History<SetBpm> = History::new();
    let bpm_before = proj.bpm;
    hist.begin_group();
    hist.push(SetBpm { old: proj.bpm, new: 90.0 }, &mut proj);
    hist.push(SetBpm { old: proj.bpm, new: 95.0 }, &mut proj);
    hist.end_group("double bpm change");
    // Both changes applied.
    assert!((proj.bpm - 95.0).abs() < 1e-9);
    // Single undo reverts both.
    assert_eq!(hist.undo(&mut proj), Some("double bpm change".to_string()));
    assert!((proj.bpm - bpm_before).abs() < 1e-9);
    // And a single redo re-applies both.
    hist.redo(&mut proj);
    assert!((proj.bpm - 95.0).abs() < 1e-9);
}

#[test]
fn depth_tracks_history_size() {
    let mut proj = project();
    let mut hist: History<SetBpm> = History::new();
    assert_eq!(hist.depth(), 0);
    hist.push(SetBpm { old: proj.bpm, new: 100.0 }, &mut proj);
    assert_eq!(hist.depth(), 1);
    hist.push(SetBpm { old: proj.bpm, new: 110.0 }, &mut proj);
    assert_eq!(hist.depth(), 2);
    hist.undo(&mut proj);
    assert_eq!(hist.depth(), 1);
}

#[test]
fn record_without_apply_then_undo() {
    let mut proj = project();
    let mut hist: History<SetBpm> = History::new();
    let old_bpm = proj.bpm;
    // Externally apply the change.
    proj.bpm = 180.0;
    // Record it WITHOUT applying again.
    hist.record(SetBpm { old: old_bpm, new: 180.0 });
    assert!((proj.bpm - 180.0).abs() < 1e-9, "record should not double-apply");
    // Undo should revert.
    hist.undo(&mut proj);
    assert!((proj.bpm - old_bpm).abs() < 1e-9);
}

#[test]
fn empty_group_is_discarded_and_cap_holds() {
    let mut proj = project();
    let mut hist: History<SetBpm> = History::new();
    hist.begin_group();
    hist.end_group("nothing");
    assert_eq!(hist.depth(), 0);
    for i in 0..(HISTORY_CAP + 5) {
        hist.push(SetBpm { old: proj.bpm, new: i as f64 }, &mut proj);
    }
    assert_eq!(hist.depth(), HISTORY_CAP);
    hist.clear();
    assert!(!hist.can_undo());
    assert!(!hist.can_redo());
}
