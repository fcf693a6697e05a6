use seqterm::merge::{resolve_conflict, three_way_merge, ConflictReason, ObjectSnapshot};
use uuid::Uuid;

fn obj(id: u128, kind: &str, val: serde_json::Value) -> ObjectSnapshot {
    ObjectSnapshot::new(id, kind.to_string(), serde_json::to_string(&val).unwrap())
}

fn length(n: u64) -> serde_json::Value {
    let mut m = serde_json::Map::new();
    m.insert("length".to_string(), serde_json::Value::from(n));
    serde_json::Value::Object(m)
}

#[test]
fn no_change_returns_same() {
    let id = Uuid::new_v4().as_u128();
    let snap = obj(id, "pattern", length(16));
    let r = three_way_merge(&[snap.clone()], &[snap.clone()], &[snap.clone()]);
    assert_eq!(r.merged.len(), 1);
    assert!(r.conflicts.is_empty());
}

#[test]
fn one_side_changed() {
    let id = Uuid::new_v4().as_u128();
    let base = obj(id, "bpm", serde_json::Value::from(120));
    let ours = obj(id, "bpm", serde_json::Value::from(140)); // we changed it
    let their = obj(id, "bpm", serde_json::Value::from(120)); // they didn't
    let r = three_way_merge(&[base], &[ours.clone()], &[their]);
    assert_eq!(r.merged[0].payload, serde_json::to_string(&serde_json::Value::from(140)).unwrap());
    assert!(r.conflicts.is_empty());
}

#[test]
fn both_changed_differently_is_conflict() {
    let id = Uuid::new_v4().as_u128();
    let base = obj(id, "bpm", serde_json::Value::from(120));
    let ours = obj(id, "bpm", serde_json::Value::from(140));
    let their = obj(id, "bpm", serde_json::Value::from(160));
    let r = three_way_merge(&[base], &[ours], &[their]);
    assert!(r.merged.is_empty());
    assert_eq!(r.conflicts.len(), 1);
    assert!(matches!(r.conflicts[0].reason, ConflictReason::BothModified));
}

#[test]
fn added_by_one_side() {
    let id = Uuid::new_v4().as_u128();
    let new_obj = obj(id, "pattern", length(8));
    let r = three_way_merge(&[], &[new_obj.clone()], &[]);
    assert_eq!(r.merged.len(), 1);
    assert!(r.conflicts.is_empty());
}

#[test]
fn deleted_by_both() {
    let id = Uuid::new_v4().as_u128();
    let base = obj(id, "pattern", length(8));
    let r = three_way_merge(&[base], &[], &[]);
    assert!(r.merged.is_empty());
    assert!(r.conflicts.is_empty());
}

#[test]
fn delete_modify_conflict() {
    let id = Uuid::new_v4().as_u128();
    let base = obj(id, "pattern", length(8));
    let ours = obj(id, "pattern", length(16)); // we modified
    let r = three_way_merge(&[base], &[ours], &[]); // they deleted
    assert!(r.merged.is_empty());
    assert_eq!(r.conflicts.len(), 1);
    assert!(matches!(r.conflicts[0].reason, ConflictReason::DeleteModifyConflict));
}

#[test]
fn theirs_change_taken_and_unchanged_delete_omitted() {
    let base = obj(1, "bpm", serde_json::Value::from(120));
    let ours = obj(1, "bpm", serde_json::Value::from(120));
    let theirs = obj(1, "bpm", serde_json::Value::from(90));
    let r = three_way_merge(&[base.clone()], &[ours], &[theirs]);
    assert_eq!(r.merged.len(), 1);
    assert_eq!(r.merged[0].payload, "90");
    // theirs deleted, ours unchanged: the delete wins.
    let r = three_way_merge(&[base.clone()], &[base.clone()], &[]);
    assert!(r.merged.is_empty());
    assert!(r.conflicts.is_empty());
}

#[test]
fn resolve_conflict_picks_a_side() {
    let base = obj(5, "pattern", length(8));
    let ours = obj(5, "pattern", length(16));
    let r = three_way_merge(&[base], &[ours], &[]);
    let c = &r.conflicts[0];
    let mine = resolve_conflict(c, true).unwrap();
    assert_eq!(mine.id, 5);
    assert_eq!(mine.kind, "pattern");
    assert_eq!(mine.payload, "{\"length\":16}");
    assert!(resolve_conflict(c, false).is_none());
}

#[test]
fn merged_order_follows_first_appearance() {
    let a = obj(1, "x", serde_json::Value::from(1));
    let b = obj(2, "x", serde_json::Value::from(2));
    let c = obj(3, "x", serde_json::Value::from(3));
    let r = three_way_merge(&[], &[b.clone(), a.clone()], &[c.clone()]);
    let ids: Vec<u128> = r.merged.iter().map(|o| o.id).collect();
    assert_eq!(ids, vec![2, 1, 3]);
}
