use seqterm::arrangement::{Arrangement, ArrangementTrack, Clip, ClipKind, Lane};
use seqterm::project::{Track, TrackKind};
use seqterm::rational::RationalTime;

fn r(n: i64, d: i64) -> RationalTime {
    RationalTime::new(n, d)
}

fn pclip(id: u64, start: RationalTime, len: RationalTime) -> Clip {
    Clip::new(id, "C".to_string(), ClipKind::Pattern { pattern_key: "P".into() }, start, len)
}

fn track(name: &str) -> ArrangementTrack {
    ArrangementTrack::new(name.to_string(), TrackKind::Midi)
}

#[test]
fn clip_span_and_contains() {
    let c = pclip(0, r(1, 2), r(2, 1)); // [0.5, 2.5)
    assert_eq!(c.end(), r(5, 2));
    assert!(c.contains(r(1, 1)));
    assert!(c.contains(r(1, 2))); // start inclusive
    assert!(!c.contains(r(5, 2))); // end exclusive
    assert!(!c.contains(RationalTime::zero()));
}

#[test]
fn clips_overlap() {
    let a = pclip(0, RationalTime::zero(), r(2, 1)); // [0,2)
    let b = pclip(1, r(1, 1), r(2, 1)); // [1,3)
    let c = pclip(2, r(2, 1), r(1, 1)); // [2,3)
    assert!(a.overlaps(&b));
    assert!(!a.overlaps(&c)); // touch at 2, half-open → no overlap
}

#[test]
fn split_at_divides_span_and_advances_offset() {
    let mut left = pclip(0, r(1, 1), r(4, 1)); // [1,5)
    left.content_offset = r(1, 2); // source started 0.5 in
    let right = left.split_at(r(3, 1), 7).unwrap();
    // Left becomes [1,3), right [3,5).
    assert_eq!(left.start, r(1, 1));
    assert_eq!(left.length, r(2, 1));
    assert_eq!(right.id, 7);
    assert_eq!(right.start, r(3, 1));
    assert_eq!(right.length, r(2, 1));
    // Right's content offset advanced by the left length (2 beats).
    assert_eq!(right.content_offset, r(5, 2));
    // Split outside the span fails.
    assert!(left.split_at(r(10, 1), 8).is_none());
    assert!(left.split_at(r(1, 1), 8).is_none()); // exactly at start
}

#[test]
fn trim_end_changes_length_only() {
    let mut c = pclip(0, r(1, 1), r(4, 1)); // [1,5)
    c.trim_end(r(3, 1));
    assert_eq!(c.length, r(2, 1));
    assert_eq!(c.content_offset, RationalTime::zero());
    c.trim_end(r(1, 2)); // before start → no-op
    assert_eq!(c.length, r(2, 1));
}

#[test]
fn trim_start_keeps_end_and_advances_offset() {
    let mut c = pclip(0, r(1, 1), r(4, 1)); // [1,5)
    c.trim_start(r(2, 1)); // → [2,5)
    assert_eq!(c.start, r(2, 1));
    assert_eq!(c.length, r(3, 1));
    assert_eq!(c.content_offset, r(1, 1)); // advanced by 1 beat
    assert_eq!(c.end(), r(5, 1)); // end preserved
}

#[test]
fn trim_start_left_of_onset_clamps_offset() {
    let mut c = pclip(0, r(2, 1), r(2, 1)); // [2,4)
    c.trim_start(r(1, 1)); // extend left to [1,4)
    assert_eq!(c.start, r(1, 1));
    assert_eq!(c.length, r(3, 1));
    assert_eq!(c.content_offset, RationalTime::zero());
    c.trim_start(r(9, 1)); // past the end → no-op
    assert_eq!(c.start, r(1, 1));
}

#[test]
fn lane_clip_at_and_sort() {
    let mut lane = Lane::default();
    lane.clips.push(pclip(0, r(4, 1), r(2, 1)));
    lane.clips.push(pclip(1, RationalTime::zero(), r(2, 1)));
    lane.sort();
    assert_eq!(lane.clips[0].id, 1); // earlier start first
    assert_eq!(lane.clip_at(r(1, 1)).unwrap().id, 1);
    assert!(lane.clip_at(r(3, 1)).is_none()); // gap between clips
}

#[test]
fn lane_sort_keeps_equal_starts_in_order() {
    let mut lane = Lane::default();
    lane.clips.push(pclip(5, r(1, 1), r(1, 1)));
    lane.clips.push(pclip(3, r(1, 1), r(1, 1)));
    lane.clips.push(pclip(4, r(0, 1), r(1, 1)));
    lane.sort();
    let ids: Vec<u64> = lane.clips.iter().map(|c| c.id).collect();
    assert_eq!(ids, vec![4, 5, 3]);
}

#[test]
fn arrangement_id_alloc_is_monotonic() {
    let mut a = Arrangement::default();
    assert_eq!(a.alloc_id(), 0);
    assert_eq!(a.alloc_id(), 1);
    assert_eq!(a.next_clip_id, 2);
}

#[test]
fn arrangement_length_is_last_clip_end() {
    let mut a = Arrangement::default();
    let mut t = track("T");
    t.push_to_primary_lane(pclip(0, RationalTime::zero(), r(4, 1)));
    t.push_to_primary_lane(pclip(1, r(4, 1), r(3, 1))); // ends at 7
    a.tracks.push(t);
    assert_eq!(a.length_beats(), r(7, 1));
    assert!(!a.is_empty());
    assert_eq!(Arrangement::default().length_beats(), RationalTime::zero());
    assert!(Arrangement::default().is_empty());
}

#[test]
fn migrate_legacy_blocks_to_rational_clips() {
    let mut leg = Track::new("Bass".to_string());
    leg.blocks = vec![(0, 2, "BASS1".into()), (4, 1, "BASS2".into())];
    leg.mute = true;
    let arr = Arrangement::from_legacy_tracks(&[leg], 4); // 4 beats/bar

    assert_eq!(arr.tracks.len(), 1);
    let track = &arr.tracks[0];
    assert_eq!(track.name, "Bass");
    assert!(track.mute);
    let clips = &track.lanes[0].clips;
    assert_eq!(clips.len(), 2);
    // bar 0, len 2 bars → start 0, length 8 beats.
    assert_eq!(clips[0].start, RationalTime::zero());
    assert_eq!(clips[0].length, r(8, 1));
    assert_eq!(clips[0].kind.pattern_key(), Some("BASS1"));
    // bar 4 → start 16 beats; len 1 bar → 4 beats.
    assert_eq!(clips[1].start, r(16, 1));
    assert_eq!(clips[1].length, r(4, 1));
    // ids are unique and the allocator points past them.
    assert_eq!(clips[0].id, 0);
    assert_eq!(clips[1].id, 1);
    assert_eq!(arr.next_clip_id, 2);
}

#[test]
fn clips_active_at_resolves_local_position() {
    let mut a = Arrangement::default();
    let mut t = track("T");
    let mut c = pclip(3, r(2, 1), r(4, 1)); // [2,6)
    c.content_offset = r(1, 1); // source starts 1 beat in
    t.push_to_primary_lane(c);
    a.tracks.push(t);

    // Before the clip: nothing.
    assert!(a.clips_active_at(RationalTime::zero()).is_empty());
    // At beat 2 (clip start): local = offset 1 + 0 = 1.
    let h = a.clips_active_at(r(2, 1));
    assert_eq!(h.len(), 1);
    assert_eq!(h[0].clip_id, 3);
    assert_eq!(h[0].pattern_key.as_deref(), Some("P"));
    assert_eq!(h[0].local_beat, r(1, 1));
    // At beat 4 (2 beats in): local = 1 + 2 = 3.
    assert_eq!(a.clips_active_at(r(4, 1))[0].local_beat, r(3, 1));
    // At the exclusive end (beat 6): nothing.
    assert!(a.clips_active_at(r(6, 1)).is_empty());
}

#[test]
fn clips_active_at_skips_muted() {
    let mut a = Arrangement::default();
    let mut t = track("T");
    let mut c = pclip(0, RationalTime::zero(), r(4, 1));
    c.muted = true;
    t.push_to_primary_lane(c);
    a.tracks.push(t);
    assert!(a.clips_active_at(r(1, 1)).is_empty(), "muted clip skipped");
    a.tracks[0].lanes[0].clips[0].muted = false;
    a.tracks[0].mute = true;
    assert!(a.clips_active_at(r(1, 1)).is_empty(), "muted track skipped");
}

#[test]
fn clip_mut_finds_by_id() {
    let mut a = Arrangement::default();
    let mut t = track("T");
    t.push_to_primary_lane(pclip(5, RationalTime::zero(), r(2, 1)));
    a.tracks.push(t);
    a.clip_mut(5).unwrap().name = "renamed".into();
    assert_eq!(a.tracks[0].lanes[0].clips[0].name, "renamed");
    assert!(a.clip_mut(99).is_none());
}

#[test]
fn add_delete_clip() {
    let mut a = Arrangement::default();
    a.tracks.push(track("T"));
    let id = a
        .add_clip(0, "C".to_string(), ClipKind::Pattern { pattern_key: "P".into() }, RationalTime::zero(), r(4, 1))
        .unwrap();
    assert_eq!(a.tracks[0].lanes[0].clips.len(), 1);
    assert!(
        a.add_clip(9, "x".to_string(), ClipKind::Pattern { pattern_key: "P".into() }, RationalTime::zero(), r(1, 1))
            .is_none(),
        "bad track index"
    );
    assert!(a.delete_clip(id));
    assert!(a.tracks[0].lanes[0].clips.is_empty());
    assert!(!a.delete_clip(id), "already gone");
}

#[test]
fn duplicate_clip_places_after() {
    let mut a = Arrangement::default();
    a.tracks.push(track("T"));
    let id = a
        .add_clip(0, "C".to_string(), ClipKind::Pattern { pattern_key: "P".into() }, r(2, 1), r(4, 1))
        .unwrap(); // [2,6)
    let dup = a.duplicate_clip(id).unwrap();
    let clips = &a.tracks[0].lanes[0].clips;
    assert_eq!(clips.len(), 2);
    let copy = clips.iter().find(|c| c.id == dup).unwrap();
    assert_eq!(copy.start, r(6, 1)); // right after the original's end
    assert_eq!(copy.length, r(4, 1));
}

#[test]
fn split_clip_inserts_right_half() {
    let mut a = Arrangement::default();
    a.tracks.push(track("T"));
    let id = a
        .add_clip(0, "C".to_string(), ClipKind::Pattern { pattern_key: "P".into() }, r(1, 1), r(4, 1))
        .unwrap(); // [1,5)
    let right = a.split_clip(id, r(3, 1)).unwrap();
    let clips = &a.tracks[0].lanes[0].clips;
    assert_eq!(clips.len(), 2);
    assert_eq!(clips[0].id, id);
    assert_eq!(clips[0].length, r(2, 1)); // [1,3)
    assert_eq!(clips[1].id, right);
    assert_eq!(clips[1].start, r(3, 1)); // [3,5)
    // Split outside the span fails and adds nothing.
    assert!(a.split_clip(id, r(10, 1)).is_none());
    assert_eq!(a.tracks[0].lanes[0].clips.len(), 2);
}

#[test]
fn track_clip_ids_ordered_by_start() {
    let mut a = Arrangement::default();
    let mut t = track("T");
    t.push_to_primary_lane(pclip(2, r(4, 1), r(2, 1)));
    t.push_to_primary_lane(pclip(0, RationalTime::zero(), r(2, 1)));
    t.push_to_primary_lane(pclip(1, r(2, 1), r(2, 1)));
    a.tracks.push(t);
    assert_eq!(a.track_clip_ids(0), vec![0, 1, 2]);
    assert_eq!(a.first_clip_on_track(0), Some(0));
    assert!(a.track_clip_ids(9).is_empty());
}

#[test]
fn neighbor_clip_steps_and_stops_at_edges() {
    let mut a = Arrangement::default();
    let mut t = track("T");
    for i in 0..3 {
        t.push_to_primary_lane(pclip(i, RationalTime::whole(i as i64 * 2), r(2, 1)));
    }
    a.tracks.push(t);
    assert_eq!(a.neighbor_clip(0, 0, true), Some(1));
    assert_eq!(a.neighbor_clip(0, 1, true), Some(2));
    assert_eq!(a.neighbor_clip(0, 2, true), None); // past the end
    assert_eq!(a.neighbor_clip(0, 1, false), Some(0));
    assert_eq!(a.neighbor_clip(0, 0, false), None); // before the start
    // Unknown current id → entry point (first when forward, last when back).
    assert_eq!(a.neighbor_clip(0, 99, true), Some(0));
    assert_eq!(a.neighbor_clip(0, 99, false), Some(2));
}

#[test]
fn nearest_clip_on_track_picks_closest_start() {
    let mut a = Arrangement::default();
    let mut t = track("T");
    t.push_to_primary_lane(pclip(0, RationalTime::zero(), r(2, 1)));
    t.push_to_primary_lane(pclip(1, r(8, 1), r(2, 1)));
    a.tracks.push(t);
    assert_eq!(a.nearest_clip_on_track(0, r(1, 1)), Some(0));
    assert_eq!(a.nearest_clip_on_track(0, r(7, 1)), Some(1));
    assert_eq!(a.locate_clip(1), Some((0, 0)));
    assert!(a.nearest_clip_on_track(9, RationalTime::zero()).is_none());
    // clip_at_on_track: only when the beat falls inside a clip span.
    assert_eq!(a.clip_at_on_track(0, r(1, 1)), Some(0)); // inside [0,2)
    assert!(a.clip_at_on_track(0, r(4, 1)).is_none()); // gap between clips
    assert_eq!(a.clip_at_on_track(0, r(8, 1)), Some(1)); // start of [8,10)
    // Equally near starts: the first wins.
    assert_eq!(a.nearest_clip_on_track(0, r(4, 1)), Some(0));
}

#[test]
fn playback_hits_only_for_routed_tracks() {
    let mut a = Arrangement::default();
    // Track 0: routed to row "A".
    let mut t0 = track("Lead");
    t0.source_row = Some("A".into());
    let mut c = pclip(0, r(2, 1), r(4, 1)); // [2,6)
    c.content_offset = r(1, 1);
    t0.push_to_primary_lane(c);
    a.tracks.push(t0);
    // Track 1: same clip span but UNROUTED — must not produce hits.
    let mut t1 = track("Pad");
    t1.push_to_primary_lane(pclip(1, r(2, 1), r(4, 1)));
    a.tracks.push(t1);

    // Outside any clip: nothing.
    assert!(a.playback_hits(RationalTime::zero()).is_empty());
    // Inside the routed clip at beat 4: local = offset 1 + (4-2) = 3.
    let hits = a.playback_hits(r(4, 1));
    assert_eq!(hits.len(), 1, "only the routed track plays");
    assert_eq!(hits[0].source_row, "A");
    assert_eq!(hits[0].pattern_key, "P");
    assert_eq!(hits[0].local_beat, r(3, 1));
    // Muting the routed track silences it.
    a.tracks[0].mute = true;
    assert!(a.playback_hits(r(4, 1)).is_empty());
}

#[test]
fn clip_kind_labels_and_keys() {
    let audio = ClipKind::Audio { path: "x.wav".into(), gain_bits: 0.5f32.to_bits() };
    assert_eq!(audio.label(), "AUDIO");
    assert_eq!(audio.pattern_key(), None);
    let midi = ClipKind::Midi { pattern_key: Some("M".into()) };
    assert_eq!(midi.label(), "MIDI");
    assert_eq!(midi.pattern_key(), Some("M"));
    assert_eq!(ClipKind::Pattern { pattern_key: "P".into() }.label(), "PATTERN");
}

#[test]
fn edits_keep_clip_ids_unique_and_below_the_allocator() {
    let mut a = Arrangement::default();
    a.tracks.push(track("A"));
    a.tracks.push(track("B"));
    let k = ClipKind::Pattern { pattern_key: "P".into() };
    let c1 = a.add_clip(0, "one".into(), k.clone(), r(0, 1), r(4, 1)).unwrap();
    let c2 = a.add_clip(1, "two".into(), k.clone(), r(2, 1), r(2, 1)).unwrap();
    let c3 = a.duplicate_clip(c1).unwrap();
    let c4 = a.split_clip(c2, r(3, 1)).unwrap();
    assert!(a.delete_clip(c3));
    let c5 = a.add_clip(0, "five".into(), k, r(8, 1), r(1, 1)).unwrap();
    let mut ids: Vec<u64> = a
        .tracks
        .iter()
        .flat_map(|t| t.lanes.iter())
        .flat_map(|l| l.clips.iter())
        .map(|c| c.id)
        .collect();
    assert!(ids.iter().all(|id| *id < a.next_clip_id));
    ids.sort();
    let n = ids.len();
    ids.dedup();
    assert_eq!(ids.len(), n);
    assert_eq!(ids, vec![c1, c2, c4, c5]);
}
