use std::hash::Hasher;
use seqterm::note::Note;
use seqterm::pattern::{hits_in_window, musical_groupings, Pattern};
use seqterm::rational::{RationalTime, Resolution, Tuplet};

fn make_pattern(len: usize) -> Pattern {
    Pattern::new("TEST".to_string(), len)
}

#[test]
fn pattern_default_steps_empty() {
    let p = make_pattern(16);
    assert_eq!(p.length, 16);
    assert!(p.steps.iter().all(|s| s.is_empty()));
}

#[test]
fn set_and_get_step() {
    let mut p = make_pattern(8);
    let note = Note::from_midi(60, 100).unwrap();
    p.set_step(0, note.clone());
    assert_eq!(p.step(0).unwrap().to_midi(), Some(60));
}

#[test]
fn clear_step_makes_it_empty() {
    let mut p = make_pattern(8);
    let note = Note::from_midi(64, 80).unwrap();
    p.set_step(3, note);
    assert!(!p.step(3).unwrap().is_empty());
    p.clear_step(3);
    assert!(p.step(3).unwrap().is_empty());
}

#[test]
fn step_out_of_bounds_returns_none() {
    let p = make_pattern(8);
    assert!(p.step(8).is_none());
    assert!(p.step(100).is_none());
}

#[test]
fn effective_length_defaults_to_length() {
    let p = make_pattern(16);
    assert_eq!(p.effective_length(), 16);
}

#[test]
fn pattern_polymeter_phase() {
    let p = make_pattern(6);
    for global_step in 0..18usize {
        let pos = global_step % p.length;
        assert!(pos < p.length);
    }
}

#[test]
fn default_resolution_is_sixteenth() {
    let p = make_pattern(16);
    assert_eq!(p.resolution, Resolution::Whole(16));
    assert_eq!(p.length_beats(), RationalTime::whole(4));
    assert_eq!(p.step_beats(), RationalTime::new(1, 4));
}

#[test]
fn to_events_default_grid_positions() {
    let mut p = make_pattern(16);
    p.set_step(0, Note::from_midi(60, 100).unwrap());
    p.set_step(4, Note::from_midi(64, 100).unwrap());
    let events = p.to_events();
    assert_eq!(events.len(), 2);
    assert_eq!(events[0].start, RationalTime::zero());
    assert_eq!(events[0].duration, RationalTime::new(1, 4));
    assert_eq!(events[0].to_midi(), Some(60));
    assert_eq!(events[1].start, RationalTime::whole(1));
}

#[test]
fn to_events_gate_and_micro_fold_into_timing() {
    let mut p = make_pattern(8);
    let mut n = Note::from_midi(60, 100).unwrap();
    n.gate = 50;
    n.micro = 25;
    p.set_step(2, n);
    let events = p.to_events();
    assert_eq!(events.len(), 1);
    assert_eq!(events[0].start, RationalTime::new(1, 2) + RationalTime::new(1, 16));
    assert_eq!(events[0].duration, RationalTime::new(1, 8));
    assert_eq!(events[0].note.micro, 0);
    assert_eq!(events[0].note.gate, 100);
    assert_eq!(events[0].note.velocity, 100);
}

#[test]
fn to_events_triplet_resolution() {
    let mut p = make_pattern(12);
    p.resolution = Resolution::Whole(12);
    p.set_step(0, Note::from_midi(60, 100).unwrap());
    p.set_step(3, Note::from_midi(60, 100).unwrap());
    let events = p.to_events();
    assert_eq!(events[0].start, RationalTime::zero());
    assert_eq!(events[1].start, RationalTime::whole(1));
    assert_eq!(events[0].duration, RationalTime::new(1, 3));
    assert_eq!(p.length_beats(), RationalTime::whole(4));
}

#[test]
fn hits_in_window_matches_legacy_grid_selection() {
    let mut p = make_pattern(8);
    for i in 0..8 {
        p.set_step(i, Note::from_midi(60 + i as u8, 100).unwrap());
    }
    let events = p.to_events();
    let loop_len = p.length_beats();
    let step = p.step_beats();
    for global_step in 0..24usize {
        let w0 = step * global_step as i64;
        let hits = hits_in_window(&events, loop_len, step, w0, step);
        assert_eq!(hits.len(), 1, "exactly one hit per window at step {global_step}");
        assert_eq!(hits[0].local_step, global_step % 8);
        assert_eq!(hits[0].offset, RationalTime::zero(), "1/16 grid fires on-beat");
    }
}

#[test]
fn hits_in_window_triplet_subdivision() {
    let mut p = make_pattern(12);
    p.resolution = Resolution::Whole(12);
    for i in 0..12 {
        p.set_step(i, Note::from_midi(60, 100).unwrap());
    }
    let events = p.to_events();
    let loop_len = p.length_beats();
    let master = RationalTime::new(1, 4);
    let mut fired = Vec::new();
    for gs in 0..16usize {
        let w0 = master * gs as i64;
        for h in hits_in_window(&events, loop_len, p.step_beats(), w0, master) {
            fired.push((h.local_step, w0 + h.offset));
        }
    }
    assert_eq!(fired.len(), 12, "all 12 triplet steps fire once each");
    assert!(fired.iter().any(|(ls, at)| *ls == 1 && *at == RationalTime::new(1, 3)));
    assert!(fired.iter().any(|(ls, at)| *ls == 2 && *at == RationalTime::new(2, 3)));
}

#[test]
fn hits_in_window_polyrhythm_independent_loops() {
    let mut a = make_pattern(3);
    let mut b = make_pattern(4);
    a.set_step(0, Note::from_midi(60, 100).unwrap());
    b.set_step(0, Note::from_midi(67, 100).unwrap());
    let (ea, eb) = (a.to_events(), b.to_events());
    let step = RationalTime::new(1, 4);
    let mut coincidences = 0;
    for gs in 0..12usize {
        let w0 = step * gs as i64;
        let ha = hits_in_window(&ea, a.length_beats(), step, w0, step);
        let hb = hits_in_window(&eb, b.length_beats(), step, w0, step);
        if !ha.is_empty() && !hb.is_empty() {
            coincidences += 1;
        }
    }
    assert_eq!(coincidences, 1);
}

#[test]
fn quantize_to_snaps_micro_to_grid() {
    let mut p = make_pattern(8);
    let mut n = Note::from_midi(60, 100).unwrap();
    n.micro = 25;
    p.set_step(2, n);
    p.quantize_to(Resolution::Whole(16), Tuplet::none(), 100);
    assert_eq!(p.steps[2].micro, 0);
    assert_eq!(p.step_start(2), RationalTime::new(1, 2));
}

#[test]
fn quantize_to_partial_strength_pulls_halfway() {
    let mut p = make_pattern(8);
    let mut n = Note::from_midi(60, 100).unwrap();
    n.micro = 40;
    p.set_step(0, n);
    p.quantize_to(Resolution::Whole(16), Tuplet::none(), 50);
    assert_eq!(p.steps[0].micro, 20);
}

#[test]
fn quantize_to_triplet_grid() {
    let mut p = make_pattern(8);
    let mut n = Note::from_midi(60, 100).unwrap();
    n.micro = 30;
    p.set_step(1, n);
    p.quantize_to(Resolution::Whole(8), Tuplet::new(3, 2), 100);
    assert_eq!(p.steps[1].micro, 33);
    let s = p.step_start(1);
    assert!((s.num() as f64 / s.den() as f64 - 1.0 / 3.0).abs() < 0.003);
}

#[test]
fn humanize_rational_is_bounded_and_deterministic() {
    let mut a = make_pattern(8);
    let mut b = make_pattern(8);
    for p in [&mut a, &mut b] {
        for i in 0..8 {
            p.set_step(i, Note::from_midi(60, 100).unwrap());
        }
    }
    a.humanize_rational(20);
    b.humanize_rational(20);
    for i in 0..8 {
        assert!(a.steps[i].micro.abs() <= 20, "jitter within ±20%");
        assert_eq!(a.steps[i].micro, b.steps[i].micro, "deterministic");
    }
}

#[test]
fn set_resolution_preserves_positions_power_of_two() {
    let mut p = make_pattern(8);
    p.set_step(0, Note::from_midi(60, 100).unwrap());
    p.set_step(3, Note::from_midi(64, 100).unwrap());
    let mut n = Note::from_midi(67, 100).unwrap();
    n.micro = 50;
    p.set_step(5, n);
    let before = p.to_events();

    let dropped = p.set_resolution(Resolution::Whole(32));
    assert_eq!(dropped, 0);
    assert_eq!(p.resolution, Resolution::Whole(32));
    assert_eq!(p.length, 16);
    let after = p.to_events();

    assert_eq!(after.len(), before.len());
    for (a, b) in after.iter().zip(before.iter()) {
        assert_eq!(a.start, b.start, "position preserved exactly");
        assert_eq!(a.duration, b.duration, "duration preserved exactly");
        assert_eq!(a.to_midi(), b.to_midi());
    }
}

#[test]
fn set_resolution_preserves_musical_length() {
    let mut p = make_pattern(16);
    assert_eq!(p.length_beats(), RationalTime::whole(4));
    p.set_resolution(Resolution::Whole(8));
    assert_eq!(p.length, 8);
    assert_eq!(p.length_beats(), RationalTime::whole(4));
}

#[test]
fn set_note_duration_resizes_end() {
    let mut p = make_pattern(8);
    p.set_step(0, Note::from_midi(60, 100).unwrap());
    p.set_note_duration(0, RationalTime::new(3, 4));
    assert_eq!(p.steps[0].gate, 300);
    assert_eq!(p.step_duration(0), RationalTime::new(3, 4));
}

#[test]
fn resize_note_start_keeps_end_fixed() {
    let mut p = make_pattern(8);
    let mut n = Note::from_midi(60, 100).unwrap();
    n.gate = 100;
    p.set_step(0, n);
    let end_before = p.step_start(0) + p.step_duration(0);
    p.resize_note_start(0, RationalTime::new(1, 8));
    assert_eq!(p.steps[0].micro, 50);
    let end_after = p.step_start(0) + p.step_duration(0);
    assert_eq!(end_after, end_before);
    assert_eq!(p.step_duration(0), RationalTime::new(1, 8));
}

#[test]
fn groupings_of_seven() {
    assert_eq!(musical_groupings(7), vec![vec![7], vec![2, 2, 3], vec![2, 3, 2], vec![3, 2, 2]]);
    assert_eq!(musical_groupings(3), vec![vec![3]]);
    assert_eq!(musical_groupings(0), vec![vec![1]]);
    assert_eq!(musical_groupings(17), vec![vec![17]]);
}

#[test]
fn effective_groups_validates_sum() {
    let mut p = make_pattern(16);
    p.time_sig_num = 7;
    p.beat_groups = vec![3, 2, 2];
    assert_eq!(p.effective_groups(), vec![3, 2, 2]);
    p.beat_groups = vec![3, 3];
    assert_eq!(p.effective_groups(), vec![7]);
    p.beat_groups = vec![];
    assert_eq!(p.effective_groups(), vec![7]);
}

#[test]
fn swing_and_measures() {
    let mut p = make_pattern(32);
    p.swing = 54;
    assert_eq!(p.swing_offset(1, 96), 3);
    assert_eq!(p.swing_offset(2, 96), 0);
    p.swing = 40;
    assert_eq!(p.swing_offset(3, 96), -9);
    p.time_sig_num = 7;
    assert_eq!(p.effective_length(), 35);
    assert_eq!(Pattern::new("X".to_string(), 0).length, 1);
    assert_eq!(Pattern::new("X".to_string(), 10_000).length, 8192);
    assert_eq!(Pattern::new("X".to_string(), 1).euclid_len, 2);
    assert_eq!(Pattern::default().length, 64);
}

#[test]
fn window_edges_and_drops() {
    let mut p = make_pattern(4);
    p.set_step(0, Note::from_midi(60, 100).unwrap());
    let ev = p.to_events();
    assert!(hits_in_window(&ev, RationalTime::zero(), p.step_beats(), RationalTime::zero(), p.step_beats()).is_empty());
    assert!(hits_in_window(&ev, p.length_beats(), p.step_beats(), RationalTime::zero(), RationalTime::new(-1, 4)).is_empty());
    let hits = hits_in_window(&ev, p.length_beats(), p.step_beats(), RationalTime::new(-1, 1), RationalTime::whole(3));
    assert_eq!(hits.len(), 3);
    assert_eq!(hits[0].offset, RationalTime::zero());
    assert_eq!(hits[2].offset, RationalTime::whole(2));
    let mut q = make_pattern(8);
    q.set_step(0, Note::from_midi(60, 100).unwrap());
    q.set_step(1, Note::from_midi(62, 100).unwrap());
    q.set_step(2, Note::from_midi(64, 100).unwrap());
    // Step 1 moves to the next quarter with micro -75; step 2 finds no step.
    assert_eq!(q.set_resolution(Resolution::Whole(4)), 1);
    assert_eq!(q.length, 2);
    assert_eq!(q.steps[1].micro, -75);
    assert_eq!(q.steps[1].to_midi(), Some(62));
}

#[test]
fn humanize_timing_stays_in_range() {
    let mut p = make_pattern(8);
    for i in 0..8 {
        p.set_step(i, Note::from_midi(60, 100).unwrap());
    }
    p.humanize_timing(30);
    for i in 0..8 {
        assert!(p.steps[i].micro.abs() <= 30);
    }
    let mut q = make_pattern(4);
    q.humanize_rational(0);
    assert!(q.steps.iter().all(|s| s.micro == 0));
}

#[test]
fn window_hit_offsets_lie_inside_the_window() {
    let mut p = make_pattern(5);
    p.resolution = Resolution::Whole(5);
    for i in 0..5 {
        p.set_step(i, Note::from_midi(60, 100).unwrap());
    }
    let events = p.to_events();
    let loop_len = p.length_beats();
    let width = RationalTime::new(3, 7);
    let mut count = 0;
    for k in 0..20i64 {
        let w0 = width * k;
        for h in hits_in_window(&events, loop_len, p.step_beats(), w0, width) {
            assert!(!h.offset.is_negative());
            assert!(h.offset < width);
            count += 1;
        }
    }
    assert!(count > 0);
}

fn expected_step_hash(i: usize, micro: i8) -> u64 {
    let mut h = std::collections::hash_map::DefaultHasher::new();
    h.write(&i.to_ne_bytes());
    h.write(&[micro as u8]);
    h.finish()
}

#[test]
fn humanizers_follow_the_step_hash_exactly() {
    let mut t = make_pattern(6);
    let mut r = make_pattern(6);
    for i in 0..6 {
        let mut n = Note::from_midi(60, 100).unwrap();
        n.micro = (i as i8) * 7 - 10;
        t.set_step(i, n.clone());
        r.set_step(i, n);
    }
    let before = t.steps.clone();
    t.humanize_timing(30);
    r.humanize_rational(25);
    for i in 0..6 {
        let m = before[i].micro;
        let h = expected_step_hash(i, m);
        let tj = ((h as i8).wrapping_add(m) as i32) % 31;
        let rj = (h % 51) as i32 - 25;
        assert_eq!(t.steps[i].micro as i32, (m as i32 + tj).clamp(-99, 99));
        assert_eq!(r.steps[i].micro as i32, (m as i32 + rj).clamp(-99, 99));
    }
}

#[test]
fn coarser_power_of_two_keeps_neighbouring_notes() {
    let mut p = make_pattern(4);
    p.set_step(1, Note::from_midi(60, 100).unwrap());
    p.set_step(2, Note::from_midi(64, 100).unwrap());
    assert_eq!(p.set_resolution(Resolution::Whole(8)), 0);
    let ev = p.to_events();
    assert_eq!(ev.len(), 2);
    assert_eq!(ev[0].start, RationalTime::new(1, 4));
    assert_eq!(ev[0].duration, RationalTime::new(1, 4));
    assert_eq!(ev[0].to_midi(), Some(60));
    assert_eq!(ev[1].start, RationalTime::new(1, 2));
    assert_eq!(ev[1].duration, RationalTime::new(1, 4));
    assert_eq!(ev[1].to_midi(), Some(64));
}
