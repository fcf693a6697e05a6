use seqterm::edit::{EditState, SnapMode};
use seqterm::rational::{RationalTime, Resolution, Tuplet};

fn r(n: i64, d: i64) -> RationalTime {
    RationalTime::new(n, d)
}

#[test]
fn default_is_sixteenth_grid_snap() {
    let e = EditState::default();
    assert_eq!(e.resolution, Resolution::Whole(16));
    assert_eq!(e.grid_beats(), r(1, 4));
    assert_eq!(e.snap_unit(), Some(r(1, 4)));
}

#[test]
fn snap_pos_to_sixteenth() {
    let e = EditState::default();
    assert_eq!(e.snap_pos(r(3, 10)), r(1, 4));
    assert_eq!(e.snap_pos(r(2, 5)), r(1, 2));
    assert_eq!(e.snap_pos(r(3, 4)), r(3, 4));
}

#[test]
fn fine_snap_halves_the_grid() {
    let mut e = EditState::default();
    e.snap = SnapMode::Fine;
    assert_eq!(e.snap_unit(), Some(r(1, 8)));
    assert_eq!(e.snap_pos(r(1, 5)), r(1, 4));
}

#[test]
fn free_time_and_off_bypass_snap() {
    let mut e = EditState::default();
    e.free_time = true;
    assert_eq!(e.snap_unit(), None);
    assert_eq!(e.snap_pos(r(7, 13)), r(7, 13));
    e.free_time = false;
    e.snap = SnapMode::Off;
    assert_eq!(e.snap_pos(r(7, 13)), r(7, 13));
}

#[test]
fn triplet_grid_snaps_to_thirds() {
    let mut e = EditState::default();
    e.resolution = Resolution::Whole(8);
    e.toggle_triplet();
    assert_eq!(e.grid_beats(), r(1, 3));
    assert_eq!(e.snap_pos(r(3, 10)), r(1, 3));
    assert_eq!(e.snap_pos(r(3, 5)), r(2, 3));
    e.toggle_triplet();
    assert_eq!(e.tuplet, None);
}

#[test]
fn snap_duration_never_zero() {
    let e = EditState::default();
    assert_eq!(e.snap_duration(r(1, 100)), r(1, 4));
    assert_eq!(e.snap_duration(r(1, 3)), r(1, 4));
    assert_eq!(e.snap_duration(r(3, 4)), r(3, 4));
}

#[test]
fn cycle_resolution_saturates() {
    let mut e = EditState::default();
    e.cycle_resolution(1);
    assert_eq!(e.resolution.den(), 32);
    e.cycle_resolution(-1);
    assert_eq!(e.resolution.den(), 16);
    for _ in 0..10 {
        e.cycle_resolution(-1);
    }
    assert_eq!(e.resolution.den(), 1);
}

#[test]
fn snap_mode_cycles() {
    assert_eq!(SnapMode::Grid.next(), SnapMode::Fine);
    assert_eq!(SnapMode::Fine.next(), SnapMode::Off);
    assert_eq!(SnapMode::Off.next(), SnapMode::Grid);
}

#[test]
fn summary_text() {
    let mut e = EditState::default();
    assert_eq!(e.summary(), "1/16 · snap grid");
    e.resolution = Resolution::Whole(8);
    e.toggle_triplet();
    assert_eq!(e.summary(), "1/8·3:2 · snap grid");
    e.free_time = true;
    assert_eq!(e.summary(), "1/8·3:2 · free");
}

#[test]
fn grid_label_never_shows_the_tuplet() {
    let mut e = EditState::default();
    e.resolution = Resolution::Whole(32);
    e.tuplet = Some(Tuplet::new(6, 4));
    assert_eq!(e.grid_label(), "1/32 · snap grid");
    assert!(!e.grid_label().contains(':'), "no tuplet ratio in the grid label");
    assert!(e.summary().contains("6:4"));
    assert_eq!(e.display_grid_beats(), r(1, 8));
}

#[test]
fn cycle_resolution_off_ladder_starts_at_sixteenth() {
    let mut e = EditState::default();
    e.resolution = Resolution::Custom(7);
    e.cycle_resolution(2);
    assert_eq!(e.resolution, Resolution::Whole(64));
    e.cycle_resolution(i32::MAX);
    assert_eq!(e.resolution, Resolution::Whole(48));
    e.cycle_resolution(i32::MIN);
    assert_eq!(e.resolution, Resolution::Whole(1));
}

#[test]
fn snap_rounds_negative_positions_and_labels_modes() {
    let e = EditState::default();
    assert_eq!(e.snap_pos(r(-3, 10)), r(-1, 4));
    assert_eq!(e.snap_pos(r(-1, 8)), RationalTime::zero());
    assert_eq!(SnapMode::Fine.label(), "fine");
    let mut f = EditState::default();
    f.tuplet = Some(Tuplet::new(5, 5));
    assert_eq!(f.summary(), "1/16 · snap grid");
    f.tuplet = Some(Tuplet { num: -3, den: 2 });
    assert_eq!(f.summary(), "1/16·-3:2 · snap grid");
}
