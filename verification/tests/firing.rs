use seqterm::firing::{
    arrangement_port_messages, automation_cc_message, automation_changed, euclid_mask, plan_arrangement_hits, plan_hits, HitPlan,
};
use seqterm::note::Note;
use seqterm::pattern::{hits_in_window, Pattern};
use seqterm::rational::RationalTime;

fn plans_at(p: &Pattern, base: u64, mask: &[bool], drum: Option<[u8; 16]>, channel: u8) -> Vec<HitPlan> {
    let events = p.to_events();
    let master = RationalTime::new(1, 4);
    let hits = hits_in_window(&events, p.length_beats(), p.step_beats(), master * base as i64, master);
    plan_hits(p, &events, &hits, base, 480, mask, drum, channel, 0)
}

fn eight_step() -> Pattern {
    let mut p = Pattern::new("P".to_string(), 8);
    p.set_step(0, Note::from_midi(60, 100).unwrap());
    p.set_step(1, Note::from_midi(62, 90).unwrap());
    p
}

#[test]
fn on_grid_hit_plays_now_for_one_step() {
    let p = eight_step();
    let plans = plans_at(&p, 0, &[], None, 1);
    assert_eq!(plans.len(), 1);
    assert_eq!(plans[0].pos, 0);
    assert_eq!(plans[0].offset_ticks, 0);
    assert_eq!(plans[0].gate_ticks, 120);
    assert_eq!(plans[0].channel, 0);
    assert_eq!(plans[0].notes, vec![(60, 100)]);
    // The pattern loops: step 8 plays step 0 again.
    assert_eq!(plans_at(&p, 8, &[], None, 1)[0].notes, vec![(60, 100)]);
    // An empty step plays nothing.
    assert!(plans_at(&p, 2, &[], None, 1).is_empty());
}

#[test]
fn swing_delays_odd_steps() {
    let mut p = eight_step();
    p.swing = 75;
    let plans = plans_at(&p, 1, &[], None, 3);
    assert_eq!(plans.len(), 1);
    assert_eq!(plans[0].offset_ticks, 120); // (75 - 50) * 480 / 100
    assert_eq!(plans[0].channel, 2);
    assert_eq!(plans[0].notes, vec![(62, 90)]);
    assert_eq!(plans_at(&p, 0, &[], None, 3)[0].offset_ticks, 0);
}

#[test]
fn drum_channel_plays_the_mapped_note_on_channel_ten() {
    let p = eight_step();
    let mut map = [0u8; 16];
    map[1] = 38;
    let plans = plans_at(&p, 1, &[], Some(map), 5);
    assert_eq!(plans[0].channel, 9);
    assert_eq!(plans[0].notes, vec![(38, 90)]);
}

#[test]
fn euclid_and_probability_gates_silence_hits() {
    let p = eight_step();
    assert!(plans_at(&p, 0, &[false, true], None, 1).is_empty());
    assert_eq!(plans_at(&p, 1, &[false, true], None, 1).len(), 1);
    let mut q = eight_step();
    q.prob_lock = true;
    q.steps[0].prob = 5; // locked seed for step 0 is 7: 7 % 100 >= 5
    assert!(plans_at(&q, 0, &[], None, 1).is_empty());
    q.steps[0].prob = 8;
    assert_eq!(plans_at(&q, 0, &[], None, 1).len(), 1);
}

#[test]
fn humanization_jitters_within_range() {
    let mut p = eight_step();
    p.humanization = 100;
    let plans = plans_at(&p, 0, &[], None, 1);
    // range = 120 * 100 / 200 = 60 ticks; the offset never goes before the step.
    let h = 0u64.wrapping_mul(2654435761).wrapping_add(0).wrapping_mul(40503);
    let j = (h % 121) as i64 - 60;
    assert_eq!(plans[0].offset_ticks as i64, j.max(0));
}

#[test]
fn euclid_mask_is_the_bjorklund_pattern() {
    let mut p = eight_step();
    p.euclid_fill = 3;
    p.euclid_len = 8;
    assert_eq!(euclid_mask(&p, true), vec![true, false, false, true, false, false, true, false]);
    assert!(euclid_mask(&p, false).is_empty());
}

#[test]
fn arrangement_hits_play_every_voice_on_the_row_channel() {
    let p = eight_step();
    let events = p.to_events();
    let master = RationalTime::new(1, 4);
    let hits = hits_in_window(&events, p.length_beats(), p.step_beats(), master, master);
    let plans = plan_arrangement_hits(&events, &hits, 480, 2);
    assert_eq!(plans.len(), 1);
    assert_eq!(plans[0].offset_ticks, 0);
    assert_eq!(plans[0].gate_ticks, 120);
    assert_eq!(plans[0].channel, 1);
    assert_eq!(plans[0].notes, vec![(62, 90)]);
    assert_eq!(arrangement_port_messages(1, 62, 90), (vec![0x91, 62, 90], vec![0x81, 62, 0]));
    assert_eq!(automation_cc_message(4, 74, 100), vec![0xB4, 74, 100]);
}

#[test]
fn automation_is_sent_only_when_it_changes() {
    let mut sent: Vec<(usize, String, u8)> = Vec::new();
    assert!(automation_changed(&mut sent, 0, "cutoff", 10));
    assert!(!automation_changed(&mut sent, 0, "cutoff", 10));
    assert!(automation_changed(&mut sent, 1, "cutoff", 10));
    assert!(automation_changed(&mut sent, 0, "cutoff", 11));
    assert_eq!(sent, vec![(0, "cutoff".to_string(), 11), (1, "cutoff".to_string(), 10)]);
}
