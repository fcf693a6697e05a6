use seqterm::demo::{demo_automation, demo_matrix, demo_midi_outputs, demo_osc_routes, demo_patterns, demo_scenes, demo_tracks};

#[test]
fn demo_patterns_hold_the_grooves() {
    let p = demo_patterns();
    assert_eq!(p.len(), 7);
    let kck = &p[0].1;
    assert_eq!(kck.length, 16);
    for i in 0..16 {
        assert_eq!(kck.steps[i].is_empty(), i % 4 != 0);
    }
    assert_eq!(kck.steps[4].note, "C-1");
    assert_eq!(kck.steps[4].velocity, 110);
    let hat = &p[2].1;
    assert_eq!(hat.steps[1].velocity, 60);
    assert_eq!(hat.steps[2].velocity, 90);
    let arp = &p[5].1;
    assert_eq!(arp.steps[4].note, "C-5");
    assert_eq!(arp.steps[4].gate, 50);
    let pad = &p[6].1;
    assert_eq!(pad.length, 32);
    assert_eq!(pad.steps[16].note, "G-3");
    assert_eq!(pad.steps[16].gate, 200);
}

#[test]
fn demo_layout() {
    let m = demo_matrix();
    assert_eq!(m[3], ("D".to_string(), "BASS1".to_string()));
    let t = demo_tracks();
    assert_eq!(t[2].blocks[2], (12, 8, "ARP01".to_string()));
    let a = demo_automation();
    assert_eq!(a[0].points[3], (12, 127));
    let s = demo_scenes();
    assert_eq!(s[2].active_clips[5].as_deref(), Some("ARP01"));
    assert!(s[0].active_clips[1].is_none());
    assert_eq!(demo_midi_outputs()[1].channel, 10);
    assert_eq!(demo_osc_routes()[3].target, "channel.volume");
}
