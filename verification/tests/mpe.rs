use seqterm::mpe::{MpeChannelMap, MpeZone, MpeZoneKind};

#[test]
fn lower_zone_master_and_members() {
    let z = MpeZone::lower(3);
    assert_eq!(z.master_channel(), 0);
    assert_eq!(z.member_channels(), vec![1, 2, 3]);
}

#[test]
fn upper_zone_master_and_members() {
    let z = MpeZone::upper(3);
    assert_eq!(z.master_channel(), 15);
    assert_eq!(z.member_channels(), vec![14, 13, 12]);
}

#[test]
fn allocate_sequential() {
    let mut map = MpeChannelMap::new(MpeZone::lower(3));
    assert_eq!(map.allocate(60), 1);
    assert_eq!(map.allocate(64), 2);
    assert_eq!(map.allocate(67), 3);
}

#[test]
fn release_frees_channel() {
    let mut map = MpeChannelMap::new(MpeZone::lower(3));
    map.allocate(60);
    map.allocate(64);
    map.release(60);
    let ch = map.allocate(72);
    assert_eq!(ch, 3);
}

#[test]
fn steal_when_all_busy() {
    let mut map = MpeChannelMap::new(MpeZone::lower(2));
    map.allocate(60);
    map.allocate(64);
    let ch = map.allocate(67);
    assert_eq!(ch, 1);
}

#[test]
fn channel_of_returns_correct() {
    let mut map = MpeChannelMap::new(MpeZone::lower(4));
    map.allocate(60);
    map.allocate(64);
    assert_eq!(map.channel_of(64), Some(2));
    assert_eq!(map.channel_of(99), None);
}

#[test]
fn zone_clamps_and_upper_allocation() {
    assert_eq!(MpeZone::lower(0).num_channels, 1);
    assert_eq!(MpeZone::upper(40).num_channels, 15);
    let z = MpeZone::default();
    assert_eq!(z.kind, MpeZoneKind::Lower);
    assert_eq!(z.pitch_bend_range, 48);
    let mut map = MpeChannelMap::new(MpeZone::upper(2));
    assert_eq!(map.master_channel(), 15);
    assert_eq!(map.pitch_bend_range(), 48);
    assert_eq!(map.allocate(50), 14);
    assert_eq!(map.channel_of(50), Some(14));
    assert_eq!(map.release(50), Some(14));
    assert_eq!(map.release(50), None);
    assert_eq!(map.channel_of(50), None);
}

#[test]
fn steal_takes_the_oldest_active_note() {
    let mut m = MpeChannelMap::new(MpeZone::lower(3));
    assert_eq!(m.allocate(60), 1);
    assert_eq!(m.allocate(64), 2);
    assert_eq!(m.allocate(67), 3);
    m.release(64);
    assert_eq!(m.allocate(72), 2);
    assert_eq!(m.allocate(76), 1);
    assert_eq!(m.channel_of(60), None);
    assert_eq!(m.channel_of(67), Some(3));
    assert_eq!(m.channel_of(76), Some(1));
}
