use seqterm::crdt::{GrowOnlySet, LamportClock, LamportTs, LwwRegister};
use uuid::Uuid;

#[test]
fn lamport_clock_ordering() {
    let site = Uuid::new_v4().as_u128();
    let mut c = LamportClock::new(site);
    assert_eq!(c.tick(), 1);
    assert_eq!(c.tick(), 2);
    c.receive(10);
    assert_eq!(c.time, 11);
    assert_eq!(c.tick(), 12);
}

#[test]
fn grow_only_set_merge() {
    let mut a: GrowOnlySet<u32> = GrowOnlySet::new();
    let mut b: GrowOnlySet<u32> = GrowOnlySet::new();
    a.add(1);
    a.add(2);
    b.add(2);
    b.add(3);
    a.merge(&b);
    assert!(a.contains(&1));
    assert!(a.contains(&2));
    assert!(a.contains(&3));
    assert_eq!(a.len(), 3);
}

#[test]
fn lww_register_last_wins() {
    let s1 = Uuid::new_v4().as_u128();
    let s2 = Uuid::new_v4().as_u128();
    let mut r: LwwRegister<u32> = LwwRegister::new();
    r.set(1, LamportTs { time: 1, site_id: s1 });
    r.set(2, LamportTs { time: 2, site_id: s2 });
    r.set(3, LamportTs { time: 1, site_id: s1 }); // older, should be ignored
    assert_eq!(*r.get().unwrap(), 2);
}

#[test]
fn lww_merge_either_way_agrees() {
    let mut a: LwwRegister<u32> = LwwRegister::new();
    let mut b: LwwRegister<u32> = LwwRegister::new();
    a.set(10, LamportTs { time: 5, site_id: 1 });
    b.set(20, LamportTs { time: 5, site_id: 2 });
    let mut ab = a.clone();
    ab.merge(&b);
    let mut ba = b.clone();
    ba.merge(&a);
    assert_eq!(*ab.get().unwrap(), 20);
    assert_eq!(*ba.get().unwrap(), 20);
    let mut aa = a.clone();
    aa.merge(&a);
    assert_eq!(*aa.get().unwrap(), 10);
}

#[test]
fn grow_only_set_merge_is_idempotent_and_empty_checks() {
    let mut a: GrowOnlySet<u32> = GrowOnlySet::new();
    assert!(a.is_empty());
    a.add(7);
    a.add(7);
    assert_eq!(a.len(), 1);
    let b = {
        let mut b: GrowOnlySet<u32> = GrowOnlySet::new();
        b.add(7);
        b
    };
    a.merge(&b);
    assert_eq!(a.len(), 1);
    assert!(!a.contains(&8));
}

#[test]
fn lamport_receive_older_time_still_advances() {
    let mut c = LamportClock::new(1);
    c.tick();
    c.tick();
    c.tick();
    c.receive(1);
    assert_eq!(c.time, 4);
}

#[test]
fn oplog_preserves_order() {
    let s = 7u128;
    let mut log = seqterm::crdt::OpLog::new();
    for t in [3u64, 1, 2] {
        log.push(seqterm::crdt::DeltaOp { op_id: t as u128, site_id: s, ts: t, payload: t as f64 });
    }
    let bpms: Vec<f64> = log.iter().iter().map(|op| op.payload).collect();
    assert_eq!(bpms, vec![1.0, 2.0, 3.0]);
}

#[test]
fn oplog_replaces_equal_keys_and_catches_up_from_a_key() {
    let mut log = seqterm::crdt::OpLog::new();
    for (t, site, p) in [(2u64, 5u128, 'a'), (1, 9, 'b'), (2, 1, 'c'), (2, 5, 'd'), (4, 0, 'e')] {
        log.push(seqterm::crdt::DeltaOp { op_id: 0, site_id: site, ts: t, payload: p });
    }
    assert_eq!(log.len(), 4);
    assert!(!log.is_empty());
    let all: Vec<char> = log.iter().iter().map(|op| op.payload).collect();
    assert_eq!(all, vec!['b', 'c', 'd', 'e']);
    let after: Vec<char> = log.since(2, 2).iter().map(|op| op.payload).collect();
    assert_eq!(after, vec!['d', 'e']);
    assert!(log.since(5, 0).is_empty());
    assert!(seqterm::crdt::OpLog::<char>::new().is_empty());
}
