use seqterm::channel::{FxKind, FxRouteKind, Pan, GM_DRUM_MAP};

#[test]
fn fxkind_cycle_covers_all_variants() {
    let start = FxKind::Off;
    let mut current = start.next();
    let mut count = 1;
    while current != FxKind::Off {
        current = current.next();
        count += 1;
        assert!(count < 100, "FxKind cycle did not return to None");
    }
    assert_eq!(count, FxKind::ORDER.len());
}

#[test]
fn fxkind_prev_undoes_next() {
    for k in FxKind::ORDER.iter() {
        assert_eq!(k.next().prev(), *k);
    }
    assert_eq!(FxKind::Off.prev(), FxKind::MonoMaker);
}

#[test]
fn fx_route_cycle_returns() {
    let mut r = FxRouteKind::Off;
    for _ in 0..16 {
        r = r.next();
        if r == FxRouteKind::Off {
            return;
        }
    }
    panic!("route cycle did not return");
}

#[test]
fn pan_value_roundtrip() {
    for v in [-50i8, -1, 0, 1, 50] {
        assert_eq!(Pan::from_val(v).to_val(), v);
    }
    assert_eq!(Pan::default(), Pan::Center);
}

#[test]
fn gm_drum_map_kick_and_snare() {
    assert_eq!(GM_DRUM_MAP[0], 36);
    assert_eq!(GM_DRUM_MAP[1], 38);
}
