use seqterm::euclid::{euclidean_rhythm, rotate};

#[test]
fn test_e_3_8() {
    let r = euclidean_rhythm(3, 8);
    assert_eq!(r.len(), 8);
    assert_eq!(r.iter().filter(|&&b| b).count(), 3);
}

#[test]
fn test_e_5_16() {
    let r = euclidean_rhythm(5, 16);
    assert_eq!(r.len(), 16);
    assert_eq!(r.iter().filter(|&&b| b).count(), 5);
}

#[test]
fn test_e_0_8() {
    let r = euclidean_rhythm(0, 8);
    assert!(r.iter().all(|&b| !b));
}

#[test]
fn test_e_8_8() {
    let r = euclidean_rhythm(8, 8);
    assert!(r.iter().all(|&b| b));
}

#[test]
fn e_3_8_is_the_tresillo() {
    assert_eq!(
        euclidean_rhythm(3, 8),
        vec![true, false, false, true, false, false, true, false]
    );
    assert_eq!(euclidean_rhythm(12, 8).len(), 8);
    assert!(euclidean_rhythm(3, 0).is_empty());
}

#[test]
fn rotate_moves_tail_to_front() {
    let r = vec![true, false, false, false];
    assert_eq!(rotate(&r, 1), vec![false, true, false, false]);
    assert_eq!(rotate(&r, 5), vec![false, true, false, false]);
    assert_eq!(rotate(&r, 0), r);
    assert!(rotate(&[], 3).is_empty());
}
