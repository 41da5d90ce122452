use hand_gesture_control::{BitIndexError, BitString, Feature, Sign, FEATURE_COUNT};

#[test]
fn set_then_get_reads_one() {
    let mut b = BitString::new(0, 9);
    assert_eq!(b.set(3), Ok(()));
    assert_eq!(b.get(3), Ok(true));
    assert_eq!(b.get(2), Ok(false));
    assert_eq!(b.set(3), Ok(()));
    assert_eq!(b.bits(), 0b1000);
}

#[test]
fn unset_then_get_reads_zero() {
    let mut b = BitString::new(0b1_1111_1111, 9);
    assert_eq!(b.unset(4), Ok(()));
    assert_eq!(b.get(4), Ok(false));
    assert_eq!(b.unset(4), Ok(()));
    assert_eq!(b.bits(), 0b1_1110_1111);
    assert_eq!(b.get(5), Ok(true));
}

#[test]
fn index_beyond_capacity_is_an_error() {
    let mut b = BitString::new(0, 9);
    let err = BitIndexError { index: 9, capacity: 9 };
    assert_eq!(b.get(9), Err(err));
    assert_eq!(b.set(9), Err(err));
    assert_eq!(b.unset(9), Err(err));
    assert_eq!(b.bits(), 0);
    assert_eq!(b.capacity(), 9);
}

#[test]
fn to_bools_lists_bits_in_order() {
    let b = BitString::new(0b101, 4);
    assert_eq!(b.to_bools(), vec![true, false, true, false]);
}

#[test]
fn default_sign_matches_everything() {
    let d = Sign::default();
    assert_eq!(d.required_attributes().bits(), 0);
    assert_eq!(d.irrelevant_attributes().bits(), u64::MAX);
    let s = Sign::from_masks(0b1_0101_0101, 0);
    assert!(d == s);
    assert!(s == d);
}

#[test]
fn sign_equality_is_reflexive_and_symmetric() {
    let a = Sign::from_masks(0b0110, 0b1000);
    let b = Sign::from_masks(0b1110, 0b0001);
    assert!(a == a);
    assert!(b == b);
    assert_eq!(a == b, b == a);
    assert!(a == b);
    let c = Sign::from_masks(0b0111, 0);
    assert!(!(c == b));
    assert!(!(b == c));
}

#[test]
fn irrelevant_feature_is_ignored() {
    let mut a = Sign::from_masks(0, 0);
    let b = Sign::from_masks(0b10, 0);
    assert!(!(a == b));
    assert_eq!(a.set_feature(1, true, false), Ok(()));
    assert!(a == b);
    assert_eq!(a.irrelevant_attributes().bits(), 0b10);
}

#[test]
fn set_feature_relevant_sets_required_value() {
    let mut a = Sign::default();
    assert_eq!(a.set_feature(2, false, true), Ok(()));
    assert_eq!(a.irrelevant_attributes().bits(), u64::MAX & !0b100);
    assert_eq!(a.required_attributes().bits(), 0b100);
    assert_eq!(a.set_feature(2, false, false), Ok(()));
    assert_eq!(a.required_attributes().bits(), 0);
    assert_eq!(
        a.set_feature(FEATURE_COUNT, false, true),
        Err(BitIndexError { index: FEATURE_COUNT, capacity: FEATURE_COUNT })
    );
}

#[test]
fn observed_sign_has_every_feature_relevant() {
    let observed = vec![true, false, true, false, false, false, false, false, true];
    let s = Sign::from_observations(&observed);
    assert_eq!(s.required_attributes().bits(), 0b1_0000_0101);
    assert_eq!(s.irrelevant_attributes().bits() & 0b1_1111_1111, 0);
    assert_eq!(s.irrelevant_attributes().bits(), u64::MAX << 9);
}

#[test]
fn features_are_indexed_in_order() {
    let all = Feature::all();
    assert_eq!(all.len(), FEATURE_COUNT);
    for (i, f) in all.iter().enumerate() {
        assert_eq!(f.index(), i);
    }
    assert_eq!(Feature::IndexClosed.label(), "Index");
}

#[test]
fn sign_with_every_feature_irrelevant_matches_all() {
    let mut s = Sign::from_observations(&vec![true; FEATURE_COUNT]);
    for i in 0..FEATURE_COUNT {
        assert_eq!(s.set_feature(i, true, false), Ok(()));
    }
    assert_eq!(s.irrelevant_attributes().bits(), u64::MAX);
    let other = Sign::from_masks(0b1_0110_1001, 0);
    assert!(s == other);
    assert!(other == s);
}

#[test]
fn bits_beyond_the_features_do_not_count() {
    let all_irrelevant = Sign::from_masks(0, 0x1ff);
    let high = Sign::from_masks(1 << 20, 0);
    assert!(all_irrelevant == high);
    assert!(high == all_irrelevant);
    let plain = Sign::from_masks(0, 0);
    assert!(plain == high);
    assert!(high == plain);
    assert!(!(plain == Sign::from_masks(1 << 8, 0)));
}
