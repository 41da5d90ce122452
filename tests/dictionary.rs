use hand_gesture_control::{Sign, SignDictionary};

fn names(d: &SignDictionary) -> Vec<String> {
    d.signs().iter().map(|e| e.0.clone()).collect()
}

#[test]
fn entries_are_kept_in_name_order() {
    let mut d = SignDictionary::new();
    assert!(d.insert(String::from("Open"), Sign::default()).is_none());
    assert!(d.insert(String::from("Fist"), Sign::default()).is_none());
    assert!(d.insert(String::from("Point"), Sign::default()).is_none());
    assert!(d.insert(String::from("Fis"), Sign::default()).is_none());
    assert_eq!(names(&d), vec!["Fis", "Fist", "Open", "Point"]);
    assert_eq!(d.len(), 4);
}

#[test]
fn insert_under_taken_name_replaces() {
    let mut d = SignDictionary::new();
    d.insert(String::from("A"), Sign::from_masks(1, 0));
    let prev = d.insert(String::from("A"), Sign::from_masks(2, 0)).unwrap();
    assert_eq!(prev.required_attributes().bits(), 1);
    assert_eq!(d.len(), 1);
    assert_eq!(d.get("A").unwrap().required_attributes().bits(), 2);
}

#[test]
fn remove_drops_the_entry() {
    let mut d = SignDictionary::new();
    d.insert(String::from("A"), Sign::default());
    d.insert(String::from("B"), Sign::default());
    assert!(d.remove("C").is_none());
    assert!(d.remove("A").is_some());
    assert_eq!(names(&d), vec!["B"]);
    assert!(d.get("A").is_none());
}

#[test]
fn get_by_index_follows_name_order() {
    let mut d = SignDictionary::new();
    d.insert(String::from("b"), Sign::from_masks(2, 0));
    d.insert(String::from("a"), Sign::from_masks(1, 0));
    let (n, s) = d.get_by_index(1).unwrap();
    assert_eq!(n, "b");
    assert_eq!(s.required_attributes().bits(), 2);
    assert!(d.get_by_index(2).is_none());
}

#[test]
fn find_similar_takes_first_match_by_name() {
    let mut d = SignDictionary::new();
    d.insert(String::from("Zed"), Sign::from_masks(0b11, 0));
    d.insert(String::from("Alpha"), Sign::from_masks(0b01, 0b10));
    d.insert(String::from("Mid"), Sign::from_masks(0b00, 0));
    let observed = Sign::from_masks(0b11, 0);
    let found = d.find_similar(&observed).unwrap();
    assert_eq!(found.index, 0);
    assert_eq!(found.name, "Alpha");
    let none = Sign::from_masks(0b100, 0);
    assert!(d.find_similar(&none).is_none());
}

#[test]
fn next_valid_name_skips_taken_names() {
    let mut d = SignDictionary::new();
    assert_eq!(d.next_valid_name(), "New Sign ");
    d.insert(d.next_valid_name(), Sign::default());
    assert_eq!(d.next_valid_name(), "New Sign 1");
    d.insert(d.next_valid_name(), Sign::default());
    d.insert(String::from("New Sign 3"), Sign::default());
    assert_eq!(d.next_valid_name(), "New Sign 2");
    d.insert(d.next_valid_name(), Sign::default());
    assert_eq!(d.next_valid_name(), "New Sign 4");
}

#[test]
fn next_valid_name_reaches_two_digits() {
    let mut d = SignDictionary::new();
    for _ in 0..11 {
        let n = d.next_valid_name();
        d.insert(n, Sign::default());
    }
    assert_eq!(d.next_valid_name(), "New Sign 11");
}

#[test]
fn set_feature_by_name() {
    let mut d = SignDictionary::new();
    d.insert(String::from("A"), Sign::from_masks(0, 0));
    assert_eq!(d.set_feature("A", 3, false, true), Some(Ok(())));
    assert_eq!(d.get("A").unwrap().required_attributes().bits(), 0b1000);
    assert_eq!(d.set_feature("B", 3, false, true), None);
}
