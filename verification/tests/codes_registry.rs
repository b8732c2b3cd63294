//! Alarm-code registry tests: stable name-to-code assignment, idempotent
//! latching, one-shot consumption, and the default interaction predicate.

use snoop::codes::Codes;

#[test]
fn get_code_assigns_monotonic_stable_ids() {
    let mut codes = Codes::new();
    let camera = codes.get_code(String::from("camera"));
    let door = codes.get_code(String::from("door"));
    let laser = codes.get_code(String::from("laser"));
    assert_eq!(camera, 0);
    assert_eq!(door, 1);
    assert_eq!(laser, 2);
    assert_eq!(codes.get_code(String::from("camera")), 0);
    assert_eq!(codes.get_code(String::from("door")), 1);
    assert_eq!(codes.get_code(String::from("vault")), 3);
}

#[test]
fn insert_is_idempotent() {
    let mut codes = Codes::new();
    codes.insert(5);
    codes.insert(5);
    assert!(codes.contains(5));
    // One consume drains the latch completely: a second insert would have
    // left a second copy otherwise.
    assert!(codes.consume(5));
    assert!(!codes.contains(5));
}

#[test]
fn consume_twice_reports_true_then_false() {
    let mut codes = Codes::new();
    codes.insert(9);
    assert!(codes.consume(9));
    assert!(!codes.consume(9));
}

#[test]
fn contains_reads_membership() {
    let mut codes = Codes::new();
    assert!(!codes.contains(1));
    codes.insert(1);
    codes.insert(2);
    assert!(codes.contains(1));
    assert!(codes.contains(2));
    assert!(!codes.contains(3));
}

#[test]
fn default_predicate_accepts_every_pair() {
    assert!(Codes::codes_interact(0, 0));
    assert!(Codes::codes_interact(17, 4));
}
