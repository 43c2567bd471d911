use diwk::codec::{encode_selection, intersect_masks, matched_labels, MARKER_BIT};
use diwk::errors::DiwkError;

fn labels(names: &[&str]) -> Vec<String> {
    names.iter().map(|n| n.to_string()).collect()
}

#[test]
fn encode_packs_low_bits_and_sets_marker() {
    let sel = vec![true, false, true];
    let mask = encode_selection(&sel, 3).unwrap();
    assert_eq!(mask, 0x8000_0000_0000_0005);
}

#[test]
fn encode_empty_selection_is_marker_only() {
    let sel: Vec<bool> = Vec::new();
    assert_eq!(encode_selection(&sel, 0).unwrap(), MARKER_BIT);
}

#[test]
fn encode_rejects_more_trues_than_max_checks() {
    let sel = vec![true, true, true];
    assert_eq!(encode_selection(&sel, 2), Err(DiwkError::InvalidRequest));
}

#[test]
fn encode_accepts_exactly_max_checks() {
    let sel = vec![true, true, false];
    assert!(encode_selection(&sel, 2).is_ok());
}

#[test]
fn encode_rejects_everything_under_negative_max_checks() {
    let sel = vec![false];
    assert_eq!(encode_selection(&sel, -1), Err(DiwkError::InvalidRequest));
}

#[test]
fn encode_full_width_selection() {
    let sel = vec![true; 63];
    let mask = encode_selection(&sel, 63).unwrap();
    assert_eq!(mask, u64::MAX);
}

#[test]
fn decode_returns_labels_at_set_bits_in_order() {
    let opts = labels(&["pizza", "sushi", "tacos"]);
    let out = matched_labels(&opts, 0b101);
    assert_eq!(out, labels(&["pizza", "tacos"]));
}

#[test]
fn decode_ignores_marker_bit() {
    let opts = labels(&["pizza", "sushi", "tacos"]);
    let out = matched_labels(&opts, 0b100 | MARKER_BIT);
    assert_eq!(out, labels(&["tacos"]));
}

#[test]
fn decode_of_zero_is_empty() {
    let opts = labels(&["pizza", "sushi", "tacos"]);
    assert_eq!(matched_labels(&opts, 0), Vec::<String>::new());
}

#[test]
fn encode_then_decode_round_trip() {
    let opts = labels(&["a", "b", "c", "d", "e"]);
    let sel = vec![false, true, false, true, true];
    let mask = encode_selection(&sel, 5).unwrap();
    assert_eq!(matched_labels(&opts, mask), labels(&["b", "d", "e"]));
}

#[test]
fn intersection_of_two_encodings_matches_common_trues() {
    let opts = labels(&["pizza", "sushi", "tacos"]);
    let a = encode_selection(&vec![true, false, true], 3).unwrap();
    let b = encode_selection(&vec![false, true, true], 3).unwrap();
    let common = intersect_masks(a, b);
    assert_eq!(matched_labels(&opts, common), labels(&["tacos"]));
}

#[test]
fn intersect_clears_marker_bit() {
    assert_eq!(intersect_masks(MARKER_BIT, MARKER_BIT), 0);
    assert_eq!(intersect_masks(u64::MAX, u64::MAX), 0x7fff_ffff_ffff_ffff);
    assert_eq!(intersect_masks(0b110 | MARKER_BIT, 0b011 | MARKER_BIT), 0b010);
}
