use diwk::errors::DiwkError;
use diwk::form::parse_selection;

fn parse(s: &str) -> Result<Vec<bool>, DiwkError> {
    parse_selection(&s.as_bytes().to_vec())
}

fn positions(sel: &[bool]) -> Vec<usize> {
    sel.iter()
        .enumerate()
        .filter(|(_, b)| **b)
        .map(|(i, _)| i)
        .collect()
}

#[test]
fn parses_positions_from_form_keys() {
    let sel = parse("0=on&2=on").unwrap();
    assert_eq!(sel.len(), 63);
    assert_eq!(positions(&sel), vec![0, 2]);
}

#[test]
fn empty_body_selects_nothing() {
    let sel = parse("").unwrap();
    assert_eq!(positions(&sel), Vec::<usize>::new());
}

#[test]
fn key_without_value_is_accepted() {
    let sel = parse("5").unwrap();
    assert_eq!(positions(&sel), vec![5]);
}

#[test]
fn empty_items_are_skipped() {
    let sel = parse("1=on&&2=on&").unwrap();
    assert_eq!(positions(&sel), vec![1, 2]);
}

#[test]
fn leading_zeros_are_fine() {
    let sel = parse("007=x").unwrap();
    assert_eq!(positions(&sel), vec![7]);
}

#[test]
fn duplicate_positions_collapse() {
    let sel = parse("3=a&3=b").unwrap();
    assert_eq!(positions(&sel), vec![3]);
}

#[test]
fn non_numeric_key_is_invalid() {
    assert_eq!(parse("abc=1"), Err(DiwkError::InvalidRequest));
    assert_eq!(parse("1x=1"), Err(DiwkError::InvalidRequest));
    assert_eq!(parse("=on"), Err(DiwkError::InvalidRequest));
}

#[test]
fn position_63_is_out_of_range() {
    assert_eq!(parse("63=on"), Err(DiwkError::InvalidRequest));
    assert!(parse("62=on").is_ok());
}

#[test]
fn huge_position_is_invalid_not_a_panic() {
    assert_eq!(
        parse("99999999999999999999999999=on"),
        Err(DiwkError::InvalidRequest)
    );
}

#[test]
fn sixty_three_items_pass_sixty_four_fail() {
    let body_63 = (0..63)
        .map(|i| format!("{}=on", i))
        .collect::<Vec<_>>()
        .join("&");
    assert!(parse(&body_63).is_ok());
    let body_64 = format!("{}&0=again", body_63);
    assert_eq!(parse(&body_64), Err(DiwkError::InvalidRequest));
}
