use series_troxide::range::{parse_range, NumberRange, RangeParseError};

#[test]
fn range_of_two_numbers_holds_both_ends() {
    let range = parse_range("1-3").unwrap();
    assert_eq!(range.start(), 1);
    assert_eq!(range.end(), 3);
    assert_eq!(range.len(), 3);
    assert_eq!(range.to_vec(), vec![1, 2, 3]);
}

#[test]
fn range_with_equal_ends_holds_one_number() {
    let range = parse_range("2-2").unwrap();
    assert_eq!(range.to_vec(), vec![2]);
    assert_eq!(range.len(), 1);
}

#[test]
fn single_number_is_a_range_of_one() {
    let range = parse_range("17").unwrap();
    assert_eq!(range.start(), 17);
    assert_eq!(range.end(), 17);
    assert_eq!(range.to_vec(), vec![17]);
}

#[test]
fn range_of_many_digits() {
    let range = parse_range("98-103").unwrap();
    assert_eq!(range.to_vec(), vec![98, 99, 100, 101, 102, 103]);
    assert_eq!(range.len(), 103 - 98 + 1);
}

#[test]
fn leading_zeros_are_read() {
    let range = parse_range("007-010").unwrap();
    assert_eq!(range.to_vec(), vec![7, 8, 9, 10]);
}

#[test]
fn largest_number_is_accepted() {
    let range = parse_range("4294967295").unwrap();
    assert_eq!(range.start(), u32::MAX);
    assert_eq!(range.end(), u32::MAX);
    assert_eq!(range.len(), 1);
}

#[test]
fn number_over_32_bits_is_refused() {
    assert_eq!(
        parse_range("4294967296"),
        Err(RangeParseError::InvalidNumber("4294967296".to_string()))
    );
    assert_eq!(
        parse_range("1-99999999999999999999999"),
        Err(RangeParseError::InvalidNumber("99999999999999999999999".to_string()))
    );
}

#[test]
fn word_in_place_of_a_number_is_named() {
    assert_eq!(
        parse_range("a-3"),
        Err(RangeParseError::InvalidNumber("a".to_string()))
    );
    assert_eq!(
        parse_range("1-b"),
        Err(RangeParseError::InvalidNumber("b".to_string()))
    );
    assert_eq!(
        parse_range("one"),
        Err(RangeParseError::InvalidNumber("one".to_string()))
    );
}

#[test]
fn start_after_end_is_refused_with_the_expression() {
    assert_eq!(
        parse_range("3-1"),
        Err(RangeParseError::StartAfterEnd("3-1".to_string()))
    );
}

#[test]
fn missing_number_is_refused() {
    assert_eq!(parse_range(""), Err(RangeParseError::InvalidNumber(String::new())));
    assert_eq!(parse_range("-3"), Err(RangeParseError::InvalidNumber(String::new())));
    assert_eq!(parse_range("3-"), Err(RangeParseError::InvalidNumber(String::new())));
    assert_eq!(parse_range("-"), Err(RangeParseError::InvalidNumber(String::new())));
}

#[test]
fn zero_is_no_season_or_episode_number() {
    assert_eq!(parse_range("0"), Err(RangeParseError::InvalidNumber("0".to_string())));
    assert_eq!(parse_range("0-3"), Err(RangeParseError::InvalidNumber("0".to_string())));
}

#[test]
fn other_delimiters_and_signs_are_refused() {
    assert_eq!(
        parse_range("1 3"),
        Err(RangeParseError::InvalidNumber("1 3".to_string()))
    );
    assert_eq!(
        parse_range("1..3"),
        Err(RangeParseError::InvalidNumber("1..3".to_string()))
    );
    assert_eq!(parse_range("+1"), Err(RangeParseError::InvalidNumber("+1".to_string())));
    assert_eq!(
        parse_range("1-2-3"),
        Err(RangeParseError::InvalidNumber("2-3".to_string()))
    );
    assert_eq!(
        parse_range("١-٣"),
        Err(RangeParseError::InvalidNumber("١".to_string()))
    );
}

#[test]
fn range_made_from_numbers() {
    let range = NumberRange::new(4, 6).unwrap();
    assert_eq!(range.to_vec(), vec![4, 5, 6]);
    assert!(range.contains(4));
    assert!(range.contains(6));
    assert!(!range.contains(3));
    assert!(!range.contains(7));
    assert_eq!(NumberRange::new(0, 3), None);
    assert_eq!(NumberRange::new(3, 2), None);
    assert_eq!(NumberRange::new(3, 3).unwrap().to_vec(), vec![3]);
}

#[test]
fn every_small_range_holds_its_run_of_numbers() {
    for a in 1u32..30 {
        for b in a..30 {
            let range = parse_range(&format!("{}-{}", a, b)).unwrap();
            let numbers = range.to_vec();
            assert_eq!(numbers.len() as u32, b - a + 1);
            assert_eq!(numbers, (a..=b).collect::<Vec<u32>>());
        }
    }
}
