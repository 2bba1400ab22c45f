use availability::decimal::{decimal_string, parse_decimal};
use availability::levels::{
    api_levels, known_level, level_cfg, API_LEVEL_HEAD, API_LEVEL_MAX, API_LEVEL_MIN,
    API_LEVEL_NEXT,
};

#[test]
fn registry_is_numbered_levels_then_next_then_head() {
    assert_eq!(
        api_levels(),
        vec![10, 11, 12, 13, 14, 15, 16, 17, 18, 19, 20, 0xFFFF_FFFE, 0xFFFF_FFFF]
    );
}

#[test]
fn registry_is_strictly_ascending() {
    let levels = api_levels();
    for pair in levels.windows(2) {
        assert!(pair[0] < pair[1]);
    }
    assert!(API_LEVEL_MIN <= API_LEVEL_MAX);
    assert!(API_LEVEL_MAX < API_LEVEL_NEXT);
    assert!(API_LEVEL_NEXT < API_LEVEL_HEAD);
}

#[test]
fn next_is_written_head_and_head_is_written_next() {
    assert_eq!(level_cfg(API_LEVEL_NEXT), "head");
    assert_eq!(level_cfg(API_LEVEL_HEAD), "next");
}

#[test]
fn numbered_levels_are_written_in_decimal() {
    assert_eq!(level_cfg(10), "10");
    assert_eq!(level_cfg(16), "16");
    assert_eq!(level_cfg(20), "20");
}

#[test]
fn every_registry_level_has_its_own_name() {
    let names: Vec<String> = api_levels().into_iter().map(level_cfg).collect();
    assert_eq!(
        names,
        vec!["10", "11", "12", "13", "14", "15", "16", "17", "18", "19", "20", "head", "next"]
    );
}

#[test]
fn known_levels_are_those_of_the_registry() {
    for level in api_levels() {
        assert!(known_level(level));
    }
    assert!(!known_level(0));
    assert!(!known_level(9));
    assert!(!known_level(21));
    assert!(!known_level(0xFFFF_FFFD));
}

#[test]
fn decimal_string_writes_numbers() {
    assert_eq!(decimal_string(0), "0");
    assert_eq!(decimal_string(7), "7");
    assert_eq!(decimal_string(10), "10");
    assert_eq!(decimal_string(1905), "1905");
    assert_eq!(decimal_string(u32::MAX), "4294967295");
}

#[test]
fn parse_decimal_reads_numbers() {
    assert_eq!(parse_decimal("0"), Some(0));
    assert_eq!(parse_decimal("16"), Some(16));
    assert_eq!(parse_decimal("007"), Some(7));
    assert_eq!(parse_decimal("4294967295"), Some(u32::MAX));
}

#[test]
fn parse_decimal_refuses_what_is_no_number_or_does_not_fit() {
    assert_eq!(parse_decimal(""), None);
    assert_eq!(parse_decimal("4294967296"), None);
    assert_eq!(parse_decimal("99999999999999999999999999999999"), None);
    assert_eq!(parse_decimal("-1"), None);
    assert_eq!(parse_decimal("+1"), None);
    assert_eq!(parse_decimal("1 "), None);
    assert_eq!(parse_decimal("1a"), None);
    assert_eq!(parse_decimal("١٦"), None);
}

#[test]
fn decimal_round_trip() {
    for n in [0u32, 1, 9, 10, 11, 99, 100, 12345, 0xFFFF_FFFE, u32::MAX] {
        assert_eq!(parse_decimal(&decimal_string(n)), Some(n));
    }
}
