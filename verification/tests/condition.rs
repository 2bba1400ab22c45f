use availability::condition::Condition;
use availability::levels::API_LEVEL_NEXT;
use availability::range::Availability;

fn range(added: Option<u32>, removed: Option<u32>) -> Availability {
    Availability { added, removed }
}

#[test]
fn one_flag_for_each_supported_level() {
    assert_eq!(
        range(Some(16), Some(18)).cfg_args(),
        Condition {
            flags: vec!["fuchsia_api_level_16".to_string(), "fuchsia_api_level_17".to_string()]
        }
    );
}

#[test]
fn flags_follow_registry_order() {
    assert_eq!(
        range(Some(19), None).cfg_args().flags,
        vec![
            "fuchsia_api_level_19",
            "fuchsia_api_level_20",
            "fuchsia_api_level_head",
            "fuchsia_api_level_next"
        ]
    );
}

#[test]
fn no_flag_occurs_twice() {
    let flags = range(None, None).cfg_args().flags;
    assert_eq!(flags.len(), 13);
    for (i, flag) in flags.iter().enumerate() {
        assert!(!flags[..i].contains(flag));
    }
}

#[test]
fn condition_text_is_an_any_of_the_flags() {
    assert_eq!(
        range(Some(16), Some(18)).cfg_args().text(),
        "any(fuchsia_api_level_16, fuchsia_api_level_17)"
    );
    assert_eq!(range(Some(20), Some(21)).cfg_args().text(), "any(fuchsia_api_level_20)");
}

#[test]
fn condition_without_flags_is_a_zero_term_any() {
    let never = range(Some(21), Some(API_LEVEL_NEXT)).cfg_args();
    assert!(never.is_never());
    assert_eq!(never.flags, Vec::<String>::new());
    assert_eq!(never.text(), "any()");
}

#[test]
fn condition_with_flags_is_not_never() {
    assert!(!range(Some(16), None).cfg_args().is_never());
}

#[test]
fn condition_text_of_given_flags() {
    let condition = Condition { flags: vec!["a".to_string(), "b".to_string(), "c".to_string()] };
    assert_eq!(condition.text(), "any(a, b, c)");
}

#[test]
fn a_range_without_bounds_asks_for_no_guard() {
    assert_eq!(range(None, None).guard(), None);
}

#[test]
fn a_range_with_a_bound_asks_for_its_condition() {
    assert_eq!(
        range(Some(20), None).guard(),
        Some(Condition {
            flags: vec![
                "fuchsia_api_level_20".to_string(),
                "fuchsia_api_level_head".to_string(),
                "fuchsia_api_level_next".to_string(),
            ]
        })
    );
    assert_eq!(range(None, Some(0)).guard(), Some(Condition { flags: vec![] }));
}
