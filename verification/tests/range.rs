use availability::levels::{api_levels, API_LEVEL_HEAD, API_LEVEL_NEXT};
use availability::range::Availability;

fn range(added: Option<u32>, removed: Option<u32>) -> Availability {
    Availability { added, removed }
}

#[test]
fn default_range_has_no_bound() {
    assert_eq!(Availability::default(), range(None, None));
    assert!(Availability::default().is_empty());
}

#[test]
fn a_range_with_a_bound_is_not_empty() {
    assert!(!range(Some(16), None).is_empty());
    assert!(!range(None, Some(16)).is_empty());
    assert!(!range(Some(16), Some(18)).is_empty());
}

#[test]
fn lower_bound_is_inclusive_and_upper_bound_exclusive() {
    let bounded = range(Some(16), Some(18));
    assert!(!bounded.contains(15));
    assert!(bounded.contains(16));
    assert!(bounded.contains(17));
    assert!(!bounded.contains(18));
    assert!(!bounded.contains(API_LEVEL_NEXT));
}

#[test]
fn absent_bounds_do_not_constrain() {
    assert!(range(None, None).contains(0));
    assert!(range(None, None).contains(API_LEVEL_HEAD));
    assert!(range(Some(5), None).contains(API_LEVEL_HEAD));
    assert!(!range(Some(5), None).contains(4));
    assert!(range(None, Some(5)).contains(0));
    assert!(!range(None, Some(5)).contains(5));
}

#[test]
fn unspecified_range_supports_every_level_in_registry_order() {
    assert_eq!(
        range(None, None).supported_levels(),
        vec!["10", "11", "12", "13", "14", "15", "16", "17", "18", "19", "20", "head", "next"]
    );
}

#[test]
fn bounded_range_supports_levels_from_added_up_to_removed() {
    assert_eq!(range(Some(16), Some(18)).supported_levels(), vec!["16", "17"]);
    assert_eq!(range(Some(10), Some(11)).supported_levels(), vec!["10"]);
    assert_eq!(range(Some(20), Some(API_LEVEL_NEXT)).supported_levels(), vec!["20"]);
}

#[test]
fn bounded_range_membership_matches_the_bounds() {
    for added in 8u32..23 {
        for removed in (added + 1)..24 {
            let names = range(Some(added), Some(removed)).supported_levels();
            for level in api_levels() {
                let name = availability::levels::level_cfg(level);
                assert_eq!(names.contains(&name), added <= level && level < removed);
            }
        }
    }
}

#[test]
fn removed_alone_supports_the_levels_below_it() {
    assert_eq!(
        range(None, Some(16)).supported_levels(),
        vec!["10", "11", "12", "13", "14", "15"]
    );
}

#[test]
fn added_alone_supports_the_levels_from_it_and_both_sentinels() {
    assert_eq!(
        range(Some(18), None).supported_levels(),
        vec!["18", "19", "20", "head", "next"]
    );
}

#[test]
fn sentinels_as_bounds() {
    assert_eq!(range(Some(API_LEVEL_NEXT), None).supported_levels(), vec!["head", "next"]);
    assert_eq!(range(Some(API_LEVEL_HEAD), None).supported_levels(), vec!["next"]);
    assert_eq!(
        range(Some(19), Some(API_LEVEL_HEAD)).supported_levels(),
        vec!["19", "20", "head"]
    );
}

#[test]
fn a_range_that_covers_no_registry_level_supports_none() {
    let none: Vec<String> = Vec::new();
    assert_eq!(range(Some(21), Some(API_LEVEL_NEXT)).supported_levels(), none);
    assert_eq!(range(Some(18), Some(18)).supported_levels(), none);
    assert_eq!(range(Some(18), Some(16)).supported_levels(), none);
    assert_eq!(range(None, Some(10)).supported_levels(), none);
    assert_eq!(range(None, Some(0)).supported_levels(), none);
}

#[test]
fn the_head_sentinel_is_above_every_lower_bound() {
    assert_eq!(range(Some(u32::MAX), None).supported_levels(), vec!["next"]);
    assert_eq!(range(Some(21), None).supported_levels(), vec!["head", "next"]);
}
