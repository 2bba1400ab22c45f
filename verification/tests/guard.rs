use availability::args::ParseError;
use availability::condition::Condition;
use availability::guard::guard_for;

fn condition(flags: &[&str]) -> Condition {
    Condition { flags: flags.iter().map(|flag| flag.to_string()).collect() }
}

#[test]
fn guard_for_added_and_removed() {
    assert_eq!(
        guard_for("added = 16, removed = 18"),
        Ok(Some(condition(&["fuchsia_api_level_16", "fuchsia_api_level_17"])))
    );
    assert_eq!(
        guard_for("added = 16, removed = 18").unwrap().unwrap().text(),
        "any(fuchsia_api_level_16, fuchsia_api_level_17)"
    );
}

#[test]
fn guard_for_removed_alone() {
    assert_eq!(
        guard_for("removed = 16").unwrap().unwrap().text(),
        "any(fuchsia_api_level_10, fuchsia_api_level_11, fuchsia_api_level_12, \
         fuchsia_api_level_13, fuchsia_api_level_14, fuchsia_api_level_15)"
    );
}

#[test]
fn guard_for_added_alone() {
    assert_eq!(
        guard_for("added = 18").unwrap().unwrap().text(),
        "any(fuchsia_api_level_18, fuchsia_api_level_19, fuchsia_api_level_20, \
         fuchsia_api_level_head, fuchsia_api_level_next)"
    );
}

#[test]
fn no_guard_without_arguments() {
    assert_eq!(guard_for(""), Ok(None));
}

#[test]
fn a_guard_that_never_holds_is_still_a_guard() {
    assert_eq!(guard_for("added = 21, removed = NEXT"), Ok(Some(condition(&[]))));
    assert_eq!(guard_for("added = 21, removed = NEXT").unwrap().unwrap().text(), "any()");
}

#[test]
fn guard_for_refused_arguments() {
    assert_eq!(guard_for("foo = 1"), Err(ParseError::UnsupportedProperty("foo".to_string())));
    assert_eq!(guard_for("added = soon"), Err(ParseError::InvalidApiLevel));
}
