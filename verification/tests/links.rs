use shortcut_release_helper::decimal::NumberError;
use shortcut_release_helper::links::{parse_story_id, read_linked_id};

fn id_in(message: &str) -> Result<Option<i64>, NumberError> {
    parse_story_id(&Some(message.to_string()))
}

#[test]
fn every_kind_of_link_is_found() {
    assert_eq!(id_in("Fix login [sc-123]"), Ok(Some(123)));
    assert_eq!(id_in("Merge branch 'feature/sc-77/login'"), Ok(Some(77)));
    assert_eq!(id_in("[ch45] Fix login"), Ok(Some(45)));
    assert_eq!(id_in("Merge pull request from acme/ch46"), Ok(Some(46)));
    assert_eq!(
        id_in("See https://app.shortcut.com/acme/story/678/fix-login"),
        Ok(Some(678))
    );
}

#[test]
fn messages_without_link_have_no_story() {
    for message in [
        "", "Fix login", "sc-123", "(sc-123)", "ch12", "[sc-]", "[sc-x1]", "[sc 12]", "[SC-12]",
        "story 12", "story/", "[ch-12]", "history", "\u{e9}t\u{e9} \u{1f389}",
    ] {
        assert_eq!(id_in(message), Ok(None), "{message:?}");
    }
}

#[test]
fn missing_message_has_no_story() {
    assert_eq!(parse_story_id(&None), Ok(None));
}

#[test]
fn the_first_link_counts() {
    assert_eq!(id_in("[sc-2] and [sc-1]"), Ok(Some(2)));
    assert_eq!(id_in("[sc-] [ch3] story/4"), Ok(Some(3)));
    assert_eq!(id_in("[[sc-5"), Ok(Some(5)));
    assert_eq!(id_in("/sc/sc-6"), Ok(Some(6)));
    assert_eq!(id_in("storystory/7"), Ok(Some(7)));
}

#[test]
fn all_digits_of_a_link_count() {
    assert_eq!(id_in("[sc-0012345abc6]"), Ok(Some(12345)));
    assert_eq!(id_in("[ch9223372036854775807]"), Ok(Some(i64::MAX)));
}

#[test]
fn links_are_found_after_other_scripts() {
    assert_eq!(id_in("\u{e9}t\u{e9} \u{1f389} [sc-8]"), Ok(Some(8)));
}

#[test]
fn ids_that_are_too_large_are_an_error() {
    assert_eq!(id_in("[ch9223372036854775808]"), Err(NumberError::TooLarge));
}

#[test]
fn ids_in_digits_of_other_scripts_are_an_error() {
    assert_eq!(id_in("[sc-\u{661}\u{662}]"), Err(NumberError::InvalidDigit));
    assert_eq!(id_in("[sc-12\u{663}]"), Err(NumberError::InvalidDigit));
    assert_eq!(id_in("[sc-\u{661}] [sc-1]"), Err(NumberError::InvalidDigit));
}

#[test]
fn numbers_that_are_no_decimal_digits_end_an_id() {
    assert_eq!(id_in("[sc-12\u{b2}]"), Ok(Some(12)));
    assert_eq!(id_in("[sc-\u{2167}]"), Ok(None));
}

#[test]
fn linked_ids_are_read() {
    assert_eq!(read_linked_id("17"), Ok(17));
    assert_eq!(read_linked_id("x"), Err(NumberError::InvalidDigit));
    assert_eq!(read_linked_id("9223372036854775808"), Err(NumberError::TooLarge));
}

#[test]
fn linked_ids_are_read_as_signed_numbers() {
    assert_eq!(read_linked_id(""), Err(NumberError::Empty));
    assert_eq!(read_linked_id("+5"), Ok(5));
    assert_eq!(read_linked_id("-5"), Ok(-5));
    assert_eq!(read_linked_id("+"), Err(NumberError::InvalidDigit));
    assert_eq!(read_linked_id("-9223372036854775809"), Err(NumberError::TooSmall));
}
