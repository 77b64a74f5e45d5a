use shortcut_release_helper::decimal::NumberError;
use shortcut_release_helper::shortcut::{Label, Story, StoryId, StoryLabelFilter};

fn strings(texts: &[&str]) -> Vec<String> {
    texts.iter().map(|text| text.to_string()).collect()
}

fn story(labels: &[&str]) -> Story<()> {
    Story {
        labels: labels.iter().map(|name| Label { name: name.to_string() }).collect(),
        epic_id: None,
        details: (),
    }
}

fn passes(excluded: &[&str], included: &[&str], labels: &[&str]) -> bool {
    StoryLabelFilter::new(&strings(excluded), &strings(included)).filter(&story(labels))
}

#[test]
fn filter_without_labels_is_empty() {
    assert!(StoryLabelFilter::new(&[], &[]).is_empty());
    assert!(!StoryLabelFilter::new(&strings(&["a"]), &[]).is_empty());
    assert!(!StoryLabelFilter::new(&[], &strings(&["a"])).is_empty());
}

#[test]
fn empty_filter_lets_everything_pass() {
    assert!(passes(&[], &[], &[]));
    assert!(passes(&[], &[], &["a", "b"]));
}

#[test]
fn excluded_label_keeps_a_story_out() {
    assert!(!passes(&["a"], &[], &["a"]));
    assert!(!passes(&["a"], &[], &["b", "a"]));
    assert!(passes(&["a"], &[], &["b"]));
    assert!(passes(&["a"], &[], &[]));
}

#[test]
fn all_included_labels_are_needed() {
    assert!(passes(&[], &["a", "b"], &["b", "c", "a"]));
    assert!(!passes(&[], &["a", "b"], &["a"]));
    assert!(!passes(&[], &["a"], &[]));
    assert!(!passes(&[], &["a"], &["A"]));
}

#[test]
fn exclusion_has_priority() {
    assert!(!passes(&["b"], &["a"], &["a", "b"]));
    assert!(!passes(&["b"], &["a"], &["b", "a"]));
    assert!(!passes(&["a"], &["a"], &["a"]));
}

#[test]
fn included_labels_given_twice_count_once() {
    assert!(passes(&[], &["a", "a"], &["a"]));
}

#[test]
fn labels_carried_twice_count_twice() {
    assert!(!passes(&[], &["a"], &["a", "a"]));
    assert!(passes(&[], &["a", "b"], &["a", "a"]));
}

#[test]
fn story_ids_are_read() {
    assert_eq!(StoryId::from_str("42"), Ok(StoryId(42)));
    assert_eq!(StoryId::from_str("+42"), Ok(StoryId(42)));
    assert_eq!(StoryId::from_str("4294967295"), Ok(StoryId(u32::MAX)));
    assert_eq!(StoryId::from_str(""), Err(NumberError::Empty));
    assert_eq!(StoryId::from_str("-1"), Err(NumberError::InvalidDigit));
    assert_eq!(StoryId::from_str("sc-1"), Err(NumberError::InvalidDigit));
    assert_eq!(StoryId::from_str("4294967296"), Err(NumberError::TooLarge));
}

#[test]
fn story_ids_are_written_and_read_back() {
    for number in [0, 1, 42, u32::MAX] {
        let id = StoryId::from(number);
        assert_eq!(id.to_string(), number.to_string());
        assert_eq!(StoryId::from_str(&id.to_string()), Ok(id));
        assert_eq!(u32::from(id), number);
        assert_eq!(*id.as_ref(), number);
    }
}
