use shortcut_release_helper::release::{
    collect_epic, epic_ids, EpicNotFound, Release, StoryCollector, StoryOutcome,
};
use shortcut_release_helper::shortcut::{Label, Story, StoryId};

fn story(name: &'static str, labels: &[&str], epic_id: Option<i64>) -> Story<&'static str> {
    Story {
        labels: labels.iter().map(|label| Label { name: label.to_string() }).collect(),
        epic_id,
        details: name,
    }
}

#[test]
fn new_release_is_empty() {
    let release: Release<(), ()> =
        Release::new(Some("Super release".to_string()), Some("3.4.0".to_string()), None);
    assert_eq!(release.name.as_deref(), Some("Super release"));
    assert_eq!(release.version.as_deref(), Some("3.4.0"));
    assert_eq!(release.description, None);
    assert!(release.stories.is_empty());
    assert!(release.epics.is_empty());
    assert_eq!(release.unparsed_commits.len(), 0);
    assert_eq!(release.next_heads.len(), 0);
}

#[test]
fn stories_are_excluded_by_id() {
    let collector: StoryCollector<()> =
        StoryCollector::new(vec![StoryId(3), StoryId(5)], &[], &[]);
    assert!(collector.excludes(3));
    assert!(!collector.excludes(4));
    assert!(collector.excludes(5));
}

#[test]
fn nothing_is_excluded_by_default() {
    let collector: StoryCollector<()> = StoryCollector::new(vec![], &[], &[]);
    assert!(!collector.excludes(3));
    assert!(!collector.excludes(i64::MAX));
}

#[test]
fn wanted_stories_are_collected_in_order() {
    let mut collector = StoryCollector::new(
        vec![StoryId(2)],
        &["internal".to_string()],
        &["app".to_string()],
    );
    assert_eq!(collector.collect(1, Some(story("one", &["app"], None))), StoryOutcome::Kept);
    assert_eq!(
        collector.collect(3, Some(story("three", &["app", "internal"], None))),
        StoryOutcome::LeftOut
    );
    assert_eq!(collector.collect(4, None), StoryOutcome::NotFound);
    assert_eq!(collector.collect(5, Some(story("five", &[], None))), StoryOutcome::LeftOut);
    assert_eq!(
        collector.collect(6, Some(story("six", &["web", "app"], Some(1)))),
        StoryOutcome::Kept
    );
    let names: Vec<&str> = collector.into_stories().iter().map(|story| story.details).collect();
    assert_eq!(names, vec!["one", "six"]);
}

#[test]
fn stories_are_kept_without_filter() {
    let mut collector = StoryCollector::new(vec![], &[], &[]);
    assert_eq!(collector.collect(1, Some(story("one", &["x", "x"], None))), StoryOutcome::Kept);
    assert_eq!(collector.into_stories().len(), 1);
}

#[test]
fn epics_are_listed_once_in_order() {
    let stories = vec![
        story("a", &[], Some(30)),
        story("b", &[], None),
        story("c", &[], Some(10)),
        story("d", &[], Some(30)),
    ];
    assert_eq!(epic_ids(&stories), vec![10, 30]);
}

#[test]
fn epics_are_collected() {
    let mut epics = vec!["first"];
    assert_eq!(collect_epic(&mut epics, 8, Some("second")), Ok(()));
    assert_eq!(epics, vec!["first", "second"]);
}

#[test]
fn missing_epic_is_an_error() {
    let mut epics = vec!["first"];
    assert_eq!(collect_epic(&mut epics, 8, None), Err(EpicNotFound(8)));
    assert_eq!(epics, vec!["first"]);
    assert_eq!(EpicNotFound(8).message(), "Epic 8 not found");
}
