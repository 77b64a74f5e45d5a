use shortcut_release_helper::commits::{parse_commits, Commit, CommitLog, WalkedCommit};
use shortcut_release_helper::decimal::NumberError;

fn walked(id: &str, message: Option<&str>) -> WalkedCommit {
    WalkedCommit { id: id.to_string(), message: message.map(|text| text.to_string()) }
}

fn commit(repo: &str, id: &str, message: Option<&str>) -> Commit {
    Commit {
        repo_name: repo.to_string(),
        id: id.to_string(),
        message: message.map(|text| text.to_string()),
    }
}

#[test]
fn repositories_are_logged() {
    let mut log = CommitLog::new();
    let dev = "dev".to_string();
    let legacy = "legacy".to_string();
    let idle = "idle".to_string();
    assert_eq!(log.add_repository(&dev, vec![walked("a1", Some("one")), walked("a0", None)]), 2);
    assert_eq!(log.add_repository(&idle, vec![]), 0);
    assert_eq!(log.add_repository(&legacy, vec![walked("b0", Some("two"))]), 1);
    let seen: Vec<(&str, &str, Option<&str>)> = log
        .commits
        .iter()
        .map(|c| (c.repo_name.as_str(), c.id.as_str(), c.message.as_deref()))
        .collect();
    assert_eq!(
        seen,
        vec![("dev", "a1", Some("one")), ("dev", "a0", None), ("legacy", "b0", Some("two"))]
    );
    assert_eq!(log.next_heads.len(), 2);
    assert_eq!(log.next_heads.get(&dev).map(|head| head.id.as_str()), Some("a1"));
    assert_eq!(
        log.next_heads.get(&dev).and_then(|head| head.message.as_deref()),
        Some("one")
    );
    assert_eq!(log.next_heads.get(&legacy).map(|head| head.id.as_str()), Some("b0"));
    assert!(log.next_heads.get(&idle).is_none());
}

#[test]
fn commits_lead_to_stories() {
    let parsed = parse_commits(vec![
        commit("dev", "1", Some("[sc-30] c")),
        commit("dev", "2", Some("no link")),
        commit("legacy", "3", Some("feature/ch10")),
        commit("legacy", "4", None),
        commit("dev", "5", Some("[sc-30] again")),
        commit("dev", "6", Some("nothing")),
    ]);
    let parsed = match parsed {
        Ok(parsed) => parsed,
        Err(_) => panic!("the commits can be read"),
    };
    assert_eq!(parsed.story_ids, vec![10, 30]);
    assert_eq!(parsed.unparsed_commits.len(), 2);
    let dev = parsed.unparsed_commits.get(&"dev".to_string()).unwrap();
    let ids: Vec<&str> = dev.iter().map(|c| c.id.as_str()).collect();
    assert_eq!(ids, vec!["2", "6"]);
    assert_eq!(dev[1].message.as_deref(), Some("nothing"));
    let legacy = parsed.unparsed_commits.get(&"legacy".to_string()).unwrap();
    assert_eq!(legacy.len(), 1);
    assert_eq!(legacy[0].id, "4");
    assert_eq!(legacy[0].message, None);
}

#[test]
fn repositories_with_only_linked_commits_have_no_unparsed_ones() {
    let parsed = parse_commits(vec![commit("dev", "1", Some("story/9"))]).ok().unwrap();
    assert_eq!(parsed.story_ids, vec![9]);
    assert_eq!(parsed.unparsed_commits.len(), 0);
}

#[test]
fn no_commits_no_stories() {
    let parsed = parse_commits(vec![]).ok().unwrap();
    assert!(parsed.story_ids.is_empty());
    assert_eq!(parsed.unparsed_commits.len(), 0);
}

#[test]
fn the_first_unreadable_id_is_reported() {
    let parsed = parse_commits(vec![
        commit("dev", "1", Some("[sc-1]")),
        commit("dev", "2", Some("[sc-99999999999999999999]")),
        commit("dev", "3", Some("[sc-\u{661}]")),
    ]);
    assert_eq!(parsed.err(), Some(NumberError::TooLarge));
}
