use shortcut_release_helper::commits::UnreleasedCommit;
use shortcut_release_helper::release::Release;
use shortcut_release_helper::shortcut::Story;
use shortcut_release_helper::summary::summary;

fn unreleased() -> UnreleasedCommit {
    UnreleasedCommit { id: "a".to_string(), message: None }
}

#[test]
fn empty_release_is_summed_up() {
    let release: Release<(), ()> = Release::new(None, None, None);
    assert_eq!(
        summary(&release),
        "\u{1b}[1mTotal stories\u{1b}[0m: \u{1b}[32m0\u{1b}[0m\n\
         \n\u{1b}[1mTotal epics\u{1b}[0m: \u{1b}[32m0\u{1b}[0m\n"
    );
}

#[test]
fn release_is_summed_up() {
    let mut release: Release<(), u8> = Release::new(None, None, None);
    for _ in 0..12 {
        release.stories.push(Story { labels: vec![], epic_id: None, details: () });
    }
    release.epics.push(1);
    release.unparsed_commits.push("dev".to_string(), unreleased());
    release.unparsed_commits.push("dev".to_string(), unreleased());
    release.unparsed_commits.insert("idle".to_string(), vec![]);
    release.unparsed_commits.push("legacy".to_string(), unreleased());
    assert_eq!(
        summary(&release),
        "\u{1b}[1mTotal stories\u{1b}[0m: \u{1b}[32m12\u{1b}[0m\n\
         \n\u{1b}[1mTotal epics\u{1b}[0m: \u{1b}[32m1\u{1b}[0m\n\
         \n\u{1b}[1mTotal unparsed commits in \u{1b}[0m\u{1b}[34mdev\u{1b}[0m: \u{1b}[31m2\u{1b}[0m\n\
         \n\u{1b}[1mTotal unparsed commits in \u{1b}[0m\u{1b}[34mlegacy\u{1b}[0m: \u{1b}[31m1\u{1b}[0m\n"
    );
}
