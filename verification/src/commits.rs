//! The commits that a release brings, and the stories that they belong to.

use crate::decimal::NumberError;
use crate::ids::distinct_ids;
use crate::ids::is_rising;
use crate::links::parse_story_id;
use crate::links::{
    law_no_link_no_story, law_story_ids_are_not_negative, link_at, message_text, story_id_of,
};
use crate::repositories::RepoMap;
use vstd::prelude::*;

verus! {

/// A commit, as a walk over a repository finds it.
#[derive(Debug)]
pub struct WalkedCommit {
    /// The hash of the commit.
    pub id: String,
    /// The message of the commit, if it is valid text.
    pub message: Option<String>,
}

/// A commit with the name of its repository.
#[derive(Debug)]
pub struct Commit {
    /// The name of the repository.
    pub repo_name: String,
    /// The hash of the commit.
    pub id: String,
    /// The message of the commit, if it is valid text.
    pub message: Option<String>,
}

/// The newest commit of a branch.
#[derive(Debug)]
pub struct HeadCommit {
    /// The hash of the commit.
    pub id: String,
    /// The message of the commit, if it is valid text.
    pub message: Option<String>,
}

/// A commit that belongs to no story.
#[derive(Debug)]
pub struct UnreleasedCommit {
    /// The hash of the commit.
    pub id: String,
    /// The message of the commit, if it is valid text.
    pub message: Option<String>,
}

/// What a commit says of itself: its hash and its message.
pub struct CommitText {
    /// The hash of the commit.
    pub id: Seq<char>,
    /// The message of the commit.
    pub message: Option<Seq<char>>,
}

impl View for WalkedCommit {
    type V = CommitText;

    open spec fn view(&self) -> CommitText {
        CommitText { id: self.id@, message: message_text(self.message) }
    }
}

impl View for HeadCommit {
    type V = CommitText;

    open spec fn view(&self) -> CommitText {
        CommitText { id: self.id@, message: message_text(self.message) }
    }
}

impl View for UnreleasedCommit {
    type V = CommitText;

    open spec fn view(&self) -> CommitText {
        CommitText { id: self.id@, message: message_text(self.message) }
    }
}

impl View for Commit {
    /// The name of the repository, and what the commit says of itself.
    type V = (Seq<char>, CommitText);

    open spec fn view(&self) -> (Seq<char>, CommitText) {
        (self.repo_name@, CommitText { id: self.id@, message: message_text(self.message) })
    }
}

/// What `commits` say, one by one.
pub open spec fn walked_texts(commits: Seq<WalkedCommit>) -> Seq<CommitText> {
    commits.map_values(|commit: WalkedCommit| commit@)
}

/// What `commits` say, one by one.
pub open spec fn unreleased_texts(commits: Seq<UnreleasedCommit>) -> Seq<CommitText> {
    commits.map_values(|commit: UnreleasedCommit| commit@)
}

/// What `commits` say and where they are from, one by one.
pub open spec fn commit_texts(commits: Seq<Commit>) -> Seq<(Seq<char>, CommitText)> {
    commits.map_values(|commit: Commit| commit@)
}

/// The commits that come with a release, and where each repository is heading.
#[derive(Debug)]
pub struct CommitLog {
    /// The commits of all repositories.
    pub commits: Vec<Commit>,
    /// The newest commit of each repository that has any.
    pub next_heads: RepoMap<HeadCommit>,
}

impl CommitLog {
    /// A log without commits.
    pub fn new() -> (log: Self)
        ensures
            log.commits@ == Seq::<Commit>::empty(),
            log.next_heads.well_formed(),
            log.next_heads.entries() == Seq::<(String, HeadCommit)>::empty(),
            log.next_heads@ == Map::<Seq<char>, HeadCommit>::empty(),
    {
        CommitLog { commits: Vec::new(), next_heads: RepoMap::new() }
    }

    /// Adds the commits of a repository, newest first; the result is their number.
    pub fn add_repository(&mut self, repo_name: &String, walked: Vec<WalkedCommit>) -> (count: usize)
        requires
            old(self).next_heads.well_formed(),
        ensures
            count == walked@.len(),
            commit_texts(final(self).commits@) == commit_texts(old(self).commits@) + walked_texts(
                walked@,
            ).map_values(|text: CommitText| (repo_name@, text)),
            final(self).next_heads.well_formed(),
            final(self).next_heads@.dom() == (if walked@.len() == 0 {
                old(self).next_heads@.dom()
            } else {
                old(self).next_heads@.dom().insert(repo_name@)
            }),
            final(self).next_heads.names() == (if walked@.len() == 0 || old(
                self,
            ).next_heads@.contains_key(repo_name@) {
                old(self).next_heads.names()
            } else {
                old(self).next_heads.names().push(repo_name@)
            }),
            walked@.len() > 0 ==> final(self).next_heads@[repo_name@]@ == walked@[0]@,
            forall|other: Seq<char>|
                old(self).next_heads@.contains_key(other) && (other != repo_name@ || walked@.len()
                    == 0) ==> #[trigger] final(self).next_heads@[other] == old(
                    self,
                ).next_heads@[other],
    {
        let count = walked.len();
        let ghost texts = walked_texts(walked@).map_values(|text: CommitText| (repo_name@, text));
        let ghost before = commit_texts(self.commits@);
        if count > 0 {
            let head = HeadCommit {
                id: walked[0].id.clone(),
                message: walked[0].message.clone(),
            };
            self.next_heads.insert(repo_name.clone(), head);
        }
        let ghost heads = self.next_heads;
        let mut i: usize = 0;
        assert(before + texts.take(0) == before);
        while i < walked.len()
            invariant
                i <= walked.len(),
                texts == walked_texts(walked@).map_values(|text: CommitText| (repo_name@, text)),
                commit_texts(self.commits@) == before + texts.take(i as int),
                self.next_heads == heads,
            decreases walked.len() - i,
        {
            let commit = Commit {
                repo_name: repo_name.clone(),
                id: walked[i].id.clone(),
                message: walked[i].message.clone(),
            };
            assert(texts[i as int] == commit@);
            self.commits.push(commit);
            assert(before + texts.take(i + 1) == (before + texts.take(i as int)).push(commit@));
            assert(commit_texts(self.commits@) == (before + texts.take(i as int)).push(commit@));
            i = i + 1;
        }
        assert(texts.take(i as int) == texts);
        count
    }
}

/// Whether a commit belongs to no story.
pub open spec fn is_unlinked(commit: (Seq<char>, CommitText)) -> bool {
    story_id_of(commit.1.message) == Ok::<Option<int>, NumberError>(None)
}

/// The commits of `repo` that belong to no story, in their order.
pub open spec fn unlinked_of(commits: Seq<(Seq<char>, CommitText)>, repo: Seq<char>) -> Seq<
    CommitText,
> {
    commits.filter(
        |commit: (Seq<char>, CommitText)| commit.0 == repo && is_unlinked(commit),
    ).map_values(|commit: (Seq<char>, CommitText)| commit.1)
}

/// The numbers of the stories that `commits` belong to.
pub open spec fn linked_stories(commits: Seq<(Seq<char>, CommitText)>) -> Set<i64> {
    Set::new(
        |id: i64|
            exists|i: int|
                0 <= i < commits.len() && story_id_of((#[trigger] commits[i]).1.message) == Ok::<
                    Option<int>,
                    NumberError,
                >(Some(id as int)),
    )
}

/// Where commits lead.
#[derive(Debug)]
pub struct ParsedCommits {
    /// The stories that the commits belong to, each once, in ascending order.
    pub story_ids: Vec<i64>,
    /// The commits that belong to no story, by repository.
    pub unparsed_commits: RepoMap<Vec<UnreleasedCommit>>,
}

/// Whether `map` holds, by repository, the commits that belong to no story.
pub open spec fn holds_unlinked(
    map: Map<Seq<char>, Vec<UnreleasedCommit>>,
    commits: Seq<(Seq<char>, CommitText)>,
) -> bool {
    &&& forall|repo: Seq<char>| #[trigger]
        map.contains_key(repo) <==> unlinked_of(commits, repo).len() > 0
    &&& forall|repo: Seq<char>| #[trigger]
        map.contains_key(repo) ==> unreleased_texts(map[repo]@) == unlinked_of(commits, repo)
}

/// One more commit.
proof fn lemma_unlinked_of_push(
    commits: Seq<(Seq<char>, CommitText)>,
    commit: (Seq<char>, CommitText),
    repo: Seq<char>,
)
    ensures
        unlinked_of(commits.push(commit), repo) == (if commit.0 == repo && is_unlinked(commit) {
            unlinked_of(commits, repo).push(commit.1)
        } else {
            unlinked_of(commits, repo)
        }),
{
    reveal(Seq::filter);
    let p = |c: (Seq<char>, CommitText)| c.0 == repo && is_unlinked(c);
    assert(commits.push(commit).drop_last() == commits);
    if p(commit) {
        assert(unlinked_of(commits.push(commit), repo) =~= unlinked_of(commits, repo).push(
            commit.1,
        ));
    }
}

/// Finds the stories that `commits` belong to, and sets apart the commits that
/// belong to none.
///
/// Fails on the first commit whose link gives an id that cannot be read.
pub fn parse_commits(commits: Vec<Commit>) -> (parsed: Result<ParsedCommits, NumberError>)
    ensures
        match parsed {
            Ok(parsed) => {
                &&& forall|i: int|
                    0 <= i < commits@.len() ==> story_id_of(
                        (#[trigger] commit_texts(commits@)[i]).1.message,
                    ) is Ok
                &&& is_rising(parsed.story_ids@)
                &&& parsed.story_ids@.to_set() == linked_stories(commit_texts(commits@))
                &&& parsed.unparsed_commits.well_formed()
                &&& holds_unlinked(parsed.unparsed_commits@, commit_texts(commits@))
            },
            Err(error) => exists|i: int|
                {
                    &&& 0 <= i < commits@.len()
                    &&& story_id_of((#[trigger] commit_texts(commits@)[i]).1.message) == Err::<
                        Option<int>,
                        NumberError,
                    >(error)
                    &&& forall|j: int|
                        0 <= j < i ==> story_id_of(
                            (#[trigger] commit_texts(commits@)[j]).1.message,
                        ) is Ok
                },
        },
{
    let ghost texts = commit_texts(commits@);
    let mut ids: Vec<i64> = Vec::new();
    let mut unparsed: RepoMap<Vec<UnreleasedCommit>> = RepoMap::new();
    let mut i: usize = 0;
    proof {
        reveal(Seq::filter);
        assert(ids@.to_set() =~= linked_stories(texts.take(0)));
    }
    while i < commits.len()
        invariant
            i <= commits.len(),
            texts == commit_texts(commits@),
            forall|j: int| 0 <= j < i ==> story_id_of((#[trigger] texts[j]).1.message) is Ok,
            ids@.to_set() == linked_stories(texts.take(i as int)),
            unparsed.well_formed(),
            holds_unlinked(unparsed@, texts.take(i as int)),
        decreases commits.len() - i,
    {
        let commit = &commits[i];
        let ghost before = texts.take(i as int);
        let ghost text = texts[i as int];
        let ghost old_ids = ids@;
        let ghost old_unparsed = unparsed@;
        assert(text == commit@);
        assert(texts.take(i + 1) == before.push(text));
        match parse_story_id(&commit.message) {
            Err(error) => {
                return Err(error);
            },
            Ok(Some(id)) => {
                ids.push(id);
                proof {
                    lemma_linked_stories_push(before, text);
                    Seq::lemma_to_set_insert_commutes(old_ids, id);
                    assert(ids@ == old_ids + seq![id]);
                    assert(ids@.to_set() =~= linked_stories(texts.take(i + 1)));
                    assert forall|repo: Seq<char>| unlinked_of(before.push(text), repo)
                        == #[trigger] unlinked_of(before, repo) by {
                        lemma_unlinked_of_push(before, text, repo);
                    }
                }
            },
            Ok(None) => {
                let unreleased = UnreleasedCommit {
                    id: commit.id.clone(),
                    message: commit.message.clone(),
                };
                let ghost entry = unreleased;
                unparsed.push(commit.repo_name.clone(), unreleased);
                proof {
                    lemma_linked_stories_push(before, text);
                    assert(entry@ == text.1);
                    lemma_one_more_unlinked(before, text, old_unparsed, unparsed@, entry);
                }
            },
        }
        i = i + 1;
    }
    assert(texts.take(i as int) == texts);
    Ok(ParsedCommits { story_ids: distinct_ids(ids), unparsed_commits: unparsed })
}

/// The stories of one more commit.
proof fn lemma_linked_stories_push(
    commits: Seq<(Seq<char>, CommitText)>,
    commit: (Seq<char>, CommitText),
)
    ensures
        match story_id_of(commit.1.message) {
            Ok(Some(number)) => 0 <= number <= i64::MAX && linked_stories(commits.push(commit))
                == linked_stories(commits).insert(number as i64),
            _ => linked_stories(commits.push(commit)) == linked_stories(commits),
        },
{
    let after = commits.push(commit);
    law_story_ids_are_not_negative(commit.1.message);
    assert forall|id: i64| #[trigger]
        linked_stories(after).contains(id) <==> linked_stories(commits).contains(id) || story_id_of(
            commit.1.message,
        ) == Ok::<Option<int>, NumberError>(Some(id as int)) by {
        if linked_stories(commits).contains(id) {
            let i = choose|i: int|
                0 <= i < commits.len() && story_id_of((#[trigger] commits[i]).1.message) == Ok::<
                    Option<int>,
                    NumberError,
                >(Some(id as int));
            assert(after[i] == commits[i]);
        }
        if linked_stories(after).contains(id) {
            let i = choose|i: int|
                0 <= i < after.len() && story_id_of((#[trigger] after[i]).1.message) == Ok::<
                    Option<int>,
                    NumberError,
                >(Some(id as int));
            if i < commits.len() {
                assert(after[i] == commits[i]);
            }
        }
        assert(after[commits.len() as int] == commit);
    }
    if let Ok(Some(number)) = story_id_of(commit.1.message) {
        assert(linked_stories(after) =~= linked_stories(commits).insert(number as i64));
    } else {
        assert(linked_stories(after) =~= linked_stories(commits));
    }
}

/// One more commit that belongs to no story.
proof fn lemma_one_more_unlinked(
    commits: Seq<(Seq<char>, CommitText)>,
    commit: (Seq<char>, CommitText),
    before: Map<Seq<char>, Vec<UnreleasedCommit>>,
    after: Map<Seq<char>, Vec<UnreleasedCommit>>,
    entry: UnreleasedCommit,
)
    requires
        holds_unlinked(before, commits),
        is_unlinked(commit),
        entry@ == commit.1,
        after.dom() == before.dom().insert(commit.0),
        after[commit.0]@ == (if before.contains_key(commit.0) {
            before[commit.0]@.push(entry)
        } else {
            seq![entry]
        }),
        forall|other: Seq<char>|
            other != commit.0 && before.contains_key(other) ==> #[trigger] after[other]
                == before[other],
    ensures
        holds_unlinked(after, commits.push(commit)),
{
    assert forall|repo: Seq<char>| #[trigger] after.contains_key(repo) implies unreleased_texts(
        after[repo]@,
    ) == unlinked_of(commits.push(commit), repo) by {
        lemma_unlinked_of_push(commits, commit, repo);
        assert(after.dom().contains(repo));
        if repo == commit.0 {
            if before.contains_key(repo) {
                assert(unreleased_texts(before[repo]@.push(entry)) =~= unreleased_texts(
                    before[repo]@,
                ).push(entry@));
            } else {
                assert(unlinked_of(commits, repo) =~= Seq::<CommitText>::empty());
                assert(unreleased_texts(seq![entry]) =~= seq![entry@]);
            }
        } else {
            assert(before.dom().contains(repo));
        }
    }
    assert forall|repo: Seq<char>| #[trigger] after.contains_key(repo) <==> unlinked_of(
        commits.push(commit),
        repo,
    ).len() > 0 by {
        lemma_unlinked_of_push(commits, commit, repo);
        assert(after.dom().contains(repo) <==> before.dom().contains(repo) || repo == commit.0);
        assert(before.contains_key(repo) <==> unlinked_of(commits, repo).len() > 0);
    }
}

/// No commit is lost: each is either among the commits of its repository that
/// belong to no story, or its story is among the stories.
pub proof fn law_every_commit_is_accounted_for(commits: Seq<(Seq<char>, CommitText)>, i: int)
    requires
        0 <= i < commits.len(),
    ensures
        match story_id_of(commits[i].1.message) {
            Ok(None) => unlinked_of(commits, commits[i].0).contains(commits[i].1),
            Ok(Some(number)) => 0 <= number <= i64::MAX && linked_stories(commits).contains(
                number as i64,
            ),
            Err(_) => true,
        },
{
    let commit = commits[i];
    match story_id_of(commit.1.message) {
        Ok(None) => {
            let p = |c: (Seq<char>, CommitText)| c.0 == commit.0 && is_unlinked(c);
            commits.lemma_filter_contains(p, i);
            let j = choose|j: int|
                0 <= j < commits.filter(p).len() && commits.filter(p)[j] == commit;
            assert(unlinked_of(commits, commit.0)[j] == commit.1);
        },
        Ok(Some(number)) => {
            lemma_linked_stories_push(Seq::empty(), commit);
            assert(story_id_of(commits[i].1.message) == Ok::<Option<int>, NumberError>(
                Some((number as i64) as int),
            ));
        },
        Err(_) => {},
    }
}

/// Commits are told one by one, with nothing left out: the repository, the hash and
/// the message.
pub proof fn law_commits_are_told_one_by_one(
    walked: Seq<WalkedCommit>,
    commits: Seq<Commit>,
    unreleased: Seq<UnreleasedCommit>,
    head: HeadCommit,
)
    ensures
        walked_texts(walked).len() == walked.len(),
        commit_texts(commits).len() == commits.len(),
        unreleased_texts(unreleased).len() == unreleased.len(),
        forall|i: int|
            0 <= i < walked.len() ==> {
                &&& (#[trigger] walked_texts(walked)[i]).id == walked[i].id@
                &&& walked_texts(walked)[i].message == (match walked[i].message {
                    Some(text) => Some(text@),
                    None => None,
                })
            },
        forall|i: int|
            0 <= i < commits.len() ==> {
                &&& (#[trigger] commit_texts(commits)[i]).0 == commits[i].repo_name@
                &&& commit_texts(commits)[i].1.id == commits[i].id@
                &&& commit_texts(commits)[i].1.message == (match commits[i].message {
                    Some(text) => Some(text@),
                    None => None,
                })
            },
        forall|i: int|
            0 <= i < unreleased.len() ==> {
                &&& (#[trigger] unreleased_texts(unreleased)[i]).id == unreleased[i].id@
                &&& unreleased_texts(unreleased)[i].message == (match unreleased[i].message {
                    Some(text) => Some(text@),
                    None => None,
                })
            },
        head@.id == head.id@,
        head@.message == (match head.message {
            Some(text) => Some(text@),
            None => None,
        }),
{
}

/// The unparsed commits of a repository are those of its commits in whose message no
/// link starts anywhere, or that have no message: all of them, no others, in their
/// order and each once.
pub proof fn law_unparsed_commits_are_those_without_link(
    commits: Seq<Commit>,
    unparsed: Map<Seq<char>, Vec<UnreleasedCommit>>,
    repo: Seq<char>,
)
    requires
        holds_unlinked(unparsed, commit_texts(commits)),
    ensures
        ({
            let without_link = commits.filter(
                |commit: Commit|
                    commit.repo_name@ == repo && match commit.message {
                        Some(text) => forall|j: int| 0 <= j ==> !link_at(text@, j),
                        None => true,
                    },
            );
            &&& unparsed.contains_key(repo) <==> without_link.len() > 0
            &&& unparsed.contains_key(repo) ==> unparsed[repo]@.len() == without_link.len()
            &&& unparsed.contains_key(repo) ==> forall|k: int|
                0 <= k < without_link.len() ==> {
                    &&& (#[trigger] unparsed[repo]@[k]).id@ == without_link[k].id@
                    &&& match (unparsed[repo]@[k].message, without_link[k].message) {
                        (Some(a), Some(b)) => a@ == b@,
                        (None, None) => true,
                        _ => false,
                    }
                }
        }),
{
    let p = |commit: Commit|
        commit.repo_name@ == repo && match commit.message {
            Some(text) => forall|j: int| 0 <= j ==> !link_at(text@, j),
            None => true,
        };
    lemma_unlinked_commits(commits, repo);
    let without_link = commits.filter(p);
    let told = without_link.map_values(|commit: Commit| commit@.1);
    assert(unlinked_of(commit_texts(commits), repo) == told);
    if unparsed.contains_key(repo) {
        assert(unreleased_texts(unparsed[repo]@) == told);
        assert forall|k: int| 0 <= k < without_link.len() implies {
            &&& (#[trigger] unparsed[repo]@[k]).id@ == without_link[k].id@
            &&& match (unparsed[repo]@[k].message, without_link[k].message) {
                (Some(a), Some(b)) => a@ == b@,
                (None, None) => true,
                _ => false,
            }
        } by {
            assert(unreleased_texts(unparsed[repo]@)[k] == unparsed[repo]@[k]@);
            assert(told[k] == without_link[k]@.1);
        }
    }
}

/// The commits of `repo` that belong to no story, told by their links.
proof fn lemma_unlinked_commits(commits: Seq<Commit>, repo: Seq<char>)
    ensures
        unlinked_of(commit_texts(commits), repo) == commits.filter(
            |commit: Commit|
                commit.repo_name@ == repo && match commit.message {
                    Some(text) => forall|j: int| 0 <= j ==> !link_at(text@, j),
                    None => true,
                },
        ).map_values(|commit: Commit| commit@.1),
    decreases commits.len(),
{
    reveal(Seq::filter);
    let p = |commit: Commit|
        commit.repo_name@ == repo && match commit.message {
            Some(text) => forall|j: int| 0 <= j ==> !link_at(text@, j),
            None => true,
        };
    let f = |commit: Commit| commit@.1;
    if commits.len() == 0 {
        assert(unlinked_of(commit_texts(commits), repo) =~= commits.filter(p).map_values(f));
    } else {
        let earlier = commits.drop_last();
        let last = commits.last();
        lemma_unlinked_commits(earlier, repo);
        assert(commit_texts(commits) == commit_texts(earlier).push(last@));
        lemma_unlinked_of_push(commit_texts(earlier), last@, repo);
        if let Some(text) = last.message {
            law_no_link_no_story(text@);
        }
        assert(unlinked_of(commit_texts(commits), repo) =~= commits.filter(p).map_values(f));
    }
}

/// No unparsed commit has a link: each is a commit of its repository, and a commit
/// whose link gives a story is never among them.
pub proof fn law_unparsed_commit_has_no_link(
    commits: Seq<Commit>,
    unparsed: Map<Seq<char>, Vec<UnreleasedCommit>>,
    repo: Seq<char>,
    k: int,
)
    requires
        holds_unlinked(unparsed, commit_texts(commits)),
        unparsed.contains_key(repo),
        0 <= k < unparsed[repo]@.len(),
    ensures
        match unparsed[repo]@[k].message {
            Some(text) => forall|j: int| 0 <= j ==> !link_at(text@, j),
            None => true,
        },
        exists|i: int|
            {
                &&& 0 <= i < commits.len()
                &&& (#[trigger] commits[i]).repo_name@ == repo
                &&& commits[i].id@ == unparsed[repo]@[k].id@
                &&& match (commits[i].message, unparsed[repo]@[k].message) {
                    (Some(a), Some(b)) => a@ == b@,
                    (None, None) => true,
                    _ => false,
                }
            },
{
    let p = |commit: Commit|
        commit.repo_name@ == repo && match commit.message {
            Some(text) => forall|j: int| 0 <= j ==> !link_at(text@, j),
            None => true,
        };
    law_unparsed_commits_are_those_without_link(commits, unparsed, repo);
    let found = commits.filter(p)[k];
    commits.lemma_filter_pred(p, k);
    assert(commits.filter(p).contains(found));
    commits.lemma_filter_contains_rev(p, found);
    let i = choose|i: int| 0 <= i < commits.len() && commits[i] == found;
    assert(unparsed[repo]@[k].id@ == found.id@);
    assert(commits[i].repo_name@ == repo);
}

/// The stories of commits are those that their links give: every one, each once, in
/// ascending order, and no others.
pub proof fn law_story_ids_are_those_of_the_links(commits: Seq<Commit>, story_ids: Seq<i64>)
    requires
        is_rising(story_ids),
        story_ids.to_set() == linked_stories(commit_texts(commits)),
    ensures
        forall|id: i64| #[trigger]
            story_ids.contains(id) <==> exists|i: int|
                0 <= i < commits.len() && (story_id_of(
                    message_text((#[trigger] commits[i]).message),
                ) matches Ok(Some(number)) && number == id),
        forall|k: int| 0 < k < story_ids.len() ==> story_ids[k - 1] < #[trigger] story_ids[k],
{
    let texts = commit_texts(commits);
    assert forall|id: i64| #[trigger] story_ids.contains(id) <==> exists|i: int|
        0 <= i < commits.len() && (story_id_of(
            message_text((#[trigger] commits[i]).message),
        ) matches Ok(Some(number)) && number == id) by {
        assert(story_ids.to_set().contains(id) <==> linked_stories(texts).contains(id));
        if linked_stories(texts).contains(id) {
            let i = choose|i: int|
                0 <= i < texts.len() && story_id_of((#[trigger] texts[i]).1.message) == Ok::<
                    Option<int>,
                    NumberError,
                >(Some(id as int));
            assert(texts[i].1.message == message_text(commits[i].message));
        }
        if exists|i: int|
            0 <= i < commits.len() && (story_id_of(
                message_text((#[trigger] commits[i]).message),
            ) matches Ok(Some(number)) && number == id) {
            let i = choose|i: int|
                0 <= i < commits.len() && (story_id_of(
                    message_text((#[trigger] commits[i]).message),
                ) matches Ok(Some(number)) && number == id);
            assert(texts[i].1.message == message_text(commits[i].message));
        }
    }
}

} // verus!
