//! Which stories and epics a release consists of.

use crate::commits::{HeadCommit, UnreleasedCommit};
use crate::decimal::decimal;
use crate::decimal::write_signed;
use crate::ids::distinct_ids;
use crate::ids::{is_rising, law_rising_ids_are_unique};
use crate::repositories::RepoMap;
use crate::shortcut::{Story, StoryId, StoryLabelFilter};
use crate::shortcut::{label_names, law_filter_goes_by_the_given_labels, text_set, Label};
use vstd::prelude::*;
use vstd::string::*;

verus! {

/// Everything that release notes tell of.
///
/// `D` is what a story tells besides its labels and its epic, and `E` is an epic.
#[derive(Debug)]
pub struct Release<D, E> {
    /// The name of the release.
    pub name: Option<String>,
    /// The version of the release.
    pub version: Option<String>,
    /// What the release is about.
    pub description: Option<String>,
    /// The stories of the release.
    pub stories: Vec<Story<D>>,
    /// The epics that stories of the release belong to.
    pub epics: Vec<E>,
    /// The commits that belong to no story, by repository.
    pub unparsed_commits: RepoMap<Vec<UnreleasedCommit>>,
    /// The newest commit of each repository.
    pub next_heads: RepoMap<HeadCommit>,
}

impl<D, E> Release<D, E> {
    /// A release of which nothing but its name, version and description is known.
    pub fn new(
        name: Option<String>,
        version: Option<String>,
        description: Option<String>,
    ) -> (release: Self)
        ensures
            release.name == name,
            release.version == version,
            release.description == description,
            release.stories@ == Seq::<Story<D>>::empty(),
            release.epics@ == Seq::<E>::empty(),
            release.unparsed_commits.well_formed(),
            release.unparsed_commits.entries() == Seq::<(String, Vec<UnreleasedCommit>)>::empty(),
            release.unparsed_commits@ == Map::<Seq<char>, Vec<UnreleasedCommit>>::empty(),
            release.next_heads.well_formed(),
            release.next_heads.entries() == Seq::<(String, HeadCommit)>::empty(),
            release.next_heads@ == Map::<Seq<char>, HeadCommit>::empty(),
    {
        Release {
            name,
            version,
            description,
            stories: Vec::new(),
            epics: Vec::new(),
            unparsed_commits: RepoMap::new(),
            next_heads: RepoMap::new(),
        }
    }
}

/// What became of a story.
#[derive(Clone, Copy, Debug, PartialEq, Eq, Structural)]
pub enum StoryOutcome {
    /// The story is part of the release.
    Kept,
    /// The labels of the story keep it out.
    LeftOut,
    /// There is no such story.
    NotFound,
}

/// Collects the stories of a release.
pub struct StoryCollector<D> {
    excluded_ids: Vec<StoryId>,
    filter: StoryLabelFilter,
    stories: Vec<Story<D>>,
}

/// Whether the id `story_id` is among `excluded`.
pub open spec fn is_excluded(excluded: Seq<StoryId>, story_id: i64) -> bool {
    exists|i: int| 0 <= i < excluded.len() && (#[trigger] excluded[i]).0 == story_id
}

impl<D> StoryCollector<D> {
    /// The ids of the stories that are left out.
    pub closed spec fn excluded_ids(self) -> Seq<StoryId> {
        self.excluded_ids@
    }

    /// The filter that a story has to pass.
    pub closed spec fn filter(self) -> StoryLabelFilter {
        self.filter
    }

    /// The stories so far.
    pub closed spec fn stories(self) -> Seq<Story<D>> {
        self.stories@
    }

    /// What becomes of a story that was or was not retrieved.
    pub open spec fn outcome(self, story: Option<Story<D>>) -> StoryOutcome {
        match story {
            None => StoryOutcome::NotFound,
            Some(story) => if self.filter().passes(story) {
                StoryOutcome::Kept
            } else {
                StoryOutcome::LeftOut
            },
        }
    }

    /// A collector that leaves out the stories with one of these ids, those with
    /// one of the excluded labels and those without all of the included labels.
    pub fn new(
        exclude_story_id: Vec<StoryId>,
        exclude_story_label: &[String],
        include_story_label: &[String],
    ) -> (collector: Self)
        ensures
            collector.excluded_ids() == exclude_story_id@,
            collector.filter().excluded() == text_set(exclude_story_label@),
            collector.filter().included() == text_set(include_story_label@),
            collector.stories() == Seq::<Story<D>>::empty(),
    {
        StoryCollector {
            excluded_ids: exclude_story_id,
            filter: StoryLabelFilter::new(exclude_story_label, include_story_label),
            stories: Vec::new(),
        }
    }

    /// Whether the story with this id is left out because of its id.
    ///
    /// Where ids are excluded at all, `story_id` has to be in the range of those
    /// that users can give.
    pub fn excludes(&self, story_id: i64) -> (excluded: bool)
        requires
            self.excluded_ids().len() > 0 ==> 0 <= story_id <= u32::MAX,
        ensures
            excluded == is_excluded(self.excluded_ids(), story_id),
    {
        let mut i: usize = 0;
        while i < self.excluded_ids.len()
            invariant
                i <= self.excluded_ids.len(),
                self.excluded_ids().len() > 0 ==> 0 <= story_id <= u32::MAX,
                forall|j: int|
                    0 <= j < i ==> (#[trigger] self.excluded_ids@[j]).0 != story_id,
            decreases self.excluded_ids.len() - i,
        {
            if self.excluded_ids[i] == StoryId::from(story_id as u32) {
                return true;
            }
            i = i + 1;
        }
        false
    }

    /// Takes in what was retrieved of the story with this id, which must not be
    /// left out because of its id.
    pub fn collect(&mut self, story_id: i64, story: Option<Story<D>>) -> (outcome: StoryOutcome)
        requires
            !is_excluded(old(self).excluded_ids(), story_id),
        ensures
            outcome == old(self).outcome(story),
            final(self).stories() == (if outcome is Kept {
                old(self).stories().push(story->0)
            } else {
                old(self).stories()
            }),
            final(self).excluded_ids() == old(self).excluded_ids(),
            final(self).filter() == old(self).filter(),
    {
        match story {
            None => StoryOutcome::NotFound,
            Some(story) => {
                if !self.filter.is_empty() && !self.filter.filter(&story) {
                    StoryOutcome::LeftOut
                } else {
                    proof {
                        if self.filter.excluded().is_empty() && self.filter.included().is_empty() {
                            crate::shortcut::law_empty_filter_passes_all(
                                crate::shortcut::label_names(story.labels@),
                            );
                            assert(self.filter.excluded() =~= Set::empty());
                            assert(self.filter.included() =~= Set::empty());
                        }
                    }
                    self.stories.push(story);
                    StoryOutcome::Kept
                }
            },
        }
    }

    /// The collected stories.
    pub fn into_stories(self) -> (stories: Vec<Story<D>>)
        ensures
            stories@ == self.stories(),
    {
        self.stories
    }
}

/// Whether what was retrieved under an id is a story of the release: the id is
/// not excluded, there is such a story, and its labels let it pass.
pub open spec fn is_release_story<D>(
    excluded: Seq<StoryId>,
    filter: StoryLabelFilter,
    retrieved: (i64, Option<Story<D>>),
) -> bool {
    !is_excluded(excluded, retrieved.0) && (retrieved.1 matches Some(story) && filter.passes(story))
}

/// The stories that are collected, one after the other, from what was retrieved;
/// what is excluded by its id is passed over.
pub open spec fn collected<D>(
    collector: StoryCollector<D>,
    retrieved: Seq<(i64, Option<Story<D>>)>,
) -> Seq<Story<D>>
    decreases retrieved.len(),
{
    if retrieved.len() == 0 {
        collector.stories()
    } else {
        let earlier = collected(collector, retrieved.drop_last());
        let (story_id, story) = retrieved.last();
        if !is_excluded(collector.excluded_ids(), story_id) && collector.outcome(story) is Kept {
            earlier.push(story->0)
        } else {
            earlier
        }
    }
}

/// A release consists of exactly the stories that exist, are not excluded by their
/// id and pass the filter on labels, in the order in which they are retrieved.
pub proof fn law_release_consists_of_wanted_stories<D>(
    collector: StoryCollector<D>,
    retrieved: Seq<(i64, Option<Story<D>>)>,
)
    ensures
        collected(collector, retrieved) == collector.stories() + retrieved.filter(
            |r: (i64, Option<Story<D>>)|
                is_release_story(collector.excluded_ids(), collector.filter(), r),
        ).map_values(|r: (i64, Option<Story<D>>)| r.1->0),
    decreases retrieved.len(),
{
    reveal(Seq::filter);
    let p = |r: (i64, Option<Story<D>>)|
        is_release_story(collector.excluded_ids(), collector.filter(), r);
    let f = |r: (i64, Option<Story<D>>)| r.1->0;
    if retrieved.len() == 0 {
        assert(collector.stories() + retrieved.filter(p).map_values(f) =~= collector.stories());
    } else {
        let earlier = retrieved.drop_last();
        law_release_consists_of_wanted_stories(collector, earlier);
        if p(retrieved.last()) {
            assert(retrieved.filter(p).map_values(f) =~= earlier.filter(p).map_values(f).push(
                f(retrieved.last()),
            ));
            assert(collected(collector, retrieved) =~= collector.stories() + retrieved.filter(
                p,
            ).map_values(f));
        }
    }
}

/// The epics that `stories` belong to.
pub open spec fn epics_of<D>(stories: Seq<Story<D>>) -> Set<i64> {
    Set::new(
        |id: i64|
            exists|i: int| 0 <= i < stories.len() && (#[trigger] stories[i]).epic_id == Some(id),
    )
}

/// The epics that `stories` belong to, each once, in ascending order.
pub fn epic_ids<D>(stories: &Vec<Story<D>>) -> (ids: Vec<i64>)
    ensures
        is_rising(ids@),
        ids@.to_set() == epics_of(stories@),
{
    let mut ids: Vec<i64> = Vec::new();
    let mut i: usize = 0;
    assert(ids@.to_set() =~= epics_of(stories@.take(0)));
    while i < stories.len()
        invariant
            i <= stories.len(),
            ids@.to_set() == epics_of(stories@.take(i as int)),
        decreases stories.len() - i,
    {
        let ghost before = stories@.take(i as int);
        let ghost after = stories@.take(i + 1);
        let ghost old_ids = ids@;
        proof {
            assert(after == before.push(stories@[i as int]));
            assert forall|id: i64| #[trigger]
                epics_of(after).contains(id) <==> epics_of(before).contains(id)
                    || stories@[i as int].epic_id == Some(id) by {
                if epics_of(before).contains(id) {
                    let j = choose|j: int|
                        0 <= j < before.len() && (#[trigger] before[j]).epic_id == Some(id);
                    assert(after[j] == before[j]);
                }
                assert(after[i as int] == stories@[i as int]);
            }
        }
        if let Some(epic_id) = stories[i].epic_id {
            ids.push(epic_id);
            proof {
                Seq::lemma_to_set_insert_commutes(old_ids, epic_id);
                assert(ids@ == old_ids + seq![epic_id]);
            }
        }
        assert(ids@.to_set() =~= epics_of(after));
        i = i + 1;
    }
    assert(stories@.take(i as int) == stories@);
    distinct_ids(ids)
}

/// An epic that stories belong to does not exist.
#[derive(Clone, Copy, Debug, PartialEq, Eq, Structural)]
pub struct EpicNotFound(pub i64);

impl EpicNotFound {
    /// What to tell the user.
    pub fn message(&self) -> (message: String)
        ensures
            message@ == "Epic "@ + decimal(self.0 as int) + " not found"@,
    {
        let mut message = String::from_str("Epic ");
        message.append(write_signed(self.0).as_str());
        message.append(" not found");
        message
    }
}

/// Adds what was retrieved of the epic with this id to `epics`; a release cannot do
/// without it.
pub fn collect_epic<E>(epics: &mut Vec<E>, epic_id: i64, epic: Option<E>) -> (collected: Result<
    (),
    EpicNotFound,
>)
    ensures
        match epic {
            Some(epic) => collected is Ok && final(epics)@ == old(epics)@.push(epic),
            None => collected == Err::<(), EpicNotFound>(EpicNotFound(epic_id)) && final(epics)@
                == old(epics)@,
        },
{
    match epic {
        Some(epic) => {
            epics.push(epic);
            Ok(())
        },
        None => Err(EpicNotFound(epic_id)),
    }
}

/// A story is excluded by its id exactly when its id is one of the excluded ids.
pub proof fn law_excluded_ids_are_the_given_ids(excluded: Seq<StoryId>, story_id: i64)
    ensures
        0 <= story_id <= u32::MAX ==> (is_excluded(excluded, story_id) <==> excluded.contains(
            StoryId(story_id as u32),
        )),
        !(0 <= story_id <= u32::MAX) ==> !is_excluded(excluded, story_id),
{
    if 0 <= story_id <= u32::MAX && is_excluded(excluded, story_id) {
        let i = choose|i: int| 0 <= i < excluded.len() && (#[trigger] excluded[i]).0 == story_id;
        assert(excluded[i] == StoryId(story_id as u32));
    }
}

/// What becomes of a story goes by the labels that were given: a story that carries no
/// label twice is kept exactly when none of the excluded labels is one of its labels
/// and each of the included labels is, and is left out otherwise. What was not
/// retrieved is not found.
pub proof fn law_story_is_kept_by_its_labels<D>(
    collector: StoryCollector<D>,
    excluded_labels: Seq<String>,
    included_labels: Seq<String>,
    story: Story<D>,
)
    requires
        collector.filter().excluded() == text_set(excluded_labels),
        collector.filter().included() == text_set(included_labels),
        forall|l: int, m: int|
            0 <= l < m < story.labels@.len() ==> (#[trigger] story.labels@[l]).name@ != (
            #[trigger] story.labels@[m]).name@,
    ensures
        collector.outcome(None) is NotFound,
        collector.outcome(Some(story)) is Kept <==> {
            &&& forall|i: int, l: int|
                0 <= i < excluded_labels.len() && 0 <= l < story.labels@.len() ==> (
                #[trigger] excluded_labels[i])@ != (#[trigger] story.labels@[l]).name@
            &&& forall|i: int|
                0 <= i < included_labels.len() ==> story.labels@.map_values(
                    |label: Label| label.name@,
                ).contains((#[trigger] included_labels[i])@)
        },
        !(collector.outcome(Some(story)) is Kept) ==> collector.outcome(Some(story)) is LeftOut,
{
    law_filter_goes_by_the_given_labels(
        collector.filter(),
        excluded_labels,
        included_labels,
        story,
    );
}

/// Whatever its labels, a story is kept or left out as the filter says, and its epic
/// and its other details do not matter.
pub proof fn law_outcome_is_that_of_the_filter<D>(
    collector: StoryCollector<D>,
    story: Story<D>,
    other: Story<D>,
)
    requires
        story.labels@.len() == other.labels@.len(),
        forall|l: int|
            0 <= l < story.labels@.len() ==> (#[trigger] story.labels@[l]).name@
                == other.labels@[l].name@,
    ensures
        collector.outcome(Some(story)) is Kept <==> collector.filter().passes(story),
        collector.outcome(Some(story)) == collector.outcome(Some(other)),
{
    assert(label_names(story.labels@) =~= label_names(other.labels@));
}

/// What is collected grows by one story at most, by each that is retrieved: by the
/// story itself, where its id is not excluded and it is kept, and not otherwise.
pub proof fn law_stories_are_collected_one_by_one<D>(
    collector: StoryCollector<D>,
    retrieved: Seq<(i64, Option<Story<D>>)>,
    story_id: i64,
    story: Option<Story<D>>,
)
    ensures
        collected(collector, seq![]) == collector.stories(),
        collected(collector, retrieved.push((story_id, story))) == (if (forall|i: int|
            0 <= i < collector.excluded_ids().len() ==> (
            #[trigger] collector.excluded_ids()[i]).0 != story_id) && story is Some
            && collector.filter().passes(story->0) {
            collected(collector, retrieved).push(story->0)
        } else {
            collected(collector, retrieved)
        }),
{
    assert(retrieved.push((story_id, story)).drop_last() == retrieved);
}

/// Every epic of a story is listed, whatever else the story is, and nothing else is
/// listed; each epic stands there once, in ascending order.
pub proof fn law_every_epic_is_listed<D>(stories: Seq<Story<D>>, ids: Seq<i64>)
    requires
        is_rising(ids),
        ids.to_set() == epics_of(stories),
    ensures
        forall|id: i64| #[trigger]
            ids.contains(id) <==> exists|i: int|
                0 <= i < stories.len() && (#[trigger] stories[i]).epic_id == Some(id),
        forall|k: int| 0 < k < ids.len() ==> ids[k - 1] < #[trigger] ids[k],
{
    assert forall|id: i64| #[trigger] ids.contains(id) <==> exists|i: int|
        0 <= i < stories.len() && (#[trigger] stories[i]).epic_id == Some(id) by {
        assert(ids.to_set().contains(id) <==> epics_of(stories).contains(id));
    }
}

/// Only the epics of the stories matter: stories with the same epics, one by one, lead
/// to the same list.
pub proof fn law_same_epics_same_list<D, F>(
    stories: Seq<Story<D>>,
    others: Seq<Story<F>>,
    ids: Seq<i64>,
    other_ids: Seq<i64>,
)
    requires
        stories.len() == others.len(),
        forall|i: int|
            0 <= i < stories.len() ==> (#[trigger] stories[i]).epic_id == others[i].epic_id,
        is_rising(ids),
        ids.to_set() == epics_of(stories),
        is_rising(other_ids),
        other_ids.to_set() == epics_of(others),
    ensures
        ids == other_ids,
{
    assert forall|id: i64| epics_of(stories).contains(id) == epics_of(others).contains(id) by {
        if epics_of(stories).contains(id) {
            let i = choose|i: int|
                0 <= i < stories.len() && (#[trigger] stories[i]).epic_id == Some(id);
            assert(others[i].epic_id == Some(id));
        }
        if epics_of(others).contains(id) {
            let i = choose|i: int|
                0 <= i < others.len() && (#[trigger] others[i]).epic_id == Some(id);
            assert(stories[i].epic_id == Some(id));
        }
    }
    assert(epics_of(stories) =~= epics_of(others));
    law_rising_ids_are_unique(ids, other_ids);
}

} // verus!
