//! Shortcut stories: their ids, and the choice of stories by label.

use crate::decimal::{parse_number, write_number, NumberError};
use crate::decimal::{digits, law_written_number_is_read_back, read_number};
use vstd::hash_set::StringHashSet;
use vstd::prelude::*;
use vstd::std_specs::convert::FromSpec;

verus! {

/// A label of a story.
#[derive(Debug)]
pub struct Label {
    /// The name of the label.
    pub name: String,
}

/// A story, as the service describes it.
///
/// `D` is the rest of the description, which goes into the release notes as it
/// came.
#[derive(Debug)]
pub struct Story<D> {
    /// The labels of the story.
    pub labels: Vec<Label>,
    /// The epic that the story belongs to, if it belongs to one.
    pub epic_id: Option<i64>,
    /// Everything else.
    pub details: D,
}

/// The names of `labels`, in their order.
pub open spec fn label_names(labels: Seq<Label>) -> Seq<Seq<char>> {
    labels.map_values(|label: Label| label.name@)
}

/// The texts among `texts`.
pub open spec fn text_set(texts: Seq<String>) -> Set<Seq<char>> {
    texts.map_values(|text: String| text@).to_set()
}

/// Whether a story with labels of these names passes a filter: none of its labels
/// is excluded, and as many of them are included as there are included labels.
pub open spec fn labels_pass(
    excluded: Set<Seq<char>>,
    included: Set<Seq<char>>,
    names: Seq<Seq<char>>,
) -> bool {
    &&& forall|i: int| 0 <= i < names.len() ==> !excluded.contains(#[trigger] names[i])
    &&& names.filter(|name: Seq<char>| included.contains(name)).len() == included.len()
}

/// Chooses stories by their labels.
pub struct StoryLabelFilter {
    excluded_labels: StringHashSet,
    included_labels: StringHashSet,
}

/// A set of the texts in `texts`.
fn collect_set(texts: &[String]) -> (set: StringHashSet)
    ensures
        set@ == text_set(texts@),
{
    let mut set = StringHashSet::new();
    let mut i: usize = 0;
    assert(text_set(texts@.take(0)) == Set::<Seq<char>>::empty());
    while i < texts.len()
        invariant
            i <= texts.len(),
            set@ == text_set(texts@.take(i as int)),
        decreases texts.len() - i,
    {
        set.insert(texts[i].clone());
        proof {
            let before = texts@.take(i as int).map_values(|text: String| text@);
            Seq::lemma_to_set_insert_commutes(before, texts@[i as int]@);
            assert(texts@.take(i + 1).map_values(|text: String| text@) == before
                + seq![texts@[i as int]@]);
        }
        i = i + 1;
    }
    assert(texts@.take(i as int) == texts@);
    set
}

impl StoryLabelFilter {
    /// The names of the excluded labels.
    pub closed spec fn excluded(self) -> Set<Seq<char>> {
        self.excluded_labels@
    }

    /// The names of the included labels.
    pub closed spec fn included(self) -> Set<Seq<char>> {
        self.included_labels@
    }

    /// Whether `story` passes the filter.
    pub open spec fn passes<D>(self, story: Story<D>) -> bool {
        labels_pass(self.excluded(), self.included(), label_names(story.labels@))
    }

    /// A filter that keeps out stories with an excluded label, and lets in
    /// stories with all the included labels.
    pub fn new(excluded_labels: &[String], included_labels: &[String]) -> (filter: Self)
        ensures
            filter.excluded() == text_set(excluded_labels@),
            filter.included() == text_set(included_labels@),
    {
        StoryLabelFilter {
            excluded_labels: collect_set(excluded_labels),
            included_labels: collect_set(included_labels),
        }
    }

    /// Whether the filter names no label at all.
    pub fn is_empty(&self) -> (empty: bool)
        ensures
            empty == (self.excluded().is_empty() && self.included().is_empty()),
    {
        self.excluded_labels.is_empty() && self.included_labels.is_empty()
    }

    /// Whether `story` passes the filter.
    ///
    /// Included labels are counted, on the understanding that no story carries
    /// the same label twice.
    pub fn filter<D>(&self, story: &Story<D>) -> (passes: bool)
        ensures
            passes == self.passes(*story),
    {
        let ghost names = label_names(story.labels@);
        let ghost is_included = |name: Seq<char>| self.included().contains(name);
        let mut included_labels_count: usize = 0;
        let mut i: usize = 0;
        assert(names.take(0).filter(is_included).len() == 0) by {
            reveal(Seq::filter);
        }
        while i < story.labels.len()
            invariant
                i <= story.labels.len(),
                names == label_names(story.labels@),
                is_included == (|name: Seq<char>| self.included().contains(name)),
                included_labels_count <= i,
                included_labels_count == names.take(i as int).filter(is_included).len(),
                forall|j: int| 0 <= j < i ==> !self.excluded().contains(#[trigger] names[j]),
            decreases story.labels.len() - i,
        {
            let name = story.labels[i].name.as_str();
            assert(name@ == names[i as int]);
            if self.excluded_labels.contains(name) {
                return false;
            }
            proof {
                reveal(Seq::filter);
                assert(names.take(i + 1).drop_last() == names.take(i as int));
            }
            if self.included_labels.contains(name) {
                included_labels_count = included_labels_count + 1;
            }
            i = i + 1;
        }
        assert(names.take(i as int) == names);
        included_labels_count == self.included_labels.len()
    }
}

/// Excluding has priority over including: a story with an excluded label never
/// passes, whatever its other labels.
pub proof fn law_exclusion_has_priority(
    excluded: Set<Seq<char>>,
    included: Set<Seq<char>>,
    names: Seq<Seq<char>>,
    name: Seq<char>,
)
    requires
        names.contains(name),
        excluded.contains(name),
    ensures
        !labels_pass(excluded, included, names),
{
}

/// A filter that names no label lets everything pass.
pub proof fn law_empty_filter_passes_all(names: Seq<Seq<char>>)
    ensures
        labels_pass(Set::empty(), Set::empty(), names),
{
    let included = Set::<Seq<char>>::empty();
    names.lemma_all_neg_filter_empty(|name: Seq<char>| included.contains(name));
}

/// A sequence without repetitions has none after filtering either.
proof fn lemma_filter_keeps_distinct<A>(s: Seq<A>, p: spec_fn(A) -> bool)
    requires
        s.no_duplicates(),
    ensures
        s.filter(p).no_duplicates(),
    decreases s.len(),
{
    reveal(Seq::filter);
    if s.len() > 0 {
        let rest = s.drop_last();
        lemma_filter_keeps_distinct(rest, p);
        assert forall|i: int| 0 <= i < rest.filter(p).len() implies #[trigger] rest.filter(p)[i]
            != s.last() by {
            assert(rest.filter(p).contains(rest.filter(p)[i]));
            rest.lemma_filter_contains_rev(p, rest.filter(p)[i]);
            let j = choose|j: int| 0 <= j < rest.len() && rest[j] == rest.filter(p)[i];
            assert(s[j] == rest[j]);
        }
    }
}

/// A story that carries no label twice passes exactly when it has none of the
/// excluded labels and all of the included ones.
pub proof fn law_passes_with_all_included_and_no_excluded(
    excluded_labels: Seq<String>,
    included_labels: Seq<String>,
    names: Seq<Seq<char>>,
)
    requires
        names.no_duplicates(),
    ensures
        labels_pass(text_set(excluded_labels), text_set(included_labels), names) <==> {
            &&& names.to_set().disjoint(text_set(excluded_labels))
            &&& text_set(included_labels).subset_of(names.to_set())
        },
{
    broadcast use vstd::seq_lib::seq_to_set_is_finite;

    let excluded = text_set(excluded_labels);
    let included = text_set(included_labels);
    let is_included = |name: Seq<char>| included.contains(name);
    let matching = names.filter(is_included);
    lemma_filter_keeps_distinct(names, is_included);
    matching.unique_seq_to_set();
    assert(matching.to_set() == included.intersect(names.to_set())) by {
        assert forall|name: Seq<char>| matching.contains(name) <==> (included.contains(name)
            && names.contains(name)) by {
            if matching.contains(name) {
                let i = choose|i: int| 0 <= i < matching.len() && matching[i] == name;
                names.lemma_filter_pred(is_included, i);
                names.lemma_filter_contains_rev(is_included, name);
            }
            if included.contains(name) && names.contains(name) {
                let i = choose|i: int| 0 <= i < names.len() && names[i] == name;
                names.lemma_filter_contains(is_included, i);
            }
        }
    }
    let common = included.intersect(names.to_set());
    if common.len() == included.len() {
        vstd::set_lib::lemma_subset_equality(common, included);
        assert(included.subset_of(names.to_set()));
    }
    if included.subset_of(names.to_set()) {
        assert(common == included);
    }
    assert((forall|i: int| 0 <= i < names.len() ==> !excluded.contains(#[trigger] names[i]))
        <==> names.to_set().disjoint(excluded)) by {
        if names.to_set().disjoint(excluded) {
            assert forall|i: int| 0 <= i < names.len() implies !excluded.contains(
                #[trigger] names[i],
            ) by {
                assert(names.to_set().contains(names[i]));
            }
        }
    }
}

/// The id of a story, as users give it.
#[derive(Clone, Copy, Debug, PartialEq, Eq, Hash, Structural)]
pub struct StoryId(pub u32);

impl From<u32> for StoryId {
    fn from(number: u32) -> (id: StoryId) {
        StoryId(number)
    }
}

impl vstd::std_specs::convert::FromSpecImpl<u32> for StoryId {
    open spec fn obeys_from_spec() -> bool {
        true
    }

    open spec fn from_spec(number: u32) -> StoryId {
        StoryId(number)
    }
}

impl From<StoryId> for u32 {
    fn from(id: StoryId) -> (number: u32) {
        id.0
    }
}

impl vstd::std_specs::convert::FromSpecImpl<StoryId> for u32 {
    open spec fn obeys_from_spec() -> bool {
        true
    }

    open spec fn from_spec(id: StoryId) -> u32 {
        id.0
    }
}

impl StoryId {
    /// The number of the id.
    pub fn as_ref(&self) -> (number: &u32)
        ensures
            *number == self.0,
    {
        &self.0
    }

    /// Reads an id, which is a number in decimal notation with or without a plus
    /// sign in front.
    pub fn from_str(text: &str) -> (id: Result<StoryId, NumberError>)
        ensures
            match id {
                Ok(id) => read_number(text@, u32::MAX as nat) == Ok::<nat, NumberError>(id.0 as nat),
                Err(e) => read_number(text@, u32::MAX as nat) == Err::<nat, NumberError>(e),
            },
    {
        match parse_number(text, u32::MAX as u64) {
            Ok(number) => {
                proof {
                    lemma_read_number_bound(text@, u32::MAX as nat);
                }
                Ok(StoryId(number as u32))
            },
            Err(error) => Err(error),
        }
    }

    /// The id in decimal notation.
    pub fn to_string(&self) -> (text: String)
        ensures
            text@ == digits(self.0 as nat),
    {
        write_number(self.0 as u64)
    }
}

/// A number that is read is not above the largest that is allowed.
proof fn lemma_read_number_bound(text: Seq<char>, max: nat)
    ensures
        read_number(text, max) matches Ok(n) ==> n <= max,
{
}

/// An id that is written and then read is the same id.
pub proof fn law_written_id_is_read_back(id: StoryId)
    ensures
        read_number(digits(id.0 as nat), u32::MAX as nat) == Ok::<nat, NumberError>(id.0 as nat),
{
    law_written_number_is_read_back(id.0 as nat, u32::MAX as nat);
}

/// A set of texts holds each of the texts, and no others.
pub proof fn law_set_holds_each_text(texts: Seq<String>, text: Seq<char>)
    ensures
        text_set(texts).contains(text) <==> exists|i: int|
            0 <= i < texts.len() && (#[trigger] texts[i])@ == text,
        text_set(texts).is_empty() <==> texts.len() == 0,
{
    let views = texts.map_values(|text: String| text@);
    if exists|i: int| 0 <= i < texts.len() && (#[trigger] texts[i])@ == text {
        let i = choose|i: int| 0 <= i < texts.len() && (#[trigger] texts[i])@ == text;
        assert(views[i] == text);
    }
    if views.contains(text) {
        let i = choose|i: int| 0 <= i < views.len() && views[i] == text;
        assert(texts[i]@ == text);
    }
    if texts.len() > 0 {
        assert(views[0] == texts[0]@);
        assert(text_set(texts).contains(texts[0]@));
    } else {
        assert(text_set(texts) =~= Set::empty());
    }
}

/// The names of labels are told one by one, with none left out.
pub proof fn law_labels_are_told_by_name(labels: Seq<Label>)
    ensures
        label_names(labels).len() == labels.len(),
        forall|l: int|
            0 <= l < labels.len() ==> #[trigger] label_names(labels)[l] == labels[l].name@,
{
}

/// A filter goes by the labels that it was made of: a story that carries no label
/// twice passes exactly when none of the excluded labels is one of its labels, and
/// each of the included labels is.
pub proof fn law_filter_goes_by_the_given_labels<D>(
    filter: StoryLabelFilter,
    excluded_labels: Seq<String>,
    included_labels: Seq<String>,
    story: Story<D>,
)
    requires
        filter.excluded() == text_set(excluded_labels),
        filter.included() == text_set(included_labels),
        forall|l: int, m: int|
            0 <= l < m < story.labels@.len() ==> (#[trigger] story.labels@[l]).name@ != (
            #[trigger] story.labels@[m]).name@,
    ensures
        filter.passes(story) <==> {
            &&& forall|i: int, l: int|
                0 <= i < excluded_labels.len() && 0 <= l < story.labels@.len() ==> (
                #[trigger] excluded_labels[i])@ != (#[trigger] story.labels@[l]).name@
            &&& forall|i: int|
                0 <= i < included_labels.len() ==> story.labels@.map_values(
                    |label: Label| label.name@,
                ).contains((#[trigger] included_labels[i])@)
        },
{
    let labels = story.labels@;
    let names = label_names(labels);
    let excluded = text_set(excluded_labels);
    let included = text_set(included_labels);
    assert(names =~= labels.map_values(|label: Label| label.name@));
    assert forall|l: int, m: int| 0 <= l < names.len() && 0 <= m < names.len() && l != m implies
        names[l] != names[m] by {
        if l < m {
            assert(labels[l].name@ != labels[m].name@);
        } else {
            assert(labels[m].name@ != labels[l].name@);
        }
    }
    law_passes_with_all_included_and_no_excluded(excluded_labels, included_labels, names);
    assert forall|name: Seq<char>| #[trigger] names.to_set().contains(name) <==> exists|l: int|
        0 <= l < labels.len() && (#[trigger] labels[l]).name@ == name by {
        if names.contains(name) {
            let l = choose|l: int| 0 <= l < names.len() && names[l] == name;
            assert(labels[l].name@ == name);
        }
        if exists|l: int| 0 <= l < labels.len() && (#[trigger] labels[l]).name@ == name {
            let l = choose|l: int| 0 <= l < labels.len() && (#[trigger] labels[l]).name@ == name;
            assert(names[l] == name);
        }
    }
    assert forall|name: Seq<char>| #[trigger] excluded.contains(name) <==> exists|i: int|
        0 <= i < excluded_labels.len() && (#[trigger] excluded_labels[i])@ == name by {
        law_set_holds_each_text(excluded_labels, name);
    }
    assert forall|name: Seq<char>| #[trigger] included.contains(name) <==> exists|i: int|
        0 <= i < included_labels.len() && (#[trigger] included_labels[i])@ == name by {
        law_set_holds_each_text(included_labels, name);
    }
    if filter.passes(story) {
        assert forall|i: int, l: int|
            0 <= i < excluded_labels.len() && 0 <= l < labels.len() implies (
        #[trigger] excluded_labels[i])@ != (#[trigger] labels[l]).name@ by {
            assert(names.to_set().contains(labels[l].name@));
            assert(excluded.contains(excluded_labels[i]@));
        }
        assert forall|i: int| 0 <= i < included_labels.len() implies names.contains(
            (#[trigger] included_labels[i])@,
        ) by {
            assert(included.contains(included_labels[i]@));
            assert(names.to_set().contains(included_labels[i]@));
        }
    } else if names.to_set().disjoint(excluded) {
        let name = choose|name: Seq<char>|
            included.contains(name) && !names.to_set().contains(name);
        assert(included.contains(name) && !names.to_set().contains(name));
        let i = choose|i: int|
            0 <= i < included_labels.len() && (#[trigger] included_labels[i])@ == name;
        assert(!names.contains(included_labels[i]@));
    } else {
        let name = choose|name: Seq<char>|
            names.to_set().contains(name) && excluded.contains(name);
        assert(names.to_set().contains(name) && excluded.contains(name));
        let l = choose|l: int| 0 <= l < labels.len() && (#[trigger] labels[l]).name@ == name;
        let i = choose|i: int|
            0 <= i < excluded_labels.len() && (#[trigger] excluded_labels[i])@ == name;
        assert(excluded_labels[i]@ == labels[l].name@);
    }
}

/// As many labels as names satisfy a condition on names.
proof fn lemma_labels_by_name(labels: Seq<Label>, p: spec_fn(Seq<char>) -> bool)
    ensures
        label_names(labels).filter(p).len() == labels.filter(|label: Label| p(label.name@)).len(),
    decreases labels.len(),
{
    reveal(Seq::filter);
    if labels.len() > 0 {
        lemma_labels_by_name(labels.drop_last(), p);
        assert(label_names(labels).drop_last() == label_names(labels.drop_last()));
    }
}

/// Included labels are counted: any story passes exactly when none of the excluded
/// labels is one of its labels, and it carries as many labels that are included,
/// repeated ones counted again, as there are different included labels.
pub proof fn law_included_labels_are_counted<D>(
    filter: StoryLabelFilter,
    excluded_labels: Seq<String>,
    included_labels: Seq<String>,
    story: Story<D>,
)
    requires
        filter.excluded() == text_set(excluded_labels),
        filter.included() == text_set(included_labels),
    ensures
        filter.passes(story) <==> {
            &&& forall|i: int, l: int|
                0 <= i < excluded_labels.len() && 0 <= l < story.labels@.len() ==> (
                #[trigger] excluded_labels[i])@ != (#[trigger] story.labels@[l]).name@
            &&& story.labels@.filter(
                |label: Label|
                    exists|i: int|
                        0 <= i < included_labels.len() && (#[trigger] included_labels[i])@
                            == label.name@,
            ).len() == included_labels.map_values(|text: String| text@).to_set().len()
        },
{
    let labels = story.labels@;
    let names = label_names(labels);
    let excluded = text_set(excluded_labels);
    let included = text_set(included_labels);
    let is_included = |name: Seq<char>| included.contains(name);
    let is_given = |label: Label|
        exists|i: int|
            0 <= i < included_labels.len() && (#[trigger] included_labels[i])@ == label.name@;
    lemma_labels_by_name(labels, is_included);
    assert forall|label: Label| is_included(label.name@) == #[trigger] is_given(label) by {
        law_set_holds_each_text(included_labels, label.name@);
    }
    assert((|label: Label| is_included(label.name@)) =~= is_given);
    assert(included =~= included_labels.map_values(|text: String| text@).to_set()) by {
        assert forall|name: Seq<char>| included.contains(name)
            <==> included_labels.map_values(|text: String| text@).contains(name) by {
            law_set_holds_each_text(included_labels, name);
        }
    }
    assert forall|l: int| 0 <= l < labels.len() implies excluded.contains(
        (#[trigger] labels[l]).name@,
    ) == (exists|i: int|
        0 <= i < excluded_labels.len() && (#[trigger] excluded_labels[i])@ == labels[l].name@) by {
        law_set_holds_each_text(excluded_labels, labels[l].name@);
    }
    if forall|i: int, l: int|
        0 <= i < excluded_labels.len() && 0 <= l < labels.len() ==> (#[trigger] excluded_labels[i])@
            != (#[trigger] labels[l]).name@ {
        assert forall|l: int| 0 <= l < names.len() implies !excluded.contains(
            #[trigger] names[l],
        ) by {
            assert(names[l] == labels[l].name@);
        }
    }
    if filter.passes(story) {
        assert forall|i: int, l: int|
            0 <= i < excluded_labels.len() && 0 <= l < labels.len() implies (
        #[trigger] excluded_labels[i])@ != (#[trigger] labels[l]).name@ by {
            assert(!excluded.contains(names[l]));
            assert(names[l] == labels[l].name@);
        }
    }
}

/// An id is its number: turning a number into an id and back changes nothing.
pub proof fn law_id_is_its_number(number: u32)
    ensures
        <StoryId as FromSpec<u32>>::from_spec(number).0 == number,
        <u32 as FromSpec<StoryId>>::from_spec(StoryId(number)) == number,
        <StoryId as FromSpec<u32>>::obeys_from_spec(),
        <u32 as FromSpec<StoryId>>::obeys_from_spec(),
{
}

} // verus!
