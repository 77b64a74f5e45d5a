//! Lists of ids: putting them in order and leaving repetitions out.

use vstd::prelude::*;

verus! {

/// Whether `ids` never fall.
pub open spec fn is_sorted(ids: Seq<i64>) -> bool {
    forall|i: int, j: int| 0 <= i <= j < ids.len() ==> ids[i] <= ids[j]
}

/// Whether `ids` rise from each to the next.
pub open spec fn is_rising(ids: Seq<i64>) -> bool {
    forall|i: int, j: int| 0 <= i < j < ids.len() ==> ids[i] < ids[j]
}

/// `ids` without those that repeat the one before.
pub open spec fn without_repeats(ids: Seq<i64>) -> Seq<i64>
    decreases ids.len(),
{
    if ids.len() <= 1 {
        ids
    } else if ids[ids.len() - 2] == ids.last() {
        without_repeats(ids.drop_last())
    } else {
        without_repeats(ids.drop_last()).push(ids.last())
    }
}

/// Merges two sorted lists.
fn merge(left: Vec<i64>, right: Vec<i64>) -> (merged: Vec<i64>)
    requires
        is_sorted(left@),
        is_sorted(right@),
    ensures
        is_sorted(merged@),
        merged@.to_multiset() == left@.to_multiset().add(right@.to_multiset()),
{
    broadcast use vstd::seq_lib::group_to_multiset_ensures;

    let mut merged: Vec<i64> = Vec::new();
    let mut i: usize = 0;
    let mut j: usize = 0;
    assert(left@.take(0).to_multiset() =~= vstd::multiset::Multiset::empty());
    assert(right@.take(0).to_multiset() =~= vstd::multiset::Multiset::empty());
    while i < left.len() || j < right.len()
        invariant
            i <= left.len(),
            j <= right.len(),
            is_sorted(left@),
            is_sorted(right@),
            is_sorted(merged@),
            forall|k: int, l: int|
                0 <= k < merged.len() && i <= l < left.len() ==> merged[k] <= left[l],
            forall|k: int, l: int|
                0 <= k < merged.len() && j <= l < right.len() ==> merged[k] <= right[l],
            merged@.to_multiset() =~= left@.take(i as int).to_multiset().add(
                right@.take(j as int).to_multiset(),
            ),
        decreases left.len() - i + right.len() - j,
    {
        if j >= right.len() || i < left.len() && left[i] <= right[j] {
            assert(left@.take(i + 1) == left@.take(i as int).push(left[i as int]));
            proof {
                vstd::seq_lib::to_multiset_build(merged@, left[i as int]);
                vstd::seq_lib::to_multiset_build(left@.take(i as int), left[i as int]);
            }
            merged.push(left[i]);
            i = i + 1;
        } else {
            assert(right@.take(j + 1) == right@.take(j as int).push(right[j as int]));
            proof {
                vstd::seq_lib::to_multiset_build(merged@, right[j as int]);
                vstd::seq_lib::to_multiset_build(right@.take(j as int), right[j as int]);
            }
            merged.push(right[j]);
            j = j + 1;
        }
    }
    assert(left@.take(i as int) == left@);
    assert(right@.take(j as int) == right@);
    merged
}

/// Puts `ids` in ascending order.
pub fn sort_ids(ids: Vec<i64>) -> (sorted: Vec<i64>)
    ensures
        is_sorted(sorted@),
        sorted@.to_multiset() == ids@.to_multiset(),
    decreases ids.len(),
{
    let count = ids.len();
    if count <= 1 {
        ids
    } else {
        let mut left = ids;
        let right = left.split_off(count / 2);
        proof {
            vstd::seq_lib::lemma_multiset_commutative(left@, right@);
            assert(left@ + right@ == ids@);
        }
        merge(sort_ids(left), sort_ids(right))
    }
}

/// Leaves out each id that repeats the one before.
pub fn dedup_ids(ids: &Vec<i64>) -> (distinct: Vec<i64>)
    ensures
        distinct@ == without_repeats(ids@),
{
    let mut distinct: Vec<i64> = Vec::new();
    let mut i: usize = 0;
    while i < ids.len()
        invariant
            i <= ids.len(),
            distinct@ == without_repeats(ids@.take(i as int)),
        decreases ids.len() - i,
    {
        assert(ids@.take(i + 1).drop_last() == ids@.take(i as int));
        if i == 0 || ids[i - 1] != ids[i] {
            distinct.push(ids[i]);
            assert(i == 0 ==> ids@.take(1) == distinct@);
        }
        i = i + 1;
    }
    assert(ids@.take(i as int) == ids@);
    distinct
}

/// Sorted ids without repeats are the same ids, each once, in ascending order.
pub proof fn law_sorted_without_repeats_is_rising(ids: Seq<i64>)
    requires
        is_sorted(ids),
    ensures
        is_rising(without_repeats(ids)),
        without_repeats(ids).to_set() == ids.to_set(),
    decreases ids.len(),
{
    if ids.len() > 1 {
        let earlier = ids.drop_last();
        law_sorted_without_repeats_is_rising(earlier);
        let distinct = without_repeats(earlier);
        assert(ids == earlier.push(ids.last()));
        assert(earlier.contains(earlier.last()));
        assert forall|id: i64| ids.contains(id) <==> (earlier.contains(id) || id == ids.last()) by {
            if earlier.contains(id) {
                let k = choose|k: int| 0 <= k < earlier.len() && earlier[k] == id;
                assert(ids[k] == id);
            }
            assert(ids[ids.len() - 1] == ids.last());
        }
        assert forall|id: i64| distinct.contains(id) <==> earlier.contains(id) by {
            assert(distinct.to_set().contains(id) <==> earlier.to_set().contains(id));
        }
        if earlier.last() != ids.last() {
            assert forall|k: int| 0 <= k < distinct.len() implies #[trigger] distinct[k]
                < ids.last() by {
                assert(distinct.contains(distinct[k]));
                let l = choose|l: int| 0 <= l < earlier.len() && earlier[l] == distinct[k];
                assert(ids[l] <= ids[ids.len() - 2]);
                assert(ids[ids.len() - 2] <= ids[ids.len() - 1]);
            }
            let longer = distinct.push(ids.last());
            assert forall|id: i64| longer.contains(id) <==> (distinct.contains(id) || id
                == ids.last()) by {
                if distinct.contains(id) {
                    let k = choose|k: int| 0 <= k < distinct.len() && distinct[k] == id;
                    assert(longer[k] == id);
                }
                assert(longer[longer.len() - 1] == ids.last());
            }
        }
        assert(without_repeats(ids).to_set() =~= ids.to_set());
    }
}

/// Each of `ids` once, in ascending order.
pub fn distinct_ids(ids: Vec<i64>) -> (distinct: Vec<i64>)
    ensures
        is_rising(distinct@),
        distinct@.to_set() == ids@.to_set(),
{
    let ghost given = ids@;
    let sorted = sort_ids(ids);
    proof {
        lemma_same_multiset_same_set(sorted@, given);
        law_sorted_without_repeats_is_rising(sorted@);
    }
    dedup_ids(&sorted)
}

/// What occurs as often in one list as in another occurs in both or in neither.
proof fn lemma_same_multiset_same_set(a: Seq<i64>, b: Seq<i64>)
    requires
        a.to_multiset() == b.to_multiset(),
    ensures
        a.to_set() == b.to_set(),
{
    broadcast use vstd::seq_lib::group_to_multiset_ensures;

    assert forall|id: i64| a.to_set().contains(id) <==> b.to_set().contains(id) by {
        assert(a.contains(id) <==> a.to_multiset().count(id) > 0);
        assert(b.contains(id) <==> b.to_multiset().count(id) > 0);
    }
    assert(a.to_set() =~= b.to_set());
}

/// Rising ids are told by their set: there is one way to put ids in order.
pub proof fn law_rising_ids_are_unique(a: Seq<i64>, b: Seq<i64>)
    requires
        is_rising(a),
        is_rising(b),
        a.to_set() == b.to_set(),
    ensures
        a == b,
    decreases a.len(),
{
    assert forall|id: i64| a.contains(id) <==> b.contains(id) by {
        assert(a.to_set().contains(id) <==> a.contains(id));
        assert(b.to_set().contains(id) <==> b.contains(id));
    }
    if a.len() == 0 {
        if b.len() > 0 {
            assert(b.contains(b[0]));
        }
        assert(a == b);
    } else {
        assert(a.contains(a.last()));
        assert(b.len() > 0);
        assert(b.contains(b.last()));
        let k = choose|k: int| 0 <= k < b.len() && b[k] == a.last();
        let l = choose|l: int| 0 <= l < a.len() && a[l] == b.last();
        assert(a.last() == b.last());
        let a1 = a.drop_last();
        let b1 = b.drop_last();
        assert forall|id: i64| a1.contains(id) <==> b1.contains(id) by {
            if a1.contains(id) {
                let m = choose|m: int| 0 <= m < a1.len() && a1[m] == id;
                assert(a[m] == id);
                assert(a.contains(id));
                let n = choose|n: int| 0 <= n < b.len() && b[n] == id;
                assert(b1[n] == id);
            }
            if b1.contains(id) {
                let m = choose|m: int| 0 <= m < b1.len() && b1[m] == id;
                assert(b[m] == id);
                assert(b.contains(id));
                let n = choose|n: int| 0 <= n < a.len() && a[n] == id;
                assert(a1[n] == id);
            }
        }
        assert(a1.to_set() =~= b1.to_set());
        law_rising_ids_are_unique(a1, b1);
        assert(a == a1.push(a.last()));
        assert(b == b1.push(b.last()));
    }
}

/// In a sorted list no id is above the next.
pub proof fn law_sorted_ids_do_not_fall(sorted: Seq<i64>, k: int)
    requires
        is_sorted(sorted),
        0 <= k < sorted.len() - 1,
    ensures
        sorted[k] <= sorted[k + 1],
{
}

/// A list of distinct ids holds each of the given ids and no others, and each is above
/// the one before.
pub proof fn law_distinct_ids_are_the_given_ids(given: Seq<i64>, distinct: Seq<i64>)
    requires
        is_rising(distinct),
        distinct.to_set() == given.to_set(),
    ensures
        forall|i: int| 0 <= i < given.len() ==> distinct.contains(#[trigger] given[i]),
        forall|k: int| 0 <= k < distinct.len() ==> given.contains(#[trigger] distinct[k]),
        forall|k: int| 0 < k < distinct.len() ==> distinct[k - 1] < #[trigger] distinct[k],
{
    assert forall|i: int| 0 <= i < given.len() implies distinct.contains(#[trigger] given[i]) by {
        assert(given.to_set().contains(given[i]));
    }
    assert forall|k: int| 0 <= k < distinct.len() implies given.contains(#[trigger] distinct[k]) by {
        assert(distinct.to_set().contains(distinct[k]));
    }
}

/// A list in which no id repeats the one before stays as it is.
pub proof fn law_list_without_repeats_is_kept(ids: Seq<i64>)
    requires
        forall|k: int| 0 < k < ids.len() ==> ids[k - 1] != #[trigger] ids[k],
    ensures
        without_repeats(ids) == ids,
    decreases ids.len(),
{
    if ids.len() > 1 {
        let earlier = ids.drop_last();
        assert(forall|k: int| 0 <= k < earlier.len() ==> earlier[k] == ids[k]);
        law_list_without_repeats_is_kept(earlier);
        assert(ids[ids.len() - 2] != ids[ids.len() - 1]);
        assert(ids == earlier.push(ids.last()));
    }
}

/// Of an id that stands several times in a row, one is left.
pub proof fn law_of_a_row_of_repeats_one_is_left(ids: Seq<i64>, id: i64)
    requires
        ids.len() > 0,
        forall|k: int| 0 <= k < ids.len() ==> #[trigger] ids[k] == id,
    ensures
        without_repeats(ids) == seq![id],
    decreases ids.len(),
{
    if ids.len() > 1 {
        let earlier = ids.drop_last();
        assert(forall|k: int| 0 <= k < earlier.len() ==> earlier[k] == ids[k]);
        law_of_a_row_of_repeats_one_is_left(earlier, id);
        assert(ids[ids.len() - 2] == ids[ids.len() - 1]);
    } else {
        assert(ids =~= seq![id]);
    }
}

/// Where an id differs from the next, what comes before and what comes after do not
/// matter to each other.
pub proof fn law_repeats_are_left_out_part_by_part(front: Seq<i64>, rest: Seq<i64>)
    requires
        front.len() > 0,
        rest.len() > 0,
        front.last() != rest[0],
    ensures
        without_repeats(front + rest) == without_repeats(front) + without_repeats(rest),
    decreases rest.len(),
{
    let all = front + rest;
    assert(all.drop_last() == front + rest.drop_last());
    assert(all.last() == rest.last());
    if rest.len() == 1 {
        assert(all.drop_last() =~= front);
        assert(all[all.len() - 2] == front.last());
        assert(without_repeats(all) =~= without_repeats(front) + without_repeats(rest));
    } else {
        law_repeats_are_left_out_part_by_part(front, rest.drop_last());
        assert(all[all.len() - 2] == rest[rest.len() - 2]);
        assert(without_repeats(all) =~= without_repeats(front) + without_repeats(rest));
    }
}

} // verus!
