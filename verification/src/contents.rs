//! What a sequence of groups holds, regardless of how it is grouped.

use vstd::multiset::Multiset;
use vstd::prelude::*;
use vstd::seq_lib::{lemma_flatten_concat, lemma_multiset_commutative};

verus! {

/// Every file of every group, each counted as often as it occurs.
pub open spec fn files_in<T>(groups: Seq<Seq<T>>) -> Multiset<T> {
    groups.flatten().to_multiset()
}

/// No group is empty.
pub open spec fn no_empty_group<T>(groups: Seq<Seq<T>>) -> bool {
    forall|i: int| 0 <= i < groups.len() ==> (#[trigger] groups[i]).len() > 0
}

/// The number of files in all groups together.
pub open spec fn file_count<T>(groups: Seq<Seq<T>>) -> nat {
    groups.flatten().len()
}

/// Groups that hold the files of a list, each once, hold as many files as the
/// list is long.
pub proof fn lemma_file_count<T>(groups: Seq<Seq<T>>, files: Seq<T>)
    requires
        files_in(groups) == files.to_multiset(),
    ensures
        file_count(groups) == files.len(),
{
    groups.flatten().to_multiset_ensures();
    files.to_multiset_ensures();
}

/// The same groups in another order hold the same files.
pub proof fn lemma_order_of_groups_is_free<T>(groups: Seq<Seq<T>>, reordered: Seq<Seq<T>>)
    requires
        groups.to_multiset() == reordered.to_multiset(),
    ensures
        files_in(groups) == files_in(reordered),
    decreases groups.len(),
{
    broadcast use vstd::seq_lib::group_to_multiset_ensures;

    if groups.len() == 0 {
        assert(reordered.to_multiset().len() == 0);
        lemma_files_in_empty(groups);
        lemma_files_in_empty(reordered);
    } else {
        let last = groups.last();
        let front = groups.drop_last();
        assert(front.push(last) =~= groups);
        assert(groups.to_multiset().count(last) > 0);
        assert(reordered.contains(last));
        let at = choose|at: int| 0 <= at < reordered.len() && reordered[at] == last;
        let rest = reordered.remove(at);
        assert(rest.to_multiset() =~= reordered.to_multiset().remove(last));
        assert(front.to_multiset() =~= groups.to_multiset().remove(last));
        lemma_order_of_groups_is_free(front, rest);
        lemma_files_in_push(front, last);
        lemma_files_in_remove(reordered, at);
    }
}

/// A sequence of groups that holds no group holds no file.
pub proof fn lemma_files_in_empty<T>(groups: Seq<Seq<T>>)
    requires
        groups.len() == 0,
    ensures
        groups.flatten() =~= Seq::<T>::empty(),
        files_in(groups) =~= Multiset::<T>::empty(),
{
    broadcast use vstd::seq_lib::group_to_multiset_ensures;

    assert(groups.flatten().len() == 0);
    assert(groups.flatten().to_multiset().len() == 0);
}

/// A group put in at any place adds its files and no others.
pub proof fn lemma_files_in_insert<T>(groups: Seq<Seq<T>>, at: int, group: Seq<T>)
    requires
        0 <= at <= groups.len(),
    ensures
        files_in(groups.insert(at, group)) =~= files_in(groups).add(group.to_multiset()),
{
    let front = groups.take(at);
    let back = groups.skip(at);
    let one = seq![group];
    assert(groups =~= front + back);
    assert(groups.insert(at, group) =~= (front + one) + back);
    lemma_flatten_concat(front, back);
    lemma_flatten_concat(front + one, back);
    lemma_flatten_concat(front, one);
    one.lemma_flatten_one_element();
    assert(one.first() == group);
    lemma_multiset_commutative(front.flatten(), back.flatten());
    lemma_multiset_commutative(front.flatten() + group, back.flatten());
    lemma_multiset_commutative(front.flatten(), group);
}

/// A group appended at the end adds its files and no others.
pub proof fn lemma_files_in_push<T>(groups: Seq<Seq<T>>, group: Seq<T>)
    ensures
        files_in(groups.push(group)) =~= files_in(groups).add(group.to_multiset()),
{
    assert(groups.push(group) =~= groups.insert(groups.len() as int, group));
    lemma_files_in_insert(groups, groups.len() as int, group);
}

/// A group taken out takes its files with it and no others.
pub proof fn lemma_files_in_remove<T>(groups: Seq<Seq<T>>, at: int)
    requires
        0 <= at < groups.len(),
    ensures
        files_in(groups) =~= files_in(groups.remove(at)).add(groups[at].to_multiset()),
{
    assert(groups.remove(at).insert(at, groups[at]) =~= groups);
    lemma_files_in_insert(groups.remove(at), at, groups[at]);
}

/// Two neighbouring halves hold together what the whole group held.
pub proof fn lemma_halves_hold_all<T>(group: Seq<T>, at: int)
    requires
        0 <= at <= group.len(),
    ensures
        group.take(at).to_multiset().add(group.skip(at).to_multiset()) =~= group.to_multiset(),
{
    assert(group.take(at) + group.skip(at) =~= group);
    lemma_multiset_commutative(group.take(at), group.skip(at));
}

} // verus!
