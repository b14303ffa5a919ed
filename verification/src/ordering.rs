//! Stable ordering of groups by their size.
//!
//! Groups are ordered by the number of files they hold, either largest first
//! or smallest first. Groups of equal size keep the order they had.

use vstd::prelude::*;

verus! {

/// What a vector of groups stands for: the sequence of its groups, each as the
/// sequence of its files.
pub open spec fn groups_of<T>(groups: Vec<Vec<T>>) -> Seq<Seq<T>> {
    groups@.map_values(|g: Vec<T>| g@)
}

/// Whether a group of size `held` stays in front of a group of size `incoming`
/// that is placed after it.
pub open spec fn stays_ahead(held: nat, incoming: nat, largest_first: bool) -> bool {
    if largest_first {
        held >= incoming
    } else {
        held <= incoming
    }
}

/// Every group stands in front of the groups it is allowed to precede.
pub open spec fn ordered_by_size<T>(groups: Seq<Seq<T>>, largest_first: bool) -> bool {
    forall|i: int, j: int|
        0 <= i <= j < groups.len() ==> stays_ahead(
            #[trigger] groups[i].len(),
            #[trigger] groups[j].len(),
            largest_first,
        )
}

/// The place at which a group of `size` files enters an ordered sequence: behind
/// every group that stays ahead of it, in front of the first that does not.
pub open spec fn slot_for<T>(groups: Seq<Seq<T>>, size: nat, largest_first: bool) -> int
    decreases groups.len(),
{
    if groups.len() == 0 {
        0
    } else if !stays_ahead(groups[0].len(), size, largest_first) {
        0
    } else {
        1 + slot_for(groups.drop_first(), size, largest_first)
    }
}

/// An ordered sequence with one more group placed at its slot.
pub open spec fn placed<T>(groups: Seq<Seq<T>>, group: Seq<T>, largest_first: bool) -> Seq<Seq<T>> {
    groups.insert(slot_for(groups, group.len(), largest_first), group)
}

/// The groups in stable order of size.
pub open spec fn sorted_by_size<T>(groups: Seq<Seq<T>>, largest_first: bool) -> Seq<Seq<T>>
    decreases groups.len(),
{
    if groups.len() == 0 {
        groups
    } else {
        placed(sorted_by_size(groups.drop_last(), largest_first), groups.last(), largest_first)
    }
}

/// A slot lies within the sequence, everything in front of it stays ahead, and
/// the group at the slot, if there is one, does not.
pub proof fn lemma_slot_for<T>(groups: Seq<Seq<T>>, size: nat, largest_first: bool)
    ensures
        0 <= slot_for(groups, size, largest_first) <= groups.len(),
        forall|j: int|
            0 <= j < slot_for(groups, size, largest_first) ==> stays_ahead(
                #[trigger] groups[j].len(),
                size,
                largest_first,
            ),
        slot_for(groups, size, largest_first) < groups.len() ==> !stays_ahead(
            groups[slot_for(groups, size, largest_first)].len(),
            size,
            largest_first,
        ),
    decreases groups.len(),
{
    if groups.len() > 0 && stays_ahead(groups[0].len(), size, largest_first) {
        let rest = groups.drop_first();
        lemma_slot_for(rest, size, largest_first);
        let p = slot_for(rest, size, largest_first);
        assert forall|j: int| 0 <= j < p + 1 implies stays_ahead(
            #[trigger] groups[j].len(),
            size,
            largest_first,
        ) by {
            if j > 0 {
                assert(groups[j] == rest[j - 1]);
            }
        }
        if p + 1 < groups.len() {
            assert(groups[p + 1] == rest[p]);
        }
    }
}

/// The slot is the only place with the two properties of `lemma_slot_for`.
pub proof fn lemma_slot_unique<T>(groups: Seq<Seq<T>>, size: nat, largest_first: bool, at: int)
    requires
        0 <= at <= groups.len(),
        forall|j: int| 0 <= j < at ==> stays_ahead(#[trigger] groups[j].len(), size, largest_first),
        at < groups.len() ==> !stays_ahead(groups[at].len(), size, largest_first),
    ensures
        at == slot_for(groups, size, largest_first),
{
    lemma_slot_for(groups, size, largest_first);
    let p = slot_for(groups, size, largest_first);
    if p < at {
        assert(stays_ahead(groups[p].len(), size, largest_first));
    } else if at < p {
        assert(stays_ahead(groups[at].len(), size, largest_first));
    }
}

/// Placing a group into an ordered sequence keeps it ordered and adds exactly
/// that group.
pub proof fn lemma_placed<T>(groups: Seq<Seq<T>>, group: Seq<T>, largest_first: bool)
    requires
        ordered_by_size(groups, largest_first),
    ensures
        ordered_by_size(placed(groups, group, largest_first), largest_first),
        placed(groups, group, largest_first).len() == groups.len() + 1,
        placed(groups, group, largest_first).to_multiset() == groups.to_multiset().insert(group),
{
    lemma_slot_for(groups, group.len(), largest_first);
    let p = slot_for(groups, group.len(), largest_first);
    let out = placed(groups, group, largest_first);
    assert forall|i: int, j: int| 0 <= i <= j < out.len() implies stays_ahead(
        #[trigger] out[i].len(),
        #[trigger] out[j].len(),
        largest_first,
    ) by {
        if i < p && j > p {
            assert(out[i] == groups[i]);
            assert(out[j] == groups[j - 1]);
        } else if i == p && j > p {
            assert(out[j] == groups[j - 1]);
            assert(!stays_ahead(groups[p].len(), group.len(), largest_first));
            assert(stays_ahead(groups[p].len(), groups[j - 1].len(), largest_first));
        } else if i > p {
            assert(out[i] == groups[i - 1]);
            assert(out[j] == groups[j - 1]);
        } else if j < p {
            assert(out[i] == groups[i]);
            assert(out[j] == groups[j]);
        } else if i < p && j == p {
            assert(out[i] == groups[i]);
        }
    }
    lemma_insert_to_multiset(groups, p, group);
}

/// Inserting a value anywhere adds it once to what a sequence holds.
pub proof fn lemma_insert_to_multiset<A>(s: Seq<A>, at: int, value: A)
    requires
        0 <= at <= s.len(),
    ensures
        s.insert(at, value).to_multiset() == s.to_multiset().insert(value),
{
    broadcast use vstd::seq_lib::group_to_multiset_ensures;

    let t = s.insert(at, value);
    assert(t.remove(at) =~= s);
    assert(t.remove(at).to_multiset() =~= t.to_multiset().remove(t[at]));
    assert(t.to_multiset().count(value) > 0) by {
        assert(t[at] == value);
        assert(t.contains(value));
    }
    assert(t.to_multiset() =~= s.to_multiset().insert(value));
}

/// The stable order is ordered, and holds the same groups as before.
pub proof fn lemma_sorted_by_size<T>(groups: Seq<Seq<T>>, largest_first: bool)
    ensures
        ordered_by_size(sorted_by_size(groups, largest_first), largest_first),
        sorted_by_size(groups, largest_first).len() == groups.len(),
        sorted_by_size(groups, largest_first).to_multiset() == groups.to_multiset(),
    decreases groups.len(),
{
    broadcast use vstd::seq_lib::group_to_multiset_ensures;

    if groups.len() > 0 {
        let front = groups.drop_last();
        lemma_sorted_by_size(front, largest_first);
        lemma_placed(sorted_by_size(front, largest_first), groups.last(), largest_first);
        assert(front.push(groups.last()) =~= groups);
    }
}

/// Finds the slot at which a group of `size` files enters `groups`.
pub(crate) fn find_slot<T>(groups: &Vec<Vec<T>>, size: usize, largest_first: bool) -> (at: usize)
    requires
        ordered_by_size(groups_of(*groups), largest_first),
    ensures
        at as int == slot_for(groups_of(*groups), size as nat, largest_first),
        at <= groups.len(),
{
    let ghost model = groups_of(*groups);
    let mut at: usize = 0;
    while at < groups.len() && keeps_place(groups[at].len(), size, largest_first)
        invariant
            at <= groups.len(),
            model == groups_of(*groups),
            model.len() == groups.len(),
            forall|j: int| 0 <= j < groups.len() ==> #[trigger] model[j] == groups@[j]@,
            forall|j: int| 0 <= j < at ==> stays_ahead(#[trigger] model[j].len(), size as nat, largest_first),
        decreases groups.len() - at,
    {
        at = at + 1;
    }
    proof {
        lemma_slot_unique(model, size as nat, largest_first, at as int);
    }
    at
}

/// Decides `stays_ahead` on machine integers.
fn keeps_place(held: usize, incoming: usize, largest_first: bool) -> (r: bool)
    ensures
        r == stays_ahead(held as nat, incoming as nat, largest_first),
{
    if largest_first {
        held >= incoming
    } else {
        held <= incoming
    }
}

} // verus!
