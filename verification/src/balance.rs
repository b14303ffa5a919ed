//! Balancing of file groups against the available parallelism.

use crate::contents::{files_in, no_empty_group};
use crate::contents::{lemma_files_in_insert, lemma_files_in_push, lemma_files_in_remove};
use crate::contents::lemma_halves_hold_all;
use crate::ordering::{find_slot, groups_of, ordered_by_size, placed, slot_for, sorted_by_size};
use crate::ordering::{lemma_placed, lemma_slot_for, lemma_sorted_by_size};
use vstd::prelude::*;
use vstd::seq_lib::lemma_multiset_commutative;

verus! {

/// A group is only split when it holds more files than this.
pub const SPLIT_THRESHOLD: usize = 10;

/// The least number of groups the balancer aims for.
pub const MIN_TARGET_GROUPS: usize = 4;

/// The number of groups aimed for on a host with `cpus` logical cores: twice
/// the core count, at least `MIN_TARGET_GROUPS`, and capped at the largest
/// count the machine can represent.
pub open spec fn target_for_cpus(cpus: nat) -> nat {
    if 2 * cpus < MIN_TARGET_GROUPS as nat {
        MIN_TARGET_GROUPS as nat
    } else if 2 * cpus > usize::MAX as nat {
        usize::MAX as nat
    } else {
        2 * cpus
    }
}

/// Computes the target group count for a host with `cpus` logical cores.
pub fn target_group_count(cpus: usize) -> (target: usize)
    ensures
        target as nat == target_for_cpus(cpus as nat),
        target >= MIN_TARGET_GROUPS,
{
    if cpus < 2 {
        MIN_TARGET_GROUPS
    } else if cpus > usize::MAX / 2 {
        usize::MAX
    } else {
        cpus * 2
    }
}

/// Brings `groups` into stable order of size.
pub fn sort_by_size<T>(groups: &mut Vec<Vec<T>>, largest_first: bool)
    ensures
        groups_of(*final(groups)) == sorted_by_size(groups_of(*old(groups)), largest_first),
{
    let ghost initial = groups_of(*groups);
    let mut sorted: Vec<Vec<T>> = Vec::new();
    let ghost mut taken: int = 0;
    while groups.len() > 0
        invariant
            0 <= taken <= initial.len(),
            taken + groups.len() == initial.len(),
            groups_of(*groups) == initial.skip(taken),
            groups_of(sorted) == sorted_by_size(initial.take(taken), largest_first),
        decreases groups.len(),
    {
        let ghost before = groups_of(*groups);
        let group = groups.remove(0);
        proof {
            lemma_sorted_by_size(initial.take(taken), largest_first);
            assert(before[0] == initial[taken]);
            assert forall|j: int| 0 <= j < groups.len() implies #[trigger] groups_of(*groups)[j]
                == initial[taken + 1 + j] by {
                assert(groups_of(*groups)[j] == before[j + 1]);
            }
        }
        let at = find_slot(&sorted, group.len(), largest_first);
        sorted.insert(at, group);
        proof {
            assert(initial.take(taken + 1).drop_last() =~= initial.take(taken));
            taken = taken + 1;
        }
    }
    assert(initial.take(taken) =~= initial);
    *groups = sorted;
}

/// The groups after the group at `at` has been cut in two, if it holds more
/// files than the threshold: its first half stays in place, its second half
/// goes to the end.
pub open spec fn split_step<T>(groups: Seq<Seq<T>>, at: int) -> Seq<Seq<T>> {
    if groups[at].len() > SPLIT_THRESHOLD {
        groups.update(at, first_half(groups[at])).push(second_half(groups[at]))
    } else {
        groups
    }
}

/// The files of a group in front of its middle.
pub open spec fn first_half<T>(group: Seq<T>) -> Seq<T> {
    group.take((group.len() / 2) as int)
}

/// The files of a group from its middle on.
pub open spec fn second_half<T>(group: Seq<T>) -> Seq<T> {
    group.skip((group.len() / 2) as int)
}

/// One pass over the first `count` groups, each cut in two where it is large
/// enough.
pub open spec fn split_pass<T>(groups: Seq<Seq<T>>, count: nat) -> Seq<Seq<T>>
    decreases count,
{
    if count == 0 {
        groups
    } else {
        split_step(split_pass(groups, (count - 1) as nat), count - 1)
    }
}

/// The groups after the two in front have been joined and the joined group
/// has been put at its slot among the others.
pub open spec fn merge_step<T>(groups: Seq<Seq<T>>) -> Seq<Seq<T>> {
    placed(groups.skip(2), groups[0] + groups[1], false)
}

/// `rounds` merges of the two groups in front.
pub open spec fn merge_rounds<T>(groups: Seq<Seq<T>>, rounds: nat) -> Seq<Seq<T>>
    decreases rounds,
{
    if rounds == 0 {
        groups
    } else {
        merge_rounds(merge_step(groups), (rounds - 1) as nat)
    }
}

/// The number of groups that merging stops at: the target, but never none.
pub open spec fn merge_floor(target: nat) -> nat {
    if target == 0 {
        1
    } else {
        target
    }
}

/// How many of the groups a split pass looks at: as many as are missing, but
/// no more than there are.
pub open spec fn split_reach(len: nat, target: nat) -> nat {
    if target - len < len {
        (target - len) as nat
    } else {
        len
    }
}

/// The groups after balancing against `target`.
///
/// With fewer groups than the target, the groups are ordered largest first
/// and one pass cuts the largest in two. With more than twice the target, they
/// are ordered smallest first and the two smallest are joined until the target
/// is met. Otherwise nothing changes.
pub open spec fn balanced<T>(groups: Seq<Seq<T>>, target: nat) -> Seq<Seq<T>> {
    if groups.len() < target {
        split_pass(sorted_by_size(groups, true), split_reach(groups.len(), target))
    } else if groups.len() > 2 * target {
        merge_rounds(
            sorted_by_size(groups, false),
            (groups.len() - merge_floor(target)) as nat,
        )
    } else {
        groups
    }
}

/// Cuts each of the first `count` groups in two where it holds more files than
/// the threshold.
fn split_largest<T>(groups: &mut Vec<Vec<T>>, count: usize)
    requires
        count <= old(groups).len(),
    ensures
        groups_of(*final(groups)) == split_pass(groups_of(*old(groups)), count as nat),
{
    let ghost initial = groups_of(*groups);
    let mut at: usize = 0;
    while at < count
        invariant
            at <= count,
            count <= initial.len(),
            initial.len() <= groups.len(),
            groups_of(*groups) == split_pass(initial, at as nat),
        decreases count - at,
    {
        if groups[at].len() > SPLIT_THRESHOLD {
            let mut group = groups.remove(at);
            let half = group.len() / 2;
            let rest = group.split_off(half);
            groups.insert(at, group);
            groups.push(rest);
        }
        at = at + 1;
    }
}

/// Joins the two groups in front until no more than `target` groups are left,
/// or only one.
fn merge_smallest<T>(groups: &mut Vec<Vec<T>>, target: usize)
    requires
        ordered_by_size(groups_of(*old(groups)), false),
    ensures
        groups_of(*final(groups)) == merge_rounds(
            groups_of(*old(groups)),
            if old(groups).len() > merge_floor(target as nat) {
                (old(groups).len() - merge_floor(target as nat)) as nat
            } else {
                0
            },
        ),
{
    let ghost initial = groups_of(*groups);
    let ghost mut rounds: nat = 0;
    while groups.len() > target && groups.len() >= 2
        invariant
            rounds + groups.len() == initial.len(),
            rounds == 0 || groups.len() >= merge_floor(target as nat),
            ordered_by_size(groups_of(*groups), false),
            merge_rounds(groups_of(*groups), 0) == groups_of(*groups),
            forall|more: nat| #[trigger]
                merge_rounds(initial, rounds + more) == merge_rounds(groups_of(*groups), more),
        decreases groups.len(),
    {
        let ghost before = groups_of(*groups);
        let mut joined = groups.remove(0);
        let mut second = groups.remove(0);
        joined.append(&mut second);
        proof {
            assert(groups_of(*groups) =~= before.skip(2));
            lemma_tail_ordered(before, 2, false);
        }
        let at = find_slot(groups, joined.len(), false);
        groups.insert(at, joined);
        proof {
            assert(groups_of(*groups) =~= merge_step(before));
            lemma_placed(before.skip(2), before[0] + before[1], false);
            assert forall|more: nat| #[trigger]
                merge_rounds(initial, rounds + 1 + more) == merge_rounds(merge_step(before), more) by {
                assert(merge_rounds(initial, rounds + (more + 1) as nat) == merge_rounds(
                    before,
                    (more + 1) as nat,
                ));
            }
            rounds = rounds + 1;
        }
    }
    proof {
        assert(merge_rounds(initial, rounds + 0) == merge_rounds(groups_of(*groups), 0));
    }
}

/// What is left of an ordered sequence behind its first `from` groups is
/// ordered.
pub proof fn lemma_tail_ordered<T>(groups: Seq<Seq<T>>, from: int, largest_first: bool)
    requires
        ordered_by_size(groups, largest_first),
        0 <= from <= groups.len(),
    ensures
        ordered_by_size(groups.skip(from), largest_first),
{
    let tail = groups.skip(from);
    assert forall|i: int, j: int| 0 <= i <= j < tail.len() implies crate::ordering::stays_ahead(
        #[trigger] tail[i].len(),
        #[trigger] tail[j].len(),
        largest_first,
    ) by {
        assert(tail[i] == groups[i + from]);
        assert(tail[j] == groups[j + from]);
    }
}

/// Balances `groups` against `target`.
pub fn balance_file_groups<T>(groups: &mut Vec<Vec<T>>, target: usize)
    ensures
        groups_of(*final(groups)) == balanced(groups_of(*old(groups)), target as nat),
        files_in(groups_of(*final(groups))) == files_in(groups_of(*old(groups))),
        no_empty_group(groups_of(*old(groups))) ==> no_empty_group(groups_of(*final(groups))),
        old(groups).len() < target ==> old(groups).len() <= final(groups).len() <= target,
        old(groups).len() > 2 * target ==> final(groups).len() == merge_floor(target as nat),
{
    let ghost initial = groups_of(*groups);
    proof {
        lemma_balanced_keeps_files(initial, target as nat);
        lemma_balanced_len(initial, target as nat);
    }
    let len = groups.len();
    if len < target {
        sort_by_size(groups, true);
        proof {
            lemma_sorted_by_size(initial, true);
        }
        let missing = target - len;
        let reach = if missing < len {
            missing
        } else {
            len
        };
        split_largest(groups, reach);
    } else if target <= usize::MAX / 2 && len > target * 2 {
        sort_by_size(groups, false);
        proof {
            lemma_sorted_by_size(initial, false);
        }
        merge_smallest(groups, target);
    }
}

/// Ordering groups by size neither adds nor loses a file.
pub proof fn lemma_sorted_keeps_files<T>(groups: Seq<Seq<T>>, largest_first: bool)
    ensures
        files_in(sorted_by_size(groups, largest_first)) == files_in(groups),
        no_empty_group(groups) ==> no_empty_group(sorted_by_size(groups, largest_first)),
    decreases groups.len(),
{
    if groups.len() > 0 {
        let front = groups.drop_last();
        let held = sorted_by_size(front, largest_first);
        lemma_sorted_keeps_files(front, largest_first);
        lemma_slot_for(held, groups.last().len(), largest_first);
        let at = slot_for(held, groups.last().len(), largest_first);
        lemma_files_in_insert(held, at, groups.last());
        lemma_files_in_push(front, groups.last());
        assert(front.push(groups.last()) =~= groups);
        if no_empty_group(groups) {
            assert forall|i: int| 0 <= i < front.len() implies (#[trigger] front[i]).len() > 0 by {
                assert(front[i] == groups[i]);
            }
            let out = held.insert(at, groups.last());
            assert forall|i: int| 0 <= i < out.len() implies (#[trigger] out[i]).len() > 0 by {
                if i < at {
                    assert(out[i] == held[i]);
                } else if i > at {
                    assert(out[i] == held[i - 1]);
                }
            }
        }
    }
}

/// Cutting a group in two neither adds nor loses a file.
pub proof fn lemma_split_step_keeps_files<T>(groups: Seq<Seq<T>>, at: int)
    requires
        0 <= at < groups.len(),
    ensures
        files_in(split_step(groups, at)) == files_in(groups),
{
    let whole = groups[at];
    if whole.len() > SPLIT_THRESHOLD {
        let half = (whole.len() / 2) as int;
        let kept = groups.update(at, whole.take(half));
        assert(kept =~= groups.remove(at).insert(at, whole.take(half)));
        lemma_files_in_remove(groups, at);
        lemma_files_in_insert(groups.remove(at), at, whole.take(half));
        lemma_files_in_push(kept, whole.skip(half));
        lemma_halves_hold_all(whole, half);
        assert(files_in(split_step(groups, at)) =~= files_in(groups));
    }
}

/// Joining the two groups in front neither adds nor loses a file.
pub proof fn lemma_merge_step_keeps_files<T>(groups: Seq<Seq<T>>)
    requires
        groups.len() >= 2,
    ensures
        files_in(merge_step(groups)) == files_in(groups),
        merge_step(groups).len() == groups.len() - 1,
{
    let rest = groups.skip(2);
    let joined = groups[0] + groups[1];
    lemma_slot_for(rest, joined.len(), false);
    lemma_files_in_insert(rest, slot_for(rest, joined.len(), false), joined);
    lemma_files_in_remove(groups, 0);
    lemma_files_in_remove(groups.remove(0), 0);
    assert(groups.remove(0).remove(0) =~= rest);
    assert(groups.remove(0)[0] == groups[1]);
    lemma_multiset_commutative(groups[0], groups[1]);
    assert(files_in(merge_step(groups)) =~= files_in(groups));
}

/// What `rounds` merges leave: the same files in `rounds` fewer groups, still
/// ordered smallest first, and no group empty where none was.
pub proof fn lemma_merge_rounds<T>(groups: Seq<Seq<T>>, rounds: nat)
    requires
        ordered_by_size(groups, false),
        rounds < groups.len(),
    ensures
        files_in(merge_rounds(groups, rounds)) == files_in(groups),
        merge_rounds(groups, rounds).len() == groups.len() - rounds,
        ordered_by_size(merge_rounds(groups, rounds), false),
        no_empty_group(groups) ==> no_empty_group(merge_rounds(groups, rounds)),
    decreases rounds,
{
    if rounds > 0 {
        let rest = groups.skip(2);
        let joined = groups[0] + groups[1];
        lemma_merge_step_keeps_files(groups);
        lemma_tail_ordered(groups, 2, false);
        lemma_placed(rest, joined, false);
        lemma_slot_for(rest, joined.len(), false);
        let next = merge_step(groups);
        if no_empty_group(groups) {
            let at = slot_for(rest, joined.len(), false);
            assert(groups[0].len() > 0);
            assert forall|i: int| 0 <= i < next.len() implies (#[trigger] next[i]).len() > 0 by {
                if i < at {
                    assert(next[i] == groups[i + 2]);
                } else if i > at {
                    assert(next[i] == groups[i + 1]);
                }
            }
        }
        lemma_merge_rounds(next, (rounds - 1) as nat);
    }
}

/// How many groups of an ordering, largest first, hold more files than the
/// threshold: they stand in front of all others.
pub open spec fn oversized_count<T>(ordered: Seq<Seq<T>>) -> int {
    slot_for(ordered, (SPLIT_THRESHOLD + 1) as nat, true)
}

/// How many groups a pass over the first `count` groups cuts in two.
pub open spec fn cuts_made<T>(ordered: Seq<Seq<T>>, count: nat) -> int {
    if count < oversized_count(ordered) {
        count as int
    } else {
        oversized_count(ordered)
    }
}

/// What a split pass over groups ordered largest first leaves: each of the
/// groups it cut holds its first half in place, the second halves follow at the
/// end in the same order, and every other group is untouched.
pub proof fn lemma_split_pass<T>(ordered: Seq<Seq<T>>, count: nat)
    requires
        ordered_by_size(ordered, true),
        count <= ordered.len(),
    ensures
        0 <= cuts_made(ordered, count) <= count,
        split_pass(ordered, count).len() == ordered.len() + cuts_made(ordered, count),
        forall|i: int|
            0 <= i < cuts_made(ordered, count) ==> (#[trigger] ordered[i]).len() > SPLIT_THRESHOLD,
        forall|i: int|
            0 <= i < cuts_made(ordered, count) ==> #[trigger] split_pass(ordered, count)[i]
                == first_half(ordered[i]),
        forall|i: int|
            0 <= i < cuts_made(ordered, count) ==> #[trigger] split_pass(ordered, count)[ordered.len()
                + i] == second_half(ordered[i]),
        forall|i: int|
            cuts_made(ordered, count) <= i < ordered.len() ==> #[trigger] split_pass(
                ordered,
                count,
            )[i] == ordered[i],
        forall|i: int|
            oversized_count(ordered) <= i < ordered.len() ==> (#[trigger] ordered[i]).len()
                <= SPLIT_THRESHOLD,
        files_in(split_pass(ordered, count)) == files_in(ordered),
    decreases count,
{
    let limit = (SPLIT_THRESHOLD + 1) as nat;
    lemma_slot_for(ordered, limit, true);
    let over = oversized_count(ordered);
    assert forall|i: int| over <= i < ordered.len() implies (#[trigger] ordered[i]).len()
        <= SPLIT_THRESHOLD by {
        assert(crate::ordering::stays_ahead(ordered[over].len(), ordered[i].len(), true));
    }
    if count > 0 {
        let at = count - 1;
        let before = split_pass(ordered, at as nat);
        lemma_split_pass(ordered, at as nat);
        lemma_split_step_keeps_files(before, at);
        assert(before[at] == ordered[at]);
        if at < over {
            assert(crate::ordering::stays_ahead(ordered[at].len(), limit, true));
        }
        let out = split_pass(ordered, count);
        let cuts = cuts_made(ordered, count);
        assert(out == split_step(before, at));
        assert forall|i: int| 0 <= i < cuts implies (#[trigger] ordered[i]).len()
            > SPLIT_THRESHOLD by {
            assert(crate::ordering::stays_ahead(ordered[i].len(), limit, true));
        }
        assert forall|i: int| 0 <= i < cuts implies #[trigger] out[i] == first_half(ordered[i]) by {
            assert(ordered[i].len() > SPLIT_THRESHOLD);
            if i < at {
                assert(before[i] == first_half(ordered[i]));
            }
        }
        assert forall|i: int| 0 <= i < cuts implies #[trigger] out[ordered.len() + i] == second_half(
            ordered[i],
        ) by {
            assert(ordered[i].len() > SPLIT_THRESHOLD);
            if i < at {
                assert(before[ordered.len() + i] == second_half(ordered[i]));
            }
        }
        assert forall|i: int| cuts <= i < ordered.len() implies #[trigger] out[i] == ordered[i] by {
            assert(before[i] == ordered[i]);
        }
    }
}

/// Balancing neither adds nor loses a file, and leaves no group empty where
/// none was.
pub proof fn lemma_balanced_keeps_files<T>(groups: Seq<Seq<T>>, target: nat)
    ensures
        files_in(balanced(groups, target)) == files_in(groups),
        no_empty_group(groups) ==> no_empty_group(balanced(groups, target)),
{
    if groups.len() < target {
        let ordered = sorted_by_size(groups, true);
        let reach = split_reach(groups.len(), target);
        lemma_sorted_by_size(groups, true);
        lemma_sorted_keeps_files(groups, true);
        lemma_split_pass(ordered, reach);
        if no_empty_group(groups) {
            let out = split_pass(ordered, reach);
            let cuts = cuts_made(ordered, reach);
            assert forall|i: int| 0 <= i < out.len() implies (#[trigger] out[i]).len() > 0 by {
                if i < cuts {
                    assert(out[i] == first_half(ordered[i]));
                    assert(ordered[i].len() > SPLIT_THRESHOLD);
                } else if i < ordered.len() {
                    assert(out[i] == ordered[i]);
                } else {
                    let j = i - ordered.len();
                    assert(out[ordered.len() + j] == second_half(ordered[j]));
                    assert(ordered[j].len() > SPLIT_THRESHOLD);
                }
            }
        }
    } else if groups.len() > 2 * target {
        lemma_sorted_by_size(groups, false);
        lemma_sorted_keeps_files(groups, false);
        lemma_merge_rounds(
            sorted_by_size(groups, false),
            (groups.len() - merge_floor(target)) as nat,
        );
    }
}

/// How far balancing moves the number of groups towards the target.
///
/// With too few groups the count grows by the number of cuts, and never
/// past the target: it stops short only when every group above the threshold
/// has been cut. With far too many it ends at the target. In between it stays.
pub proof fn lemma_balanced_len<T>(groups: Seq<Seq<T>>, target: nat)
    ensures
        groups.len() < target ==> {
            &&& groups.len() <= balanced(groups, target).len() <= target
            &&& balanced(groups, target).len() == groups.len() + cuts_made(
                sorted_by_size(groups, true),
                split_reach(groups.len(), target),
            )
            &&& (balanced(groups, target).len() == target || balanced(groups, target).len()
                == groups.len() + oversized_count(sorted_by_size(groups, true)))
        },
        groups.len() > 2 * target ==> balanced(groups, target).len() == merge_floor(target),
        target <= groups.len() <= 2 * target ==> balanced(groups, target) == groups,
{
    if groups.len() < target {
        lemma_sorted_by_size(groups, true);
        lemma_split_pass(sorted_by_size(groups, true), split_reach(groups.len(), target));
        lemma_slot_for(sorted_by_size(groups, true), (SPLIT_THRESHOLD + 1) as nat, true);
    } else if groups.len() > 2 * target {
        lemma_sorted_by_size(groups, false);
        lemma_merge_rounds(
            sorted_by_size(groups, false),
            (groups.len() - merge_floor(target)) as nat,
        );
    }
}

} // verus!
