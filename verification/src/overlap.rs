//! The overlap of two ranked lists, depth by depth.
//!
//! A ranked list is a sequence of items without repetition. At depth `d` a
//! list has revealed its first `d` items (all of them, once `d` passes its
//! length). The overlap at depth `d` is the number of items that both lists
//! have revealed by then. Everything here is ghost code: the definitions
//! that the executable tracker is held to, and what follows from them.

use vstd::prelude::*;
use vstd::seq_lib::*;
use vstd::set_lib::*;

verus! {

/// The first `depth` items of `list`; the whole list where it has fewer.
pub open spec fn prefix<T>(list: Seq<T>, depth: nat) -> Seq<T> {
    if depth <= list.len() {
        list.take(depth as int)
    } else {
        list
    }
}

/// The items that `list` ranks within its first `depth` places.
pub open spec fn revealed<T>(list: Seq<T>, depth: nat) -> Set<T> {
    prefix(list, depth).to_set()
}

/// The items that both lists rank within their first `depth` places.
pub open spec fn agreement<T>(first: Seq<T>, second: Seq<T>, depth: nat) -> Set<T> {
    revealed(first, depth).intersect(revealed(second, depth))
}

/// The overlap at `depth`: how many items both lists rank within their
/// first `depth` places.
pub open spec fn overlap_at<T>(first: Seq<T>, second: Seq<T>, depth: nat) -> nat {
    agreement(first, second, depth).len()
}

/// The length of the shorter of the two lists.
pub open spec fn shorter_len<T>(first: Seq<T>, second: Seq<T>) -> nat {
    if first.len() <= second.len() {
        first.len()
    } else {
        second.len()
    }
}

/// The length of the longer of the two lists.
pub open spec fn longer_len<T>(first: Seq<T>, second: Seq<T>) -> nat {
    if first.len() <= second.len() {
        second.len()
    } else {
        first.len()
    }
}

/// How many of the first `depth` ranks both lists still fill.
pub open spec fn paired_depth<T>(first: Seq<T>, second: Seq<T>, depth: nat) -> nat {
    if depth <= shorter_len(first, second) {
        depth
    } else {
        shorter_len(first, second)
    }
}

/// The items that were revealed while both lists still had items and that
/// the other list has not matched by `depth`.
pub open spec fn pending<T>(first: Seq<T>, second: Seq<T>, depth: nat) -> Set<T> {
    let paired = paired_depth(first, second, depth);
    (revealed(first, paired) + revealed(second, paired)).difference(
        agreement(first, second, depth),
    )
}

/// An item is revealed at `depth` exactly when it stands at one of the first
/// `depth` ranks.
pub proof fn lemma_revealed_contains<T>(list: Seq<T>, depth: nat, item: T)
    ensures
        revealed(list, depth).contains(item) <==> exists|i: int|
            0 <= i < depth && i < list.len() && list[i] == item,
{
    let p = prefix(list, depth);
    if revealed(list, depth).contains(item) {
        let i = choose|i: int| 0 <= i < p.len() && p[i] == item;
        assert(0 <= i < depth && i < list.len() && list[i] == item);
    }
    if exists|i: int| 0 <= i < depth && i < list.len() && list[i] == item {
        let i = choose|i: int| 0 <= i < depth && i < list.len() && list[i] == item;
        assert(p[i] == item);
        assert(p.contains(item));
    }
}

/// What a list has revealed is a finite set of at most `depth` items, and of
/// no more items than the list has.
pub proof fn lemma_revealed_len<T>(list: Seq<T>, depth: nat)
    ensures
        revealed(list, depth).finite(),
        revealed(list, depth).len() <= depth,
        revealed(list, depth).len() <= list.len(),
{
    seq_to_set_is_finite(prefix(list, depth));
    prefix(list, depth).lemma_cardinality_of_set();
}

/// A list without repetition has revealed exactly `depth` items at every
/// depth up to its length.
pub proof fn lemma_revealed_len_exact<T>(list: Seq<T>, depth: nat)
    requires
        list.no_duplicates(),
        depth <= list.len(),
    ensures
        revealed(list, depth).len() == depth,
{
    prefix(list, depth).unique_seq_to_set();
}

/// Going one rank deeper reveals the item at that rank and nothing else.
pub proof fn lemma_revealed_succ<T>(list: Seq<T>, depth: nat)
    requires
        depth < list.len(),
    ensures
        revealed(list, depth + 1) == revealed(list, depth).insert(list[depth as int]),
{
    list.lemma_take_succ_push(depth as int);
    list.take(depth as int).lemma_push_to_set_commute(list[depth as int]);
}

/// In a list without repetition the item at rank `depth` has not been
/// revealed before.
pub proof fn lemma_revealed_fresh<T>(list: Seq<T>, depth: nat)
    requires
        list.no_duplicates(),
        depth < list.len(),
    ensures
        !revealed(list, depth).contains(list[depth as int]),
{
    lemma_revealed_contains(list, depth, list[depth as int]);
}

/// Past its end a list reveals nothing more.
pub proof fn lemma_revealed_saturated<T>(list: Seq<T>, depth: nat)
    requires
        list.len() <= depth,
    ensures
        revealed(list, depth) == list.to_set(),
{
    if depth == list.len() {
        list.lemma_take_len();
    }
}

/// What is revealed stays revealed.
pub proof fn lemma_revealed_grows<T>(list: Seq<T>, shallow: nat, deep: nat)
    requires
        shallow <= deep,
    ensures
        revealed(list, shallow).subset_of(revealed(list, deep)),
{
    assert forall|item: T| revealed(list, shallow).contains(item) implies revealed(
        list,
        deep,
    ).contains(item) by {
        lemma_revealed_contains(list, shallow, item);
        lemma_revealed_contains(list, deep, item);
    }
}

/// Nothing overlaps before the first rank.
pub proof fn lemma_overlap_zero<T>(first: Seq<T>, second: Seq<T>)
    ensures
        overlap_at(first, second, 0) == 0,
{
    assert(agreement(first, second, 0) =~= Set::<T>::empty());
}

/// The overlap at a depth is at most that depth and at most the length of
/// either list.
pub proof fn lemma_overlap_bounded<T>(first: Seq<T>, second: Seq<T>, depth: nat)
    ensures
        agreement(first, second, depth).finite(),
        overlap_at(first, second, depth) <= paired_depth(first, second, depth),
{
    let a = revealed(first, depth);
    let b = revealed(second, depth);
    lemma_revealed_len(first, depth);
    lemma_revealed_len(second, depth);
    lemma_len_intersect(a, b);
    lemma_len_intersect(b, a);
    assert(b.intersect(a) =~= a.intersect(b));
}

/// The overlap never decreases with depth.
pub proof fn lemma_overlap_monotone<T>(first: Seq<T>, second: Seq<T>, shallow: nat, deep: nat)
    requires
        shallow <= deep,
    ensures
        overlap_at(first, second, shallow) <= overlap_at(first, second, deep),
{
    lemma_revealed_grows(first, shallow, deep);
    lemma_revealed_grows(second, shallow, deep);
    lemma_overlap_bounded(first, second, deep);
    lemma_len_subset(agreement(first, second, shallow), agreement(first, second, deep));
}

/// The overlap does not depend on which list is called the first.
pub proof fn lemma_overlap_symmetric<T>(first: Seq<T>, second: Seq<T>, depth: nat)
    ensures
        overlap_at(first, second, depth) == overlap_at(second, first, depth),
        pending(first, second, depth) == pending(second, first, depth),
{
    assert(agreement(first, second, depth) =~= agreement(second, first, depth));
    assert(pending(first, second, depth) =~= pending(second, first, depth));
}

/// A list without repetition that is read against a list which starts with
/// it and goes on with other items overlaps in full as far as it reaches: at
/// every depth the overlap is the depth, up to the length of the shorter
/// list, and no item waits for a match.
pub proof fn lemma_overlap_of_extension<T>(list: Seq<T>, tail: Seq<T>, depth: nat)
    requires
        (list + tail).no_duplicates(),
    ensures
        overlap_at(list, list + tail, depth) == paired_depth(list, list + tail, depth),
        pending(list, list + tail, depth) == Set::<T>::empty(),
{
    let longer = list + tail;
    let paired = paired_depth(list, longer, depth);
    assert(list.no_duplicates()) by {
        assert forall|i: int, j: int| 0 <= i < list.len() && 0 <= j < list.len() && i != j implies list[i]
            != list[j] by {
            assert(longer[i] == list[i] && longer[j] == list[j]);
        }
    }
    assert(prefix(longer, paired) =~= prefix(list, paired));
    assert(prefix(list, depth) =~= prefix(list, paired));
    lemma_revealed_grows(longer, paired, depth);
    assert(agreement(list, longer, depth) =~= revealed(list, paired));
    lemma_revealed_len_exact(list, paired);
    assert(pending(list, longer, depth) =~= Set::<T>::empty());
}

/// A list without repetition agrees with itself in full: at every depth
/// the overlap is the depth, up to the length of the list, and no item waits
/// for a match.
pub proof fn lemma_overlap_identical<T>(list: Seq<T>, depth: nat)
    requires
        list.no_duplicates(),
    ensures
        overlap_at(list, list, depth) == paired_depth(list, list, depth),
        pending(list, list, depth) == Set::<T>::empty(),
{
    assert(list + Seq::<T>::empty() =~= list);
    lemma_overlap_of_extension(list, Seq::<T>::empty(), depth);
}

/// The overlap at a depth depends on the first `depth` ranks alone: what
/// follows them in either list does not change it.
pub proof fn lemma_overlap_ignores_tails<T>(
    first: Seq<T>,
    second: Seq<T>,
    first_tail: Seq<T>,
    second_tail: Seq<T>,
    depth: nat,
)
    requires
        depth <= shorter_len(first, second),
    ensures
        overlap_at(first + first_tail, second + second_tail, depth) == overlap_at(
            first,
            second,
            depth,
        ),
{
    assert(prefix(first + first_tail, depth) =~= prefix(first, depth));
    assert(prefix(second + second_tail, depth) =~= prefix(second, depth));
}

/// Two lists of one length that go on with the same items gain one overlap
/// with each of them: `extra` ranks into the common tail the overlap is
/// `extra` more than it was at the end of the lists.
pub proof fn lemma_overlap_common_tail<T>(
    first: Seq<T>,
    second: Seq<T>,
    tail: Seq<T>,
    extra: nat,
)
    requires
        first.len() == second.len(),
        (first + tail).no_duplicates(),
        (second + tail).no_duplicates(),
        extra <= tail.len(),
    ensures
        overlap_at(first + tail, second + tail, first.len() + extra) == overlap_at(
            first,
            second,
            first.len(),
        ) + extra,
    decreases extra,
{
    let n = first.len();
    if extra == 0 {
        lemma_overlap_ignores_tails(first, second, tail, tail, n);
    } else {
        let depth = (n + extra - 1) as nat;
        let item = tail[extra - 1];
        lemma_overlap_common_tail(first, second, tail, (extra - 1) as nat);
        lemma_revealed_succ(first + tail, depth);
        lemma_revealed_succ(second + tail, depth);
        lemma_revealed_fresh(first + tail, depth);
        lemma_revealed_fresh(second + tail, depth);
        lemma_overlap_bounded(first + tail, second + tail, depth);
        assert((first + tail)[depth as int] == item);
        assert((second + tail)[depth as int] == item);
        assert(agreement(first + tail, second + tail, depth + 1) =~= agreement(
            first + tail,
            second + tail,
            depth,
        ).insert(item));
    }
}

} // verus!
