//! Why the tracker is right: after `depth` steps over two lists without
//! repetition its history holds the overlap at every depth so far, and its
//! set holds exactly the items that still wait for their match.

use vstd::prelude::*;
use crate::model::{lemma_step_wf, settle, OverlapState};
use crate::overlap::{
    agreement, lemma_overlap_bounded, lemma_overlap_of_extension, lemma_revealed_fresh,
    lemma_revealed_grows, lemma_revealed_saturated, lemma_revealed_succ, longer_len, overlap_at,
    paired_depth, pending, revealed,
};
use crate::persistence::is_valid_persistence;

verus! {

/// What the tracker is handed at the step from `depth` to `depth + 1`: the
/// items of both lists at that rank while both have one, then the item of
/// the longer list alone.
pub open spec fn items_at<T>(first: Seq<T>, second: Seq<T>, depth: nat) -> (T, Option<T>)
    recommends
        depth < longer_len(first, second),
{
    if depth < first.len() && depth < second.len() {
        (first[depth as int], Some(second[depth as int]))
    } else if depth < first.len() {
        (first[depth as int], None)
    } else {
        (second[depth as int], None)
    }
}

/// The state of a tracker that has read the two lists down to `depth`.
pub open spec fn state_at<T>(first: Seq<T>, second: Seq<T>, persistence: u64, depth: nat)
    -> OverlapState<T> {
    OverlapState {
        seen: pending(first, second, depth),
        depth_short: paired_depth(first, second, depth),
        history: Seq::new(depth + 1, |d: int| overlap_at(first, second, d as nat)),
        persistence,
    }
}

/// Before the first step nothing is revealed: a fresh tracker has read the
/// lists down to depth zero.
pub proof fn lemma_state_at_start<T>(first: Seq<T>, second: Seq<T>, persistence: u64)
    ensures
        state_at(first, second, persistence, 0) == OverlapState::<T>::start(persistence),
{
    assert(agreement(first, second, 0) =~= Set::<T>::empty());
}

/// One step of the tracker, fed as `items_at` says, leads from the state at
/// `depth` to the state at `depth + 1`, for lists without repetition.
///
/// The item of a list at rank `depth` is new to that list. So it is pending
/// exactly when the other list has revealed it, and it is then the one item
/// that the agreement gains.
pub proof fn lemma_state_at_step<T>(first: Seq<T>, second: Seq<T>, persistence: u64, depth: nat)
    requires
        first.no_duplicates(),
        second.no_duplicates(),
        depth < longer_len(first, second),
    ensures
        state_at(first, second, persistence, depth).step(
            items_at(first, second, depth).0,
            items_at(first, second, depth).1,
        ) == state_at(first, second, persistence, depth + 1),
{
    let before = state_at(first, second, persistence, depth);
    let a0 = revealed(first, depth);
    let b0 = revealed(second, depth);
    let a1 = revealed(first, depth + 1);
    let b1 = revealed(second, depth + 1);
    let paired = paired_depth(first, second, depth);
    if depth < first.len() && depth < second.len() {
        // Both lists reveal an item.
        let a = first[depth as int];
        let b = second[depth as int];
        lemma_revealed_succ(first, depth);
        lemma_revealed_succ(second, depth);
        lemma_revealed_fresh(first, depth);
        lemma_revealed_fresh(second, depth);
        if a == b {
            assert(a1.intersect(b1) =~= a0.intersect(b0).insert(a));
        } else {
            let seen1 = settle(before.seen, a).0;
            let mid = if b0.contains(a) {
                a0.intersect(b0).insert(a)
            } else {
                a0.intersect(b0)
            };
            assert(before.seen.contains(a) <==> b0.contains(a));
            assert(seen1.contains(b) <==> a0.contains(b));
            assert(a1.intersect(b1) =~= if a0.contains(b) {
                mid.insert(b)
            } else {
                mid
            });
        }
    } else if depth < first.len() {
        // The second list has ended; the first reveals an item.
        let a = first[depth as int];
        lemma_revealed_succ(first, depth);
        lemma_revealed_fresh(first, depth);
        lemma_revealed_saturated(second, depth);
        lemma_revealed_saturated(second, depth + 1);
        lemma_revealed_saturated(second, paired);
        lemma_revealed_grows(first, paired, depth);
        assert(before.seen.contains(a) <==> b0.contains(a));
        assert(a1.intersect(b1) =~= if b0.contains(a) {
            a0.intersect(b0).insert(a)
        } else {
            a0.intersect(b0)
        });
    } else {
        // The first list has ended; the second reveals an item.
        let b = second[depth as int];
        lemma_revealed_succ(second, depth);
        lemma_revealed_fresh(second, depth);
        lemma_revealed_saturated(first, depth);
        lemma_revealed_saturated(first, depth + 1);
        lemma_revealed_saturated(first, paired);
        lemma_revealed_grows(second, paired, depth);
        assert(before.seen.contains(b) <==> a0.contains(b));
        assert(a1.intersect(b1) =~= if a0.contains(b) {
            a0.intersect(b0).insert(b)
        } else {
            a0.intersect(b0)
        });
    }
}

/// Reading lists without repetition keeps the tracker well-formed, and the
/// overlap that it ends with is at most the length of the shorter list, so
/// that the rank of full agreement is not before the end of the longer one.
pub proof fn lemma_state_at_wf<T>(first: Seq<T>, second: Seq<T>, persistence: u64, depth: nat)
    requires
        is_valid_persistence(persistence),
        first.no_duplicates(),
        second.no_duplicates(),
        depth <= longer_len(first, second),
    ensures
        state_at(first, second, persistence, depth).wf(),
        state_at(first, second, persistence, depth).depth_long() == depth,
        state_at(first, second, persistence, depth).cur_overlap() <= state_at(
            first,
            second,
            persistence,
            depth,
        ).depth_short,
        state_at(first, second, persistence, depth).full_agreement_depth() >= depth,
    decreases depth,
{
    lemma_overlap_bounded(first, second, depth);
    if depth == 0 {
        lemma_state_at_start(first, second, persistence);
    } else {
        let before = (depth - 1) as nat;
        let (item, other) = items_at(first, second, before);
        lemma_state_at_wf(first, second, persistence, before);
        lemma_state_at_step(first, second, persistence, before);
        lemma_step_wf(state_at(first, second, persistence, before), item, other);
    }
}

/// A list without repetition that is read against a list which starts with
/// it and goes on with other items overlaps in full as far as it reaches: the
/// history counts up to the length of the shorter list and stays there,
/// nothing is left pending, and the rank of full agreement is the length of
/// the longer list.
pub proof fn lemma_state_at_extension<T>(list: Seq<T>, tail: Seq<T>, persistence: u64)
    requires
        (list + tail).no_duplicates(),
    ensures
        ({
            let end = state_at(list, list + tail, persistence, (list + tail).len());
            &&& end.seen == Set::<T>::empty()
            &&& end.depth_short == list.len()
            &&& end.depth_long() == list.len() + tail.len()
            &&& end.cur_overlap() == list.len()
            &&& end.full_agreement_depth() == list.len() + tail.len()
            &&& forall|d: int|
                0 <= d <= list.len() + tail.len() ==> end.history[d] == if d <= list.len() {
                    d
                } else {
                    list.len() as int
                }
        }),
{
    let longer = list + tail;
    let end = state_at(list, longer, persistence, longer.len());
    lemma_overlap_of_extension(list, tail, longer.len());
    assert forall|d: int| 0 <= d <= longer.len() implies end.history[d] == if d <= list.len() {
        d
    } else {
        list.len() as int
    } by {
        lemma_overlap_of_extension(list, tail, d as nat);
    }
}

/// A list without repetition that is read against itself overlaps in full
/// at every depth: the history counts `0, 1, 2, ...`, nothing is left
/// pending, and the two depths, the overlap and the rank of full agreement
/// are all the length of the list.
pub proof fn lemma_state_at_identical<T>(list: Seq<T>, persistence: u64)
    requires
        list.no_duplicates(),
    ensures
        ({
            let end = state_at(list, list, persistence, list.len());
            &&& end.seen == Set::<T>::empty()
            &&& end.depth_short == list.len()
            &&& end.depth_long() == list.len()
            &&& end.cur_overlap() == list.len()
            &&& end.full_agreement_depth() == list.len()
            &&& forall|d: int| 0 <= d <= list.len() ==> end.history[d] == d
        }),
{
    assert(list + Seq::<T>::empty() =~= list);
    lemma_state_at_extension(list, Seq::<T>::empty(), persistence);
}

} // verus!
