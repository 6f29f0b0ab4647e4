//! The overlap tracker as a mathematical state machine.
//!
//! The tracker reads two ranked lists rank by rank. While both lists have an
//! item at the rank it is handed both; afterwards it is handed the items of
//! the longer list alone. It keeps one set of the items that it has seen
//! once, and counts an overlap whenever an item turns up that the set
//! already holds.

use vstd::prelude::*;
use crate::persistence::is_valid_persistence;

verus! {

/// What an overlap tracker knows after some number of steps.
#[verifier::ext_equal]
#[verifier::reject_recursive_types(T)]
pub struct OverlapState<T> {
    /// The items seen in one list and not yet in the other.
    pub seen: Set<T>,
    /// The number of steps at which both lists had an item.
    pub depth_short: nat,
    /// The overlap after each step; `history[0]` is the overlap before the
    /// first one.
    pub history: Seq<nat>,
    /// The persistence, as the bit pattern of a binary64 number.
    pub persistence: u64,
}

/// Looks `item` up in the set of pending items: an item that is there is
/// matched and leaves the set, an item that is not there enters it. Returns
/// the set afterwards and the overlap gained, `0` or `1`.
pub open spec fn settle<T>(seen: Set<T>, item: T) -> (Set<T>, nat) {
    if seen.contains(item) {
        (seen.remove(item), 1)
    } else {
        (seen.insert(item), 0)
    }
}

impl<T> OverlapState<T> {
    /// The number of steps taken.
    pub open spec fn depth_long(self) -> nat {
        (self.history.len() - 1) as nat
    }

    /// The overlap after the last step.
    pub open spec fn cur_overlap(self) -> nat {
        self.history.last()
    }

    /// The rank at which the two lists could first agree in full: every one
    /// of the `depth_short` items of the shorter list that is still unmatched
    /// would have to turn up in the longer list past its present end.
    pub open spec fn full_agreement_depth(self) -> nat {
        (self.depth_short + self.depth_long() - self.cur_overlap()) as nat
    }

    /// The state before the first step.
    pub open spec fn start(persistence: u64) -> Self {
        OverlapState { seen: Set::empty(), depth_short: 0, history: seq![0nat], persistence }
    }

    /// The state after one more step.
    ///
    /// - Two equal items are an overlap at once; the set is not consulted.
    /// - Two different items are each settled against the set, the first
    ///   list's item first.
    /// - A single item, from the remainder of the longer list, is an overlap
    ///   if the set holds it, and then leaves the set; otherwise nothing
    ///   changes but the depth.
    pub open spec fn step(self, first: T, second: Option<T>) -> Self {
        match second {
            Some(other) => {
                if other == first {
                    OverlapState {
                        seen: self.seen,
                        depth_short: self.depth_short + 1,
                        history: self.history.push(self.cur_overlap() + 1),
                        persistence: self.persistence,
                    }
                } else {
                    let (seen1, gain1) = settle(self.seen, first);
                    let (seen2, gain2) = settle(seen1, other);
                    OverlapState {
                        seen: seen2,
                        depth_short: self.depth_short + 1,
                        history: self.history.push(self.cur_overlap() + gain1 + gain2),
                        persistence: self.persistence,
                    }
                }
            },
            None => {
                if self.seen.contains(first) {
                    OverlapState {
                        seen: self.seen.remove(first),
                        depth_short: self.depth_short,
                        history: self.history.push(self.cur_overlap() + 1),
                        persistence: self.persistence,
                    }
                } else {
                    OverlapState {
                        seen: self.seen,
                        depth_short: self.depth_short,
                        history: self.history.push(self.cur_overlap()),
                        persistence: self.persistence,
                    }
                }
            },
        }
    }

    /// What holds of a tracker after any sequence of steps.
    ///
    /// The history starts at zero and never decreases; the shorter depth
    /// never exceeds the longer; the persistence is valid. Every item handed
    /// in is pending, matched or dropped, and a match takes two of them:
    /// twice the overlap plus the number of pending items is at most the
    /// number of items handed in, which is the sum of the two depths.
    pub open spec fn wf(self) -> bool {
        &&& self.history.len() >= 1
        &&& self.history[0] == 0
        &&& forall|i: int, j: int|
            0 <= i <= j < self.history.len() ==> self.history[i] <= self.history[j]
        &&& self.depth_short <= self.depth_long()
        &&& self.seen.finite()
        &&& 2 * self.cur_overlap() + self.seen.len() <= self.depth_short + self.depth_long()
        &&& is_valid_persistence(self.persistence)
    }
}

/// A tracker starts well-formed.
pub proof fn lemma_start_wf<T>(persistence: u64)
    requires
        is_valid_persistence(persistence),
    ensures
        OverlapState::<T>::start(persistence).wf(),
{
}

/// A step keeps a tracker well-formed, takes it one rank deeper, and raises
/// the overlap by at most two.
pub proof fn lemma_step_wf<T>(state: OverlapState<T>, first: T, second: Option<T>)
    requires
        state.wf(),
    ensures
        state.step(first, second).wf(),
        state.step(first, second).depth_long() == state.depth_long() + 1,
        state.step(first, second).history.take(state.history.len() as int) == state.history,
        state.cur_overlap() <= state.step(first, second).cur_overlap() <= state.cur_overlap() + 2,
        state.step(first, second).cur_overlap() <= state.step(first, second).depth_long(),
{
    let next = state.step(first, second);
    assert(next.history.take(state.history.len() as int) =~= state.history);
    assert forall|i: int, j: int| 0 <= i <= j < next.history.len() implies next.history[i]
        <= next.history[j] by {
        if j < state.history.len() {
        } else if i < state.history.len() {
            assert(state.history[i] <= state.history[state.history.len() - 1]);
        }
    }
}

} // verus!
