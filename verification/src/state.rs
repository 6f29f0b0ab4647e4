//! The executable overlap tracker.

use std::collections::HashSet;
use std::hash::Hash;
use vstd::laws_eq::obeys_concrete_eq;
use vstd::prelude::*;
use vstd::std_specs::hash::obeys_key_model;
use crate::model::OverlapState;
use crate::persistence::{is_valid_persistence, valid_persistence};
use crate::RboError;

verus! {

/// What the tracker asks of its items: that `==` holds of two items exactly
/// when they are the same item, and that hashing agrees with it. The
/// primitive integer types meet both.
pub open spec fn lawful_items<Item: Eq>() -> bool {
    obeys_key_model::<Item>() && obeys_concrete_eq::<Item>()
}

/// The overlap tracker: reads two ranked lists rank by rank and records the
/// overlap at every depth.
pub struct RboState<Item> {
    /// The items seen once so far.
    seen: HashSet<Item>,
    /// The number of updates.
    depth_long: usize,
    /// The number of updates that brought an item of each list.
    depth_short: usize,
    /// The overlap after the last update.
    cur_overlap: usize,
    /// The overlap after each update, starting with zero before the first.
    overlap: Vec<usize>,
    /// The persistence, as the bit pattern of a binary64 number.
    persistence: u64,
}

impl<Item> View for RboState<Item> {
    type V = OverlapState<Item>;

    closed spec fn view(&self) -> OverlapState<Item> {
        OverlapState {
            seen: self.seen@,
            depth_short: self.depth_short as nat,
            history: self.overlap@.map_values(|x: usize| x as nat),
            persistence: self.persistence,
        }
    }
}

impl<Item: Copy + Eq + Hash> RboState<Item> {
    /// The invariant of the tracker: its counters repeat what its history
    /// says, and the state it stands for is well-formed.
    pub closed spec fn wf(&self) -> bool {
        &&& self@.wf()
        &&& self.depth_long == self@.depth_long()
        &&& self.cur_overlap == self@.cur_overlap()
    }

    /// What the invariant says of the state that the tracker stands for:
    /// the history is never empty, starts at zero and never decreases, and
    /// the shorter depth is at most the longer.
    pub proof fn lemma_view_wf(&self)
        requires
            self.wf(),
        ensures
            self@.wf(),
    {
    }

    /// A tracker that has seen nothing, for the persistence that `p`
    /// encodes. Fails where that number is not in `[0, 1)`.
    pub fn with_persistence(p: u64) -> (made: Result<Self, RboError>)
        ensures
            is_valid_persistence(p) ==> made is Ok && made->Ok_0.wf() && made->Ok_0@
                == OverlapState::<Item>::start(p),
            !is_valid_persistence(p) ==> made == Err::<Self, RboError>(
                RboError::InvalidPersistance,
            ),
    {
        if !valid_persistence(p) {
            return Err(RboError::InvalidPersistance);
        }
        let mut overlap: Vec<usize> = Vec::new();
        overlap.push(0);
        let state = RboState {
            seen: HashSet::with_capacity(4096),
            depth_long: 0,
            depth_short: 0,
            cur_overlap: 0,
            overlap,
            persistence: p,
        };
        assert(state@.history =~= seq![0nat]);
        Ok(state)
    }

    /// Takes the tracker one rank deeper: `first` is the item of one list at
    /// that rank, `second` the item of the other list, or `None` once the
    /// shorter list has ended.
    pub fn update(&mut self, first: Item, second: Option<Item>)
        requires
            lawful_items::<Item>(),
            old(self).wf(),
        ensures
            final(self).wf(),
            final(self)@ == old(self)@.step(first, second),
    {
        proof {
            reveal(obeys_concrete_eq);
            crate::model::lemma_step_wf(self@, first, second);
        }
        let ghost before = self@;
        // The history is one longer than the depth and fits a vector, so
        // the counters below have room to grow.
        assert(self.overlap.len() == self.depth_long + 1);
        match second {
            Some(other) => {
                self.depth_short += 1;
                if other == first {
                    self.cur_overlap += 1;
                } else {
                    if self.seen.remove(&first) {
                        self.cur_overlap += 1;
                    } else {
                        self.seen.insert(first);
                    }
                    if self.seen.remove(&other) {
                        self.cur_overlap += 1;
                    } else {
                        self.seen.insert(other);
                    }
                }
            },
            None => {
                if self.seen.remove(&first) {
                    self.cur_overlap += 1;
                }
            },
        }
        self.overlap.push(self.cur_overlap);
        self.depth_long += 1;
        assert(self@.history =~= before.step(first, second).history);
    }

    /// The number of updates so far.
    pub fn depth_long(&self) -> (depth: usize)
        requires
            self.wf(),
        ensures
            depth == self@.depth_long(),
    {
        self.depth_long
    }

    /// The number of updates that brought an item of each list.
    pub fn depth_short(&self) -> (depth: usize)
        ensures
            depth == self@.depth_short,
    {
        self.depth_short
    }

    /// The overlap after the last update.
    pub fn cur_overlap(&self) -> (overlap: usize)
        requires
            self.wf(),
        ensures
            overlap == self@.cur_overlap(),
    {
        self.cur_overlap
    }

    /// The rank at which the two lists could first agree in full: the sum
    /// of the two depths less the overlap.
    pub fn full_agreement_depth(&self) -> (depth: u128)
        requires
            self.wf(),
        ensures
            depth == self@.full_agreement_depth(),
    {
        (self.depth_long - self.cur_overlap) as u128 + self.depth_short as u128
    }

    /// The overlap after each update; the entry at `0` is zero.
    pub fn overlap(&self) -> (history: &[usize])
        ensures
            history@.len() == self@.history.len(),
            forall|depth: int| 0 <= depth < history@.len() ==> history@[depth] == self@.history[depth],
    {
        self.overlap.as_slice()
    }

    /// The persistence that the tracker was made with, as a bit pattern.
    pub fn persistence(&self) -> (p: u64)
        ensures
            p == self@.persistence,
    {
        self.persistence
    }
}

} // verus!
