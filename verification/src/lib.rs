//! Rank-biased overlap: the bookkeeping behind a similarity measure for
//! two ranked lists that may differ in length.
//!
//! The measure compares the lists at every depth `d` by the overlap `X_d`,
//! the number of items that both lists rank within their first `d` places,
//! and weights depth `d` by the `d`-th power of a persistence `p`. This
//! library validates `p`, rejects lists that hold an item twice, and computes
//! the overlap at every depth in one pass over the lists.
//!
//! The scores of the measure (a lower bound, the residual above it, and an
//! extrapolated point estimate) are closed forms in floating point over that
//! history and `p`. They are left to the caller, who reads the depths and the
//! history from the tracker that [`rbo`] returns.
//!
//! ```text
//! let first: Vec<char> = "abcdefghijklmnopqrstuvwxyz".chars().collect();
//! let second: Vec<char> = "kxcnarvmwyp".chars().collect();
//! let state = rbo(&first, &second, 0.99f64.to_bits()).expect("valid rbo");
//! assert_eq!(state.overlap()[11], 3);
//! ```

use std::collections::HashSet;
use std::hash::Hash;
use vstd::prelude::*;

pub mod model;
pub mod overlap;
pub mod persistence;
pub mod state;
pub mod tracking;

use crate::overlap::{longer_len, overlap_at};
use crate::persistence::is_valid_persistence;
use crate::state::{lawful_items, RboState};
use crate::tracking::{lemma_state_at_start, lemma_state_at_step, state_at};

verus! {

/// The ways in which a rank-biased overlap computation can be refused.
#[derive(Debug, Clone, Copy, PartialEq, Eq, Structural)]
pub enum RboError {
    /// The persistence parameter `p` must satisfy `0.0 <= p < 1.0`.
    InvalidPersistance,
    /// A ranked list must not contain the same item twice.
    DuplicatesInList,
}

/// Whether `list` holds some item at two ranks.
pub fn contains_duplicates<Item: Copy + Eq + Hash>(list: &[Item]) -> (found: bool)
    requires
        lawful_items::<Item>(),
    ensures
        found == !list@.no_duplicates(),
{
    let mut items: HashSet<Item> = HashSet::new();
    let mut i: usize = 0;
    while i < list.len()
        invariant
            lawful_items::<Item>(),
            i <= list.len(),
            items@ == list@.take(i as int).to_set(),
        decreases list.len() - i,
    {
        items.insert(list[i]);
        proof {
            list@.lemma_take_succ_push(i as int);
            list@.take(i as int).lemma_push_to_set_commute(list@[i as int]);
        }
        i += 1;
    }
    proof {
        list@.lemma_take_len();
        if list@.no_duplicates() {
            list@.unique_seq_to_set();
        }
        if list@.to_set().len() == list@.len() {
            list@.lemma_no_dup_set_cardinality();
        }
    }
    items.len() != list.len()
}

/// Why a computation on these inputs is refused, if it is: an invalid
/// persistence first, a repeated item in either list second.
pub open spec fn refusal<Item>(first: Seq<Item>, second: Seq<Item>, p: u64) -> Option<RboError> {
    if !is_valid_persistence(p) {
        Some(RboError::InvalidPersistance)
    } else if !first.no_duplicates() || !second.no_duplicates() {
        Some(RboError::DuplicatesInList)
    } else {
        None
    }
}

/// Reads two ranked lists to the end of the longer one and returns the
/// tracker, which then holds the overlap at every depth. `p` is the
/// persistence as the bit pattern of a binary64 number.
pub fn rbo<Item: Copy + Eq + Hash>(first: &[Item], second: &[Item], p: u64) -> (result: Result<
    RboState<Item>,
    RboError,
>)
    requires
        lawful_items::<Item>(),
    ensures
        match refusal(first@, second@, p) {
            Some(error) => result == Err::<RboState<Item>, RboError>(error),
            None => {
                &&& result is Ok
                &&& result->Ok_0.wf()
                &&& result->Ok_0@ == state_at(first@, second@, p, longer_len(first@, second@))
                &&& forall|depth: int|
                    0 <= depth <= longer_len(first@, second@) ==> result->Ok_0@.history[depth]
                        == overlap_at(first@, second@, depth as nat)
            },
        },
{
    let mut rbo_state = match RboState::with_persistence(p) {
        Ok(state) => state,
        Err(error) => {
            return Err(error);
        },
    };
    if contains_duplicates(first) || contains_duplicates(second) {
        return Err(RboError::DuplicatesInList);
    }
    proof {
        lemma_state_at_start(first@, second@, p);
    }
    let shorter: usize = if first.len() <= second.len() {
        first.len()
    } else {
        second.len()
    };
    let mut i: usize = 0;
    while i < shorter
        invariant
            lawful_items::<Item>(),
            first@.no_duplicates(),
            second@.no_duplicates(),
            shorter <= first.len(),
            shorter <= second.len(),
            i <= shorter,
            rbo_state.wf(),
            rbo_state@ == state_at(first@, second@, p, i as nat),
        decreases shorter - i,
    {
        proof {
            lemma_state_at_step(first@, second@, p, i as nat);
        }
        rbo_state.update(first[i], Some(second[i]));
        i += 1;
    }
    if first.len() < second.len() {
        while i < second.len()
            invariant
                lawful_items::<Item>(),
                first@.no_duplicates(),
                second@.no_duplicates(),
                first.len() <= i <= second.len(),
                rbo_state.wf(),
                rbo_state@ == state_at(first@, second@, p, i as nat),
            decreases second.len() - i,
        {
            proof {
                lemma_state_at_step(first@, second@, p, i as nat);
            }
            rbo_state.update(second[i], None);
            i += 1;
        }
    } else if second.len() < first.len() {
        while i < first.len()
            invariant
                lawful_items::<Item>(),
                first@.no_duplicates(),
                second@.no_duplicates(),
                second.len() <= i <= first.len(),
                rbo_state.wf(),
                rbo_state@ == state_at(first@, second@, p, i as nat),
            decreases first.len() - i,
        {
            proof {
                lemma_state_at_step(first@, second@, p, i as nat);
            }
            rbo_state.update(first[i], None);
            i += 1;
        }
    }
    Ok(rbo_state)
}

} // verus!
