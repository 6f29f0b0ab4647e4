//! The overlap tracker on concrete lists: which inputs are refused, and the
//! exact overlap at every depth for those that are not.

use rbo::persistence::{valid_persistence, NEGATIVE_ZERO_BITS, ONE_BITS};
use rbo::state::RboState;
use rbo::{contains_duplicates, rbo, RboError};

fn chars(text: &str) -> Vec<char> {
    text.chars().collect()
}

/// The overlap at every depth, computed from the definition: the number of
/// items common to the two prefixes of that length.
fn overlap_by_definition(first: &[char], second: &[char]) -> Vec<usize> {
    let longer = first.len().max(second.len());
    let mut history = Vec::new();
    for depth in 0..=longer {
        let a = &first[..depth.min(first.len())];
        let b = &second[..depth.min(second.len())];
        history.push(a.iter().filter(|item| b.contains(*item)).count());
    }
    history
}

fn history_of(first: &str, second: &str) -> Vec<usize> {
    let state = rbo(&chars(first), &chars(second), 0.9f64.to_bits()).expect("valid rbo");
    state.overlap().to_vec()
}

#[test]
fn persistence_of_one_is_refused() {
    assert!(!valid_persistence(1.0f64.to_bits()));
    assert_eq!(RboState::<char>::with_persistence(1.0f64.to_bits()).err(), Some(RboError::InvalidPersistance));
    assert_eq!(rbo(&chars("abc"), &chars("abc"), 1.0f64.to_bits()).err(), Some(RboError::InvalidPersistance));
}

#[test]
fn negative_persistence_is_refused() {
    assert!(!valid_persistence((-0.1f64).to_bits()));
    assert_eq!(RboState::<char>::with_persistence((-0.1f64).to_bits()).err(), Some(RboError::InvalidPersistance));
    assert_eq!(rbo(&chars("abc"), &chars("abc"), (-0.1f64).to_bits()).err(), Some(RboError::InvalidPersistance));
}

#[test]
fn persistence_is_valid_exactly_on_the_half_open_unit_interval() {
    let valid = [
        0.0f64,
        -0.0,
        f64::MIN_POSITIVE,
        5e-324,
        0.1,
        0.5,
        0.9,
        0.99,
        0.999_999_999_999_999_9,
        f64::from_bits(ONE_BITS - 1),
    ];
    for p in valid {
        assert!((0.0..1.0).contains(&p));
        assert!(valid_persistence(p.to_bits()), "{p} is a persistence");
        assert!(RboState::<char>::with_persistence(p.to_bits()).is_ok());
    }
    let invalid = [
        1.0f64,
        f64::from_bits(ONE_BITS + 1),
        1.5,
        2.0,
        1e300,
        f64::MAX,
        f64::INFINITY,
        f64::NEG_INFINITY,
        f64::NAN,
        -f64::NAN,
        -5e-324,
        -f64::MIN_POSITIVE,
        -0.1,
        -1.0,
        f64::MIN,
    ];
    for p in invalid {
        assert!(!(0.0..1.0).contains(&p));
        assert!(!valid_persistence(p.to_bits()), "{p} is no persistence");
        assert!(RboState::<char>::with_persistence(p.to_bits()).is_err());
    }
    assert_eq!(1.0f64.to_bits(), ONE_BITS);
    assert_eq!((-0.0f64).to_bits(), NEGATIVE_ZERO_BITS);
}

#[test]
fn validity_agrees_with_the_float_comparison_on_many_patterns() {
    let mut bits: u64 = 0x9e37_79b9_7f4a_7c15;
    for _ in 0..200_000 {
        bits ^= bits << 13;
        bits ^= bits >> 7;
        bits ^= bits << 17;
        let p = f64::from_bits(bits);
        assert_eq!(valid_persistence(bits), (0.0..1.0).contains(&p), "{bits:#x}");
        let near_one = ONE_BITS.wrapping_add(bits % 5).wrapping_sub(2);
        assert_eq!(valid_persistence(near_one), (0.0..1.0).contains(&f64::from_bits(near_one)));
    }
}

#[test]
fn a_repeated_item_is_refused() {
    let first: Vec<&str> = vec!["a", "a", "b"];
    let second: Vec<&str> = vec!["a", "b", "c"];
    assert_eq!(rbo(&first, &second, 0.9f64.to_bits()).err(), Some(RboError::DuplicatesInList));
    assert_eq!(rbo(&second, &first, 0.9f64.to_bits()).err(), Some(RboError::DuplicatesInList));
    assert!(rbo(&second, &second, 0.9f64.to_bits()).is_ok());
}

#[test]
fn an_invalid_persistence_is_reported_before_a_repeated_item() {
    let first = chars("aab");
    let second = chars("abc");
    assert_eq!(rbo(&first, &second, 1.0f64.to_bits()).err(), Some(RboError::InvalidPersistance));
    assert_eq!(rbo(&first, &second, f64::NAN.to_bits()).err(), Some(RboError::InvalidPersistance));
    assert_eq!(rbo(&first, &second, 0.5f64.to_bits()).err(), Some(RboError::DuplicatesInList));
}

#[test]
fn duplicates_are_found_wherever_they_stand() {
    assert!(!contains_duplicates::<char>(&[]));
    assert!(!contains_duplicates(&chars("a")));
    assert!(!contains_duplicates(&chars("abcdefghijklmnopqrstuvwxyz")));
    assert!(contains_duplicates(&chars("aa")));
    assert!(contains_duplicates(&chars("abca")));
    assert!(contains_duplicates(&chars("abcc")));
    assert!(contains_duplicates(&chars("abcdefghijklmnopqrstuvwxyzm")));
    assert!(contains_duplicates(&[7u64, 8, 9, 8]));
    assert!(!contains_duplicates(&[7u64, 8, 9, 10]));
}

#[test]
fn a_fresh_tracker_has_seen_nothing() {
    let state = RboState::<char>::with_persistence(0.9f64.to_bits()).expect("valid persistence");
    assert_eq!(state.depth_long(), 0);
    assert_eq!(state.depth_short(), 0);
    assert_eq!(state.cur_overlap(), 0);
    assert_eq!(state.overlap(), &[0][..]);
    assert_eq!(state.full_agreement_depth(), 0);
    assert_eq!(f64::from_bits(state.persistence()), 0.9);
}

#[test]
fn equal_items_overlap_at_once() {
    let mut state = RboState::with_persistence(0.5f64.to_bits()).expect("valid persistence");
    state.update('a', Some('a'));
    assert_eq!(state.depth_short(), 1);
    assert_eq!(state.depth_long(), 1);
    assert_eq!(state.cur_overlap(), 1);
    assert_eq!(state.overlap(), &[0, 1][..]);
}

#[test]
fn different_items_wait_for_their_match() {
    let mut state = RboState::with_persistence(0.5f64.to_bits()).expect("valid persistence");
    state.update('a', Some('b'));
    assert_eq!(state.cur_overlap(), 0);
    state.update('c', Some('a'));
    assert_eq!(state.cur_overlap(), 1);
    state.update('b', Some('c'));
    assert_eq!(state.cur_overlap(), 3);
    assert_eq!(state.depth_short(), 3);
    assert_eq!(state.depth_long(), 3);
    assert_eq!(state.overlap(), &[0, 0, 1, 3][..]);
    assert_eq!(state.full_agreement_depth(), 3);
}

#[test]
fn the_remainder_matches_only_what_is_pending() {
    let mut state = RboState::with_persistence(0.5f64.to_bits()).expect("valid persistence");
    state.update('a', Some('b'));
    state.update('b', None);
    assert_eq!(state.cur_overlap(), 1);
    state.update('z', None);
    assert_eq!(state.cur_overlap(), 1);
    state.update('z', None);
    assert_eq!(state.cur_overlap(), 1);
    assert_eq!(state.depth_short(), 1);
    assert_eq!(state.depth_long(), 4);
    assert_eq!(state.overlap(), &[0, 0, 1, 1, 1][..]);
    assert_eq!(state.full_agreement_depth(), 4);
}

#[test]
fn identical_lists_overlap_in_full() {
    for length in 0..30usize {
        let list: Vec<usize> = (0..length).map(|item| item * 7 + 3).collect();
        let state = rbo(&list, &list, 0.9f64.to_bits()).expect("valid rbo");
        let expected: Vec<usize> = (0..=length).collect();
        assert_eq!(state.overlap(), &expected[..]);
        assert_eq!(state.depth_short(), length);
        assert_eq!(state.depth_long(), length);
        assert_eq!(state.cur_overlap(), length);
        assert_eq!(state.full_agreement_depth(), length as u128);
    }
}

#[test]
fn disjoint_lists_never_overlap() {
    let state = rbo(&chars("abc"), &chars("xyz"), 0.9f64.to_bits()).expect("valid rbo");
    assert_eq!(state.overlap(), &[0, 0, 0, 0][..]);
    assert_eq!(state.full_agreement_depth(), 6);
}

#[test]
fn a_tail_of_new_items_adds_no_overlap() {
    let state = rbo(&chars("ab"), &chars("abxyz"), 0.8f64.to_bits()).expect("valid rbo");
    assert_eq!(state.overlap(), &[0, 1, 2, 2, 2, 2][..]);
    assert_eq!(state.depth_short(), 2);
    assert_eq!(state.depth_long(), 5);
    assert_eq!(state.cur_overlap(), 2);
    assert_eq!(state.full_agreement_depth(), 5);
    let state = rbo(&chars("abxyz"), &chars("ab"), 0.8f64.to_bits()).expect("valid rbo");
    assert_eq!(state.overlap(), &[0, 1, 2, 2, 2, 2][..]);
}

#[test]
fn a_tail_matches_what_the_shorter_list_left_pending() {
    let state = rbo(&chars("ab"), &chars("acb"), 0.5f64.to_bits()).expect("valid rbo");
    assert_eq!(state.overlap(), &[0, 1, 1, 2][..]);
    let state = rbo(&chars("kxcnarvmwyp"), &chars("abcdefghijklmnopqrstuvwxyz"), 0.99f64.to_bits())
        .expect("valid rbo");
    assert_eq!(
        state.overlap(),
        &[0, 0, 0, 1, 1, 2, 2, 2, 2, 2, 2, 3, 3, 4, 5, 5, 6, 6, 7, 7, 7, 7, 8, 9, 10, 11, 11][..]
    );
    assert_eq!(state.depth_short(), 11);
    assert_eq!(state.depth_long(), 26);
    assert_eq!(state.full_agreement_depth(), 26);
}

#[test]
fn permutations_overlap_as_the_definition_says() {
    assert_eq!(history_of("abcde", "bacde"), vec![0, 0, 2, 3, 4, 5]);
    assert_eq!(history_of("abcd", "dcba"), vec![0, 0, 0, 2, 4]);
    assert_eq!(history_of("abcdefg", "gfedcba"), vec![0, 0, 0, 0, 1, 3, 5, 7]);
    assert_eq!(history_of("aXbc", "bcda"), vec![0, 0, 0, 1, 3]);
}

#[test]
fn empty_lists_are_accepted() {
    let none: Vec<char> = Vec::new();
    let state = rbo(&none, &none, 0.9f64.to_bits()).expect("valid rbo");
    assert_eq!(state.overlap(), &[0][..]);
    assert_eq!(state.depth_long(), 0);
    let state = rbo(&none, &chars("abc"), 0.9f64.to_bits()).expect("valid rbo");
    assert_eq!(state.overlap(), &[0, 0, 0, 0][..]);
    assert_eq!(state.depth_short(), 0);
    assert_eq!(state.depth_long(), 3);
    assert_eq!(state.full_agreement_depth(), 3);
}

#[test]
fn the_history_is_the_overlap_of_the_prefixes() {
    let alphabet = chars("abcdefghijkl");
    let mut seed: u64 = 0x2545_f491_4f6c_dd1d;
    for _ in 0..500 {
        let mut lists: Vec<Vec<char>> = Vec::new();
        for _ in 0..2 {
            let mut pool = alphabet.clone();
            seed ^= seed << 13;
            seed ^= seed >> 7;
            seed ^= seed << 17;
            let length = (seed % 10) as usize;
            let mut list = Vec::new();
            for _ in 0..length {
                seed ^= seed << 13;
                seed ^= seed >> 7;
                seed ^= seed << 17;
                list.push(pool.swap_remove((seed % pool.len() as u64) as usize));
            }
            lists.push(list);
        }
        let state = rbo(&lists[0], &lists[1], 0.9f64.to_bits()).expect("valid rbo");
        assert_eq!(state.overlap().to_vec(), overlap_by_definition(&lists[0], &lists[1]));
        assert_eq!(state.depth_short(), lists[0].len().min(lists[1].len()));
        assert_eq!(state.depth_long(), lists[0].len().max(lists[1].len()));
        assert_eq!(state.cur_overlap(), *state.overlap().last().expect("a history"));
        assert!(state.cur_overlap() <= state.depth_short());
        assert!(state.full_agreement_depth() >= state.depth_long() as u128);
        let swapped = rbo(&lists[1], &lists[0], 0.9f64.to_bits()).expect("valid rbo");
        assert_eq!(state.overlap(), swapped.overlap());
    }
}

#[test]
fn the_overlap_never_decreases_and_rises_by_at_most_two() {
    let history = history_of("abcdefghijklmnopqrstuvwxyz", "zyxwvutsrqponmlkjihgfedcba");
    assert_eq!(history.len(), 27);
    for depth in 1..history.len() {
        assert!(history[depth - 1] <= history[depth]);
        assert!(history[depth] <= history[depth - 1] + 2);
        assert!(history[depth] <= depth);
    }
    assert_eq!(history[13], 0);
    assert_eq!(history[14], 2);
    assert_eq!(history[26], 26);
}

#[test]
fn a_common_tail_adds_one_overlap_per_rank() {
    let first = chars("abcd");
    let second = chars("badc");
    let short = rbo(&first, &second, 0.9f64.to_bits()).expect("valid rbo");
    let first_long = chars("abcdwxyz");
    let second_long = chars("badcwxyz");
    let long = rbo(&first_long, &second_long, 0.9f64.to_bits()).expect("valid rbo");
    assert_eq!(short.overlap(), &[0, 0, 2, 2, 4][..]);
    assert_eq!(long.overlap(), &[0, 0, 2, 2, 4, 5, 6, 7, 8][..]);
    assert_eq!(&long.overlap()[..5], short.overlap());
}

#[test]
fn the_persistence_is_kept_bit_for_bit() {
    for p in [0.0f64, -0.0, 0.1, 0.9, 0.99] {
        let state = rbo(&chars("ab"), &chars("ba"), p.to_bits()).expect("valid rbo");
        assert_eq!(state.persistence(), p.to_bits());
    }
}
