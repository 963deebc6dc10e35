use poker::cards::{check_rankable, new_deck, score_hand, shuffled_deck};

#[test]
fn deck_has_every_card_once() {
    let d = new_deck();
    assert_eq!(d.len(), 52);
    assert_eq!(d[0], (0, 0));
    assert_eq!(d[13], (0, 1));
    assert_eq!(d[51], (12, 3));
    let mut s = d.clone();
    s.sort();
    s.dedup();
    assert_eq!(s.len(), 52);
}

#[test]
fn shuffle_is_a_seeded_permutation() {
    let a = shuffled_deck(&vec![5u8; 32]);
    let b = shuffled_deck(&vec![5u8; 32]);
    let c = shuffled_deck(&vec![6u8; 32]);
    assert_eq!(a, b);
    assert_ne!(a, c);
    assert_ne!(a, new_deck());
    let mut sorted = a.clone();
    sorted.sort();
    let mut fresh = new_deck();
    fresh.sort();
    assert_eq!(sorted, fresh);
}

#[test]
fn scores_order_hands() {
    let board = vec![(12, 0), (11, 0), (10, 0), (2, 1), (3, 2)];
    let flush = score_hand(&vec![(9, 0), (8, 0)], &board);
    let pair = score_hand(&vec![(12, 1), (0, 3)], &board);
    let high = score_hand(&vec![(0, 1), (5, 3)], &board);
    assert!(flush > pair);
    assert!(pair > high);
    // A straight flush is category 8, a pair category 1, high card 0.
    assert_eq!(flush >> 32, 8);
    assert_eq!(pair >> 32, 1);
    assert_eq!(high >> 32, 0);
}

#[test]
fn unrankable_cards_score_zero() {
    assert!(check_rankable(&vec![(0, 0), (1, 1), (5, 2), (7, 3), (12, 0)]));
    // Fewer than five cards: four aces leave rs_poker no kicker.
    assert!(!check_rankable(&vec![(12, 0), (12, 1), (12, 2), (12, 3)]));
    assert_eq!(score_hand(&vec![(12, 0), (12, 1)], &vec![(12, 2), (12, 3)]), 0);
    assert!(!check_rankable(&vec![(0, 0), (0, 0)]));
    assert!(!check_rankable(&vec![(13, 0)]));
    assert!(!check_rankable(&vec![(0, 4)]));
    assert!(!check_rankable(&vec![(0, 0); 8]));
    assert_eq!(score_hand(&vec![(3, 1), (3, 1)], &vec![]), 0);
}
