//! Cards, the deck, the seeded shuffle and hand ranking.
//!
//! A card is a pair `(value, suit)`: `value` in `0..13` runs from two to ace,
//! `suit` in `0..4` is spade, club, heart, diamond, as in rs_poker's `Card`.
use vstd::prelude::*;
use rand::rngs::StdRng;
use rand::seq::SliceRandom;
use rand::SeedableRng;

verus! {

/// Number of cards in a full deck.
pub const DECK_SIZE: usize = 52;

/// Length of a shuffle seed, in bytes.
pub const SEED_LEN: usize = 32;

/// A card is a value and a suit.
pub type CardCode = (u8, u8);

pub open spec fn valid_card(c: CardCode) -> bool {
    c.0 < 13 && c.1 < 4
}

/// The `i`th card of the unshuffled deck.
pub open spec fn card_at(i: int) -> CardCode {
    ((i % 13) as u8, (i / 13) as u8)
}

/// The unshuffled deck: every card once, suit by suit, values in increasing order.
pub open spec fn standard_deck() -> Seq<CardCode> {
    Seq::new(52, |i: int| card_at(i))
}

/// rs_poker's rank of a hand, carried only inside the ranking call.
#[verifier::external_type_specification]
#[verifier::external_body]
pub struct ExPokerRank(rs_poker::core::Rank);

type PokerRank = rs_poker::core::Rank;

/// Cards that rs_poker can rank: five to seven valid, pairwise different
/// cards. `rank` is made for five cards or more: with four, a four of a kind
/// or two pairs leave it no kicker, and it takes the highest bit of zero.
pub open spec fn rankable(cards: Seq<CardCode>) -> bool {
    &&& 5 <= cards.len() <= 7
    &&& forall|i: int| 0 <= i < cards.len() ==> valid_card(#[trigger] cards[i])
    &&& forall|i: int, j: int| 0 <= i < j < cards.len() ==> cards[i] != cards[j]
}

/// The order in which the seeded shuffle leaves `cards`.
pub uninterp spec fn shuffle_of(seed: Seq<u8>, cards: Seq<CardCode>) -> Seq<CardCode>;

/// rs_poker's rank of the best five-card hand among `cards`: the index of the
/// `Rank` variant (high card first, straight flush last) and the number it
/// holds, which orders hands of one variant.
pub uninterp spec fn rank_of(cards: Seq<CardCode>) -> (u8, u32);

/// A rank as one number; ranks compare as these numbers do.
pub open spec fn rank_key(r: (u8, u32)) -> u64 {
    (r.0 as int * 0x1_0000_0000 + r.1 as int) as u64
}

/// The score of a set of cards: its rank's key, or zero where the cards
/// cannot be ranked.
pub open spec fn hand_score(cards: Seq<CardCode>) -> u64 {
    if rankable(cards) {
        rank_key(rank_of(cards))
    } else {
        0
    }
}

/// The unshuffled deck holds no card twice.
pub proof fn lemma_standard_deck_distinct()
    ensures
        standard_deck().no_duplicates(),
{
    assert forall|i: int, j: int| 0 <= i < 52 && 0 <= j < 52 && i != j implies
        standard_deck()[i] != standard_deck()[j] by {
        vstd::arithmetic::div_mod::lemma_fundamental_div_mod(i, 13);
        vstd::arithmetic::div_mod::lemma_fundamental_div_mod(j, 13);
        vstd::arithmetic::div_mod::lemma_mod_pos_bound(i, 13);
        vstd::arithmetic::div_mod::lemma_mod_pos_bound(j, 13);
        vstd::arithmetic::div_mod::lemma_div_pos_is_pos(i, 13);
        vstd::arithmetic::div_mod::lemma_div_pos_is_pos(j, 13);
        vstd::arithmetic::div_mod::lemma_div_is_ordered(i, 52, 13);
        vstd::arithmetic::div_mod::lemma_div_is_ordered(j, 52, 13);
    }
}

/// A deck with the cards of the unshuffled one holds no card twice.
pub proof fn lemma_permuted_deck_distinct(deck: Seq<CardCode>)
    requires
        deck.to_multiset() == standard_deck().to_multiset(),
    ensures
        deck.no_duplicates(),
{
    lemma_standard_deck_distinct();
    standard_deck().lemma_multiset_has_no_duplicates();
    deck.lemma_multiset_has_no_duplicates_conv();
}

/// Builds the unshuffled deck.
pub fn new_deck() -> (r: Vec<CardCode>)
    ensures
        r@ == standard_deck(),
{
    let mut r: Vec<CardCode> = Vec::new();
    let mut i: usize = 0;
    while i < DECK_SIZE
        invariant
            i <= DECK_SIZE,
            r@.len() == i,
            forall|j: int| 0 <= j < i ==> r@[j] == card_at(j),
        decreases DECK_SIZE - i,
    {
        r.push(((i % 13) as u8, (i / 13) as u8));
        i = i + 1;
    }
    assert(r@ =~= standard_deck());
    r
}

/// Relies on rand's `StdRng::from_seed` and `SliceRandom::shuffle`: the cards
/// are permuted, in an order that depends on the seed and the cards alone
/// (`StdRng` is ChaCha12 here, the same on every machine).
#[verifier::external_body]
fn shuffle_with_seed(seed: &Vec<u8>, cards: &mut Vec<CardCode>)
    requires
        seed@.len() == SEED_LEN,
    ensures
        final(cards)@ == shuffle_of(seed@, old(cards)@),
        final(cards)@.len() == old(cards)@.len(),
        final(cards)@.to_multiset() == old(cards)@.to_multiset(),
{
    let mut key = [0u8; 32];
    key.copy_from_slice(seed.as_slice());
    let mut rng = StdRng::from_seed(key);
    cards.as_mut_slice().shuffle(&mut rng);
}

/// The deck for a hand: the standard deck, shuffled under `seed`.
pub fn shuffled_deck(seed: &Vec<u8>) -> (r: Vec<CardCode>)
    requires
        seed@.len() == SEED_LEN,
    ensures
        r@ == shuffle_of(seed@, standard_deck()),
        r@.len() == DECK_SIZE,
        r@.to_multiset() == standard_deck().to_multiset(),
{
    let mut deck = new_deck();
    shuffle_with_seed(seed, &mut deck);
    deck
}

/// Relies on rs_poker's `Hand::new_with_cards` and `Rankable::rank`: the rank
/// of the best five-card hand among the cards, its variant and its number.
/// `rank` counts the cards of each value in an array of five, so no value may
/// occur more than four times: distinct valid cards see to that.
#[verifier::external_body]
fn hand_rank(cards: &Vec<CardCode>) -> (r: (u8, u32))
    requires
        rankable(cards@),
    ensures
        r == rank_of(cards@),
{
    let hand = rs_poker::core::Hand::new_with_cards(cards.iter().map(|c| rs_poker::core::Card::new(rs_poker::core::Value::from_u8(c.0), rs_poker::core::Suit::from_u8(c.1))).collect());
    match rs_poker::core::Rankable::rank(&hand) {
        PokerRank::HighCard(n) => (0, n),
        PokerRank::OnePair(n) => (1, n),
        PokerRank::TwoPair(n) => (2, n),
        PokerRank::ThreeOfAKind(n) => (3, n),
        PokerRank::Straight(n) => (4, n),
        PokerRank::Flush(n) => (5, n),
        PokerRank::FullHouse(n) => (6, n),
        PokerRank::FourOfAKind(n) => (7, n),
        PokerRank::StraightFlush(n) => (8, n),
    }
}

/// Tells whether `cards` can be ranked.
pub fn check_rankable(cards: &Vec<CardCode>) -> (r: bool)
    ensures
        r == rankable(cards@),
{
    if cards.len() > 7 || cards.len() < 5 {
        return false;
    }
    let mut i: usize = 0;
    while i < cards.len()
        invariant
            i <= cards@.len() <= 7,
            5 <= cards@.len(),
            forall|k: int| 0 <= k < i ==> valid_card(#[trigger] cards@[k]),
            forall|k: int, l: int| 0 <= k < l < cards@.len() && k < i ==> cards@[k] != cards@[l],
        decreases cards@.len() - i,
    {
        let c = cards[i];
        if c.0 >= 13 || c.1 >= 4 {
            return false;
        }
        let mut j: usize = i + 1;
        while j < cards.len()
            invariant
                i < j <= cards@.len(),
                c == cards@[i as int],
                forall|l: int| i < l < j ==> cards@[i as int] != cards@[l],
            decreases cards@.len() - j,
        {
            let d = cards[j];
            if c.0 == d.0 && c.1 == d.1 {
                return false;
            }
            j = j + 1;
        }
        i = i + 1;
    }
    true
}

/// Scores the hand made of a player's hole cards and the community cards.
pub fn score_hand(hole: &Vec<CardCode>, community: &Vec<CardCode>) -> (r: u64)
    ensures
        r == hand_score(hole@ + community@),
{
    let mut all: Vec<CardCode> = Vec::new();
    let mut i: usize = 0;
    while i < hole.len()
        invariant
            i <= hole@.len(),
            all@ == hole@.subrange(0, i as int),
        decreases hole@.len() - i,
    {
        all.push(hole[i]);
        i = i + 1;
        assert(all@ =~= hole@.subrange(0, i as int));
    }
    let mut j: usize = 0;
    while j < community.len()
        invariant
            j <= community@.len(),
            all@ == hole@ + community@.subrange(0, j as int),
        decreases community@.len() - j,
    {
        all.push(community[j]);
        j = j + 1;
        assert(all@ =~= hole@ + community@.subrange(0, j as int));
    }
    assert(community@.subrange(0, community@.len() as int) =~= community@);
    if check_rankable(&all) {
        let r = hand_rank(&all);
        (r.0 as u64) * 0x1_0000_0000 + (r.1 as u64)
    } else {
        0
    }
}

} // verus!
