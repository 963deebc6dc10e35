use poker::poker_contract::{Action, GameStage, Player, PokerContract, PokerError};
use poker::showdown::showdown_split;

fn addr(name: &str) -> Vec<u8> {
    name.as_bytes().to_vec()
}

fn seed(b: u8) -> Vec<u8> {
    vec![b; 32]
}

fn chips_on_table(t: &PokerContract) -> u64 {
    let seated: u64 = t.players.iter().map(|p| p.bet + p.balance).sum();
    let waiting: u64 = t.on_deck.iter().map(|p| p.bet + p.balance).sum();
    t.pot + seated + waiting
}

/// A table with two players, A seated first, and a hand started by A.
fn two_player_hand() -> PokerContract {
    let mut t = PokerContract::new(2, 4, 4).unwrap();
    assert_eq!(t.join_game(&addr("client1"), 5, &seed(7)), Ok(true));
    assert_eq!(t.join_game(&addr("client2"), 4, &seed(9)), Ok(true));
    assert_eq!(t.play_hand(&addr("client1")), Ok(()));
    t
}

#[test]
fn scenario_two_players() {
    let mut t = two_player_hand();
    assert_eq!(t.stage, GameStage::Play);
    assert_eq!(t.players[0].balance, 4);
    assert_eq!(t.players[0].bet, 1);
    assert_eq!(t.players[1].balance, 2);
    assert_eq!(t.players[1].bet, 2);
    assert_eq!(t.min_bet, 2);
    assert_eq!(t.next_player, 0);
    assert_eq!(t.last_player, 1);
    // A owes one chip, so a check is refused and changes nothing.
    assert_eq!(t.take_action(&addr("client1"), Action::Check, 0), Err(PokerError::InvalidAction));
    assert_eq!(t.players[0].bet, 1);
    assert_eq!(t.take_action(&addr("client1"), Action::Match, 0), Ok(()));
    assert_eq!(t.players[0].balance, 3);
    assert_eq!(t.players[0].bet, 2);
    assert_eq!(t.next_player, 1);
    // B closes the round: the bets go to the pot and the flop is shown.
    assert_eq!(t.take_action(&addr("client2"), Action::Check, 0), Ok(()));
    assert_eq!(t.pot, 4);
    assert_eq!(t.cards.len(), 3);
    assert_eq!(t.min_bet, 0);
    assert_eq!(t.next_player, 0);
    // A folds: B is left alone and takes the pot.
    assert_eq!(t.take_action(&addr("client1"), Action::Fold, 0), Ok(()));
    assert_eq!(t.stage, GameStage::Join);
    assert_eq!(t.players.len(), 1);
    assert_eq!(t.players[0].balance, 6);
    assert_eq!(t.pot, 0);
    assert_eq!(t.withdraw(&addr("client1")), Ok(3));
    assert_eq!(t.withdraw(&addr("client2")), Ok(6));
    assert_eq!(chips_on_table(&t), 0);
}

#[test]
fn new_checks_parameters() {
    assert!(matches!(PokerContract::new(0, 4, 4), Err(PokerError::InvalidParameters)));
    assert!(matches!(PokerContract::new(2, 0, 4), Err(PokerError::InvalidParameters)));
    assert!(matches!(PokerContract::new(2, 23, 4), Err(PokerError::InvalidParameters)));
    assert!(matches!(PokerContract::new(2, 4, 0), Err(PokerError::InvalidParameters)));
    let t = PokerContract::new(2, 22, 4).unwrap();
    assert_eq!(t.game_id, 28);
    assert_eq!(t.stage, GameStage::Join);
    assert_eq!(t.seed, vec![0u8; 32]);
}

#[test]
fn join_errors_leave_table_unchanged() {
    let mut t = PokerContract::new(2, 4, 4).unwrap();
    assert_eq!(t.join_game(&addr("a"), 5, &vec![1u8; 31]), Err(PokerError::SeedInvalid));
    assert_eq!(t.players.len(), 0);
    assert_eq!(t.seed, vec![0u8; 32]);
    assert_eq!(t.join_game(&addr("a"), 5, &seed(3)), Ok(true));
    assert_eq!(t.join_game(&addr("a"), 5, &seed(5)), Err(PokerError::AlreadyJoined));
    assert_eq!(t.seed, seed(3));
    assert_eq!(t.players.len(), 1);
}

#[test]
fn join_xors_seeds() {
    let mut t = PokerContract::new(2, 4, 4).unwrap();
    assert_eq!(t.join_game(&addr("a"), 5, &seed(0b1100)), Ok(true));
    assert_eq!(t.join_game(&addr("b"), 5, &seed(0b1010)), Ok(true));
    assert_eq!(t.seed, seed(0b0110));
}

#[test]
fn join_full_table_or_hand_goes_on_deck() {
    let mut t = PokerContract::new(2, 2, 4).unwrap();
    assert_eq!(t.join_game(&addr("a"), 5, &seed(1)), Ok(true));
    assert_eq!(t.join_game(&addr("b"), 5, &seed(2)), Ok(true));
    assert_eq!(t.join_game(&addr("c"), 5, &seed(3)), Ok(false));
    assert_eq!(t.on_deck.len(), 1);
    assert!(!t.on_deck[0].playing);
    assert_eq!(t.join_game(&addr("c"), 5, &seed(4)), Err(PokerError::AlreadyJoined));

    let mut u = two_player_hand();
    assert_eq!(u.join_game(&addr("late"), 8, &seed(1)), Ok(false));
    assert_eq!(u.on_deck.len(), 1);
    assert_eq!(u.players.len(), 2);
}

#[test]
fn play_hand_errors() {
    let mut t = PokerContract::new(2, 4, 4).unwrap();
    assert_eq!(t.join_game(&addr("a"), 5, &seed(1)), Ok(true));
    assert_eq!(t.play_hand(&addr("a")), Err(PokerError::NotEnoughPlayers));
    assert_eq!(t.join_game(&addr("b"), 5, &seed(2)), Ok(true));
    assert_eq!(t.play_hand(&addr("stranger")), Err(PokerError::NotAParticipant));
    assert_eq!(t.stage, GameStage::Join);
    assert_eq!(t.play_hand(&addr("b")), Ok(()));
    assert_eq!(t.play_hand(&addr("b")), Err(PokerError::WrongStage));
}

#[test]
fn play_hand_seats_players_on_deck_in_order() {
    let mut t = PokerContract::new(2, 3, 4).unwrap();
    assert_eq!(t.join_game(&addr("a"), 10, &seed(1)), Ok(true));
    assert_eq!(t.join_game(&addr("b"), 10, &seed(2)), Ok(true));
    assert_eq!(t.play_hand(&addr("a")), Ok(()));
    assert_eq!(t.join_game(&addr("c"), 10, &seed(3)), Ok(false));
    assert_eq!(t.join_game(&addr("d"), 10, &seed(4)), Ok(false));
    // End the hand: the seat to act folds.
    assert_eq!(t.force_timeout(), Ok(()));
    assert_eq!(t.stage, GameStage::Join);
    assert_eq!(t.on_deck.len(), 3);
    assert_eq!(t.play_hand(&addr("c")), Ok(()));
    // "b" kept its seat; two seats were free, so "c" and "d" fill them
    // and "a", who folded, waits for the next hand.
    assert_eq!(t.players.len(), 3);
    assert_eq!(t.players[0].addr, addr("b"));
    assert_eq!(t.players[1].addr, addr("c"));
    assert_eq!(t.players[2].addr, addr("d"));
    assert!(t.players.iter().all(|p| p.playing && p.cards.len() == 2));
    assert_eq!(t.on_deck.len(), 1);
    assert_eq!(t.on_deck[0].addr, addr("a"));
}

#[test]
fn play_hand_posts_short_blind_from_whole_balance() {
    let mut t = PokerContract::new(10, 4, 4).unwrap();
    assert_eq!(t.join_game(&addr("a"), 3, &seed(1)), Ok(true));
    assert_eq!(t.join_game(&addr("b"), 7, &seed(2)), Ok(true));
    assert_eq!(t.play_hand(&addr("a")), Ok(()));
    // Dealer is seat 1, small blind seat 0, big blind seat 1.
    assert_eq!(t.dealer, 1);
    assert_eq!(t.players[0].bet, 3);
    assert_eq!(t.players[0].balance, 0);
    assert_eq!(t.players[1].bet, 7);
    assert_eq!(t.players[1].balance, 0);
    assert_eq!(t.min_bet, 10);
}

#[test]
fn take_action_errors() {
    let mut t = PokerContract::new(2, 4, 4).unwrap();
    assert_eq!(t.join_game(&addr("client1"), 5, &seed(1)), Ok(true));
    assert_eq!(t.take_action(&addr("client1"), Action::Check, 0), Err(PokerError::WrongStage));
    let mut t = two_player_hand();
    assert_eq!(t.take_action(&addr("client2"), Action::Match, 0), Err(PokerError::OutOfTurn));
    assert_eq!(t.take_action(&addr("nobody"), Action::Fold, 0), Err(PokerError::OutOfTurn));
    assert_eq!(t.take_action(&addr("client1"), Action::NoAction, 0), Err(PokerError::InvalidAction));
    // A raise must be above twice the bet to match.
    assert_eq!(t.take_action(&addr("client1"), Action::Raise, 4), Err(PokerError::InvalidAction));
    // A has 4 chips left and 1 committed: a raise to 6 is more than A holds.
    assert_eq!(t.take_action(&addr("client1"), Action::Raise, 6), Err(PokerError::InvalidAction));
    assert_eq!(t.players[0].balance, 4);
    assert_eq!(t.next_player, 0);
}

#[test]
fn raise_moves_the_round_closer() {
    let mut t = two_player_hand();
    assert_eq!(t.take_action(&addr("client1"), Action::Raise, 5), Ok(()));
    assert_eq!(t.players[0].bet, 5);
    assert_eq!(t.players[0].balance, 0);
    assert_eq!(t.min_bet, 5);
    assert_eq!(t.last_player, 0);
    assert_eq!(t.next_player, 1);
    assert_eq!(t.players[0].action, Action::Raise);
    // B cannot cover the call: 3 more chips with 2 left.
    assert_eq!(t.take_action(&addr("client2"), Action::Match, 0), Err(PokerError::InvalidAction));
    assert_eq!(t.take_action(&addr("client2"), Action::Fold, 0), Ok(()));
    assert_eq!(t.stage, GameStage::Join);
    assert_eq!(t.players[0].balance, 7);
    assert_eq!(chips_on_table(&t), 9);
}

#[test]
fn withdraw_errors_and_on_deck() {
    let mut t = two_player_hand();
    assert_eq!(t.withdraw(&addr("nobody")), Err(PokerError::NotAParticipant));
    assert_eq!(t.join_game(&addr("late"), 8, &seed(1)), Ok(false));
    assert_eq!(t.withdraw(&addr("late")), Ok(8));
    assert_eq!(t.on_deck.len(), 0);
    assert_eq!(t.withdraw(&addr("late")), Err(PokerError::NotAParticipant));
}

#[test]
fn withdraw_in_hand_folds_the_bet() {
    let mut t = two_player_hand();
    // B leaves during the hand: the big blind stays in the pot, A wins it.
    assert_eq!(t.withdraw(&addr("client2")), Ok(2));
    assert_eq!(t.stage, GameStage::Join);
    assert_eq!(t.players.len(), 1);
    assert_eq!(t.players[0].balance, 7);
    assert_eq!(chips_on_table(&t) + 2, 9);
}

fn three_player_hand() -> PokerContract {
    let mut t = PokerContract::new(2, 4, 4).unwrap();
    assert_eq!(t.join_game(&addr("a"), 20, &seed(1)), Ok(true));
    assert_eq!(t.join_game(&addr("b"), 20, &seed(2)), Ok(true));
    assert_eq!(t.join_game(&addr("c"), 20, &seed(3)), Ok(true));
    assert_eq!(t.play_hand(&addr("a")), Ok(()));
    t
}

#[test]
fn turn_cycles_through_seats() {
    let mut t = three_player_hand();
    // Dealer 1, small blind 2, big blind 0, first to act 1.
    assert_eq!(t.dealer, 1);
    assert_eq!(t.players[2].bet, 1);
    assert_eq!(t.players[0].bet, 2);
    assert_eq!(t.next_player, 1);
    assert_eq!(t.last_player, 0);
    let names = ["a", "b", "c"];
    let mut seen = Vec::new();
    for _ in 0..3 {
        let seat = t.next_player;
        seen.push(seat);
        let action = if t.players[seat].bet == t.min_bet { Action::Check } else { Action::Match };
        assert_eq!(t.take_action(&addr(names[seat]), action, 0), Ok(()));
        assert!(t.next_player < t.players.len());
    }
    assert_eq!(seen, vec![1, 2, 0]);
    // The round closed on the big blind: flop shown, betting starts left of the dealer.
    assert_eq!(t.cards.len(), 3);
    assert_eq!(t.pot, 6);
    assert_eq!(t.next_player, 2);
    assert_eq!(t.last_player, 1);
}

#[test]
fn fold_reindexes_seats() {
    let mut t = three_player_hand();
    // Seat 1 ("b") acts first and folds.
    assert_eq!(t.take_action(&addr("b"), Action::Fold, 0), Ok(()));
    assert_eq!(t.players.len(), 2);
    assert_eq!(t.players[0].addr, addr("a"));
    assert_eq!(t.players[1].addr, addr("c"));
    assert!(t.players.iter().all(|p| p.addr != addr("b")));
    assert_eq!(t.next_player, 1);
    assert_eq!(t.dealer, 0);
    assert_eq!(t.last_player, 0);
    assert_eq!(t.on_deck.len(), 1);
    assert_eq!(t.on_deck[0].action, Action::Fold);
    assert!(t.on_deck[0].cards.is_empty());
    assert_eq!(t.on_deck[0].balance, 20);
    assert_eq!(chips_on_table(&t), 60);
}

#[test]
fn full_hand_reaches_showdown() {
    let mut t = two_player_hand();
    assert_eq!(t.take_action(&addr("client1"), Action::Match, 0), Ok(()));
    assert_eq!(t.take_action(&addr("client2"), Action::Check, 0), Ok(()));
    assert_eq!(t.cards.len(), 3);
    for board in [4usize, 5] {
        assert_eq!(t.take_action(&addr("client1"), Action::Check, 0), Ok(()));
        assert_eq!(t.take_action(&addr("client2"), Action::Check, 0), Ok(()));
        assert_eq!(t.cards.len(), board);
    }
    assert_eq!(t.stage, GameStage::Play);
    assert_eq!(t.take_action(&addr("client1"), Action::Check, 0), Ok(()));
    assert_eq!(t.take_action(&addr("client2"), Action::Check, 0), Ok(()));
    assert_eq!(t.stage, GameStage::Join);
    assert_eq!(chips_on_table(&t), 9);
    // Four chips were in the pot: one winner takes 4, a tie pays 2 each.
    let a = t.players[0].balance;
    let b = t.players[1].balance;
    assert!((a == 7 && b == 2 && t.pot == 0) || (a == 3 && b == 6 && t.pot == 0) || (a == 5 && b == 4 && t.pot == 0));
    // Nine distinct cards came out of the deck: two hands and the board.
    let mut dealt: Vec<(u8, u8)> = t.cards.clone();
    dealt.extend(t.players[0].cards.iter().copied());
    dealt.extend(t.players[1].cards.iter().copied());
    dealt.sort();
    dealt.dedup();
    assert_eq!(dealt.len(), 9);
}

#[test]
fn same_seed_same_deal() {
    let t1 = two_player_hand();
    let t2 = two_player_hand();
    assert_eq!(t1.deck, t2.deck);
    assert_eq!(t1.players[0].cards, t2.players[0].cards);
    assert_eq!(t1.players[1].cards, t2.players[1].cards);
    // Seat 0 is dealt first here: it holds the first and third cards.
    assert_eq!(t1.players[0].cards, vec![t1.deck[0], t1.deck[2]]);
    assert_eq!(t1.players[1].cards, vec![t1.deck[1], t1.deck[3]]);
    assert_eq!(t1.deck_pos, 4);

    let mut t3 = PokerContract::new(2, 4, 4).unwrap();
    assert_eq!(t3.join_game(&addr("client1"), 5, &seed(8)), Ok(true));
    assert_eq!(t3.join_game(&addr("client2"), 4, &seed(9)), Ok(true));
    assert_eq!(t3.play_hand(&addr("client1")), Ok(()));
    assert_ne!(t1.deck, t3.deck);
}

#[test]
fn queries_do_not_change_the_table() {
    let t = two_player_hand();
    let p1 = t.get_public_state();
    let p2 = t.get_public_state();
    assert_eq!(p1.pot, p2.pot);
    assert_eq!(p1.players.len(), 2);
    assert_eq!(p1.players[0].addr, p2.players[0].addr);
    assert_eq!(p1.players[1].bet, 2);
    assert!(p1.players.iter().all(|p| p.cards.is_empty()));
    assert_eq!(p1.stage, GameStage::Play);
    assert_eq!(p1.min_bet, 2);
    assert_eq!(p1.next_player, p2.next_player);
    assert_eq!(p1.last_player, 1);
    let s1 = t.get_player_state(&addr("client1")).unwrap();
    let s2 = t.get_player_state(&addr("client1")).unwrap();
    assert_eq!(s1.cards, t.players[0].cards);
    assert_eq!(s1.cards, s2.cards);
    assert_eq!(s1.balance, 4);
    assert_eq!(s1.bet, 1);
    assert!(s1.playing);
    assert!(matches!(t.get_player_state(&addr("nobody")), Err(PokerError::NotAParticipant)));
}

fn seated(name: &str, cards: Vec<(u8, u8)>, balance: u64) -> Player {
    Player { addr: addr(name), cards, action: Action::Check, playing: true, bet: 0, balance }
}

fn showdown_table(players: Vec<Player>, board: Vec<(u8, u8)>, pot: u64) -> PokerContract {
    let mut t = PokerContract::new(2, 4, 4).unwrap();
    t.players = players;
    t.cards = board;
    t.pot = pot;
    t.stage = GameStage::Play;
    t
}

// Values: 0 is a two, 12 an ace. Suits: 0 spade, 1 club, 2 heart, 3 diamond.

#[test]
fn showdown_pays_best_hand() {
    let board = vec![(12, 0), (11, 0), (10, 0), (2, 1), (3, 2)];
    let players = vec![
        seated("flush", vec![(9, 0), (8, 0)], 1),
        seated("pair", vec![(12, 1), (0, 3)], 1),
    ];
    let mut t = showdown_table(players, board, 11);
    t.pay_winners();
    assert_eq!(t.stage, GameStage::Join);
    assert_eq!(t.players[0].balance, 12);
    assert_eq!(t.players[1].balance, 1);
    assert_eq!(t.pot, 0);
}

#[test]
fn showdown_splits_ties() {
    // The board is a royal flush: every hand plays it.
    let board = vec![(12, 0), (11, 0), (10, 0), (9, 0), (8, 0)];
    let players = vec![
        seated("a", vec![(0, 1), (1, 2)], 0),
        seated("b", vec![(2, 1), (3, 2)], 0),
        seated("c", vec![(4, 1), (5, 3)], 0),
    ];
    let mut t = showdown_table(players, board, 10);
    t.pay_winners();
    assert_eq!(t.players[0].balance, 3);
    assert_eq!(t.players[1].balance, 3);
    assert_eq!(t.players[2].balance, 3);
    assert_eq!(t.pot, 1);
}

#[test]
fn showdown_two_of_three_tie() {
    let board = vec![(12, 0), (12, 1), (5, 2), (6, 3), (0, 0)];
    let players = vec![
        seated("a", vec![(11, 0), (1, 1)], 0),
        seated("b", vec![(11, 1), (1, 2)], 0),
        seated("c", vec![(10, 2), (1, 3)], 0),
    ];
    let mut t = showdown_table(players, board, 9);
    t.pay_winners();
    assert_eq!(t.players[0].balance, 4);
    assert_eq!(t.players[1].balance, 4);
    assert_eq!(t.players[2].balance, 0);
    assert_eq!(t.pot, 1);
}

#[test]
fn force_timeout_folds_seat_to_act() {
    let mut t = PokerContract::new(2, 4, 4).unwrap();
    assert_eq!(t.force_timeout(), Err(PokerError::WrongStage));
    let mut t = three_player_hand();
    assert_eq!(t.force_timeout(), Ok(()));
    assert_eq!(t.players.len(), 2);
    assert_eq!(t.on_deck[0].addr, addr("b"));
    assert_eq!(t.stage, GameStage::Play);
}

#[test]
fn chips_are_conserved() {
    let mut t = three_player_hand();
    let mut withdrawn = 0;
    assert_eq!(chips_on_table(&t), 60);
    assert_eq!(t.take_action(&addr("b"), Action::Raise, 5), Ok(()));
    assert_eq!(chips_on_table(&t), 60);
    assert_eq!(t.take_action(&addr("c"), Action::Match, 0), Ok(()));
    withdrawn += t.withdraw(&addr("a")).unwrap();
    assert_eq!(chips_on_table(&t) + withdrawn, 60);
    assert_eq!(t.join_game(&addr("d"), 13, &seed(4)), Ok(false));
    assert_eq!(chips_on_table(&t) + withdrawn, 73);
    while t.stage == GameStage::Play {
        assert_eq!(t.force_timeout(), Ok(()));
        assert_eq!(chips_on_table(&t) + withdrawn, 73);
    }
    withdrawn += t.withdraw(&addr("d")).unwrap();
    assert_eq!(chips_on_table(&t) + withdrawn, 73);
}

#[test]
fn player_view_round_trip() {
    let t = two_player_hand();
    let view = t.get_player_state(&addr("client2")).unwrap();
    let p = PokerContract::from_player_state(&view);
    assert_eq!(p.addr, addr("client2"));
    assert_eq!(p.cards, t.players[1].cards);
    assert_eq!(p.bet, 2);
    assert_eq!(p.balance, 2);
    assert!(p.playing);
    assert_eq!(p.action, Action::NoAction);
}

#[test]
fn names_of_actions_and_stages() {
    assert_eq!(Action::Check.to_string(), "Check");
    assert_eq!(Action::NoAction.to_string(), "None");
    assert_eq!(Action::from_string(&"Raise".to_string()), Ok(Action::Raise));
    assert_eq!(Action::from_string(&"Fold".to_string()), Ok(Action::Fold));
    assert_eq!(Action::from_string(&"Bet".to_string()), Err(PokerError::InvalidAction));
    assert_eq!(GameStage::Play.to_string(), "Play");
    assert_eq!(GameStage::from_string(&"Join".to_string()), Ok(GameStage::Join));
    assert_eq!(GameStage::from_string(&"Lobby".to_string()), Err(PokerError::WrongStage));
}

#[test]
fn well_formed_and_deposit_checks() {
    let mut t = two_player_hand();
    assert!(t.is_well_formed());
    assert_eq!(t.chip_count(), Some(9));
    assert!(t.can_deposit(u64::MAX - 9));
    assert!(!t.can_deposit(u64::MAX - 8));
    t.next_player = 5;
    assert!(!t.is_well_formed());
    t.next_player = 0;
    t.on_deck.push(Player { addr: addr("client1"), cards: vec![], action: Action::NoAction, playing: false, bet: 0, balance: 1 });
    assert!(!t.is_well_formed());
    t.on_deck.clear();
    t.pot = u64::MAX;
    assert_eq!(t.chip_count(), None);
    assert!(!t.is_well_formed());
}

#[test]
fn showdown_split_exact() {
    assert_eq!(showdown_split(&vec![5, 9, 9, 2], 11), (9, 2, 5));
    assert_eq!(showdown_split(&vec![7], 10), (7, 1, 10));
    assert_eq!(showdown_split(&vec![3, 3, 3], 10), (3, 3, 3));
    assert_eq!(showdown_split(&vec![0, 0], 0), (0, 2, 0));
}

#[test]
fn dealt_cards_are_distinct() {
    let t = three_player_hand();
    let mut all: Vec<(u8, u8)> = t.players.iter().flat_map(|p| p.cards.iter().copied()).collect();
    assert_eq!(all.len(), 6);
    all.sort();
    all.dedup();
    assert_eq!(all.len(), 6);
    assert_eq!(t.deck.len(), 52);
}

#[test]
fn lone_survivor_resets_seats() {
    let mut t = two_player_hand();
    assert_eq!(t.take_action(&addr("client1"), Action::Fold, 0), Ok(()));
    assert_eq!(t.dealer, 0);
    assert_eq!(t.next_player, 0);
    assert_eq!(t.last_player, 0);
    assert_eq!(t.on_deck.len(), 1);
    assert_eq!(t.on_deck[0].addr, addr("client1"));
}

#[test]
fn withdraw_between_hands_moves_the_button() {
    let mut t = PokerContract::new(2, 4, 4).unwrap();
    for (i, name) in ["a", "b", "c", "d"].iter().enumerate() {
        assert_eq!(t.join_game(&addr(name), 10, &seed(i as u8)), Ok(true));
    }
    t.dealer = 2;
    assert_eq!(t.withdraw(&addr("b")), Ok(10));
    // "c" deals still: it moved from seat 2 to seat 1.
    assert_eq!(t.dealer, 1);
    assert_eq!(t.players[1].addr, addr("c"));
    assert_eq!(t.play_hand(&addr("a")), Ok(()));
    // The button passes on to "d".
    assert_eq!(t.dealer, 2);
    assert_eq!(t.players[2].addr, addr("d"));
}

#[test]
fn withdraw_by_closing_seat_closes_the_round() {
    let mut t = three_player_hand();
    assert_eq!(t.take_action(&addr("b"), Action::Match, 0), Ok(()));
    assert_eq!(t.take_action(&addr("c"), Action::Match, 0), Ok(()));
    assert_eq!(t.next_player, 0);
    assert_eq!(t.last_player, 0);
    // "a" was to act and would close the round; leaving closes it.
    assert_eq!(t.withdraw(&addr("a")), Ok(18));
    assert_eq!(t.players.len(), 2);
    assert_eq!(t.stage, GameStage::Play);
    assert_eq!(t.cards.len(), 3);
    assert_eq!(t.pot, 6);
    assert!(t.players.iter().all(|p| p.bet == 0));
    assert_eq!(chips_on_table(&t), 42);
}
