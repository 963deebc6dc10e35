//! The table: its state, the operations on it and the invariant they keep.
use vstd::prelude::*;
use crate::cards::{shuffle_of, shuffled_deck, standard_deck, CardCode, DECK_SIZE, SEED_LEN, score_hand};
use crate::chips::{
    add_chips, chips, lemma_sum_bets_take, lemma_sum_chips_bounds, lemma_sum_chips_nonneg,
    lemma_sum_chips_push, lemma_sum_chips_remove, lemma_sum_chips_update, sum_bets, sum_chips,
};
use crate::seats::{
    addrs_disjoint, addrs_distinct, check_disjoint, check_distinct, copy_bytes, find_player,
    holds_addr, same_addr,
};
use crate::showdown::{
    count_of, lemma_count_le, lemma_count_take, max_of, scores_of, showdown_paid,
    showdown_split,
};

verus! {

/// Most players a table can seat: two hole cards each, three burnt cards and
/// five community cards must fit in one deck.
pub const MAX_SEATS: u64 = 22;

/// Whether a hand is being played.
#[derive(Clone, Copy, PartialEq, Eq, Debug, Structural)]
pub enum GameStage {
    Join,
    Play,
}

/// What a player did last.
#[derive(Clone, Copy, PartialEq, Eq, Debug, Structural)]
pub enum Action {
    NoAction,
    Check,
    Match,
    Raise,
    Fold,
}

/// Why an operation was refused. A refused operation leaves the table as it was.
#[derive(Clone, Copy, PartialEq, Eq, Debug, Structural)]
pub enum PokerError {
    /// A blind, seat count or time per turn out of range.
    InvalidParameters,
    /// The address is already seated or on deck.
    AlreadyJoined,
    /// The seed does not have the length of the table's seed.
    SeedInvalid,
    /// The operation needs the other stage, or a stage name is unknown.
    WrongStage,
    /// It is not the caller's turn.
    OutOfTurn,
    /// The action is not allowed now, or an action name is unknown.
    InvalidAction,
    /// Fewer than two players would be seated.
    NotEnoughPlayers,
    /// The deck ran out. No operation on a well-formed table returns it: the
    /// invariant keeps enough cards in the deck for the rest of the hand.
    DeckExhausted,
    /// The address is neither seated nor on deck.
    NotAParticipant,
}

impl GameStage {
    pub open spec fn name(self) -> Seq<char> {
        match self {
            GameStage::Join => "Join"@,
            GameStage::Play => "Play"@,
        }
    }

    /// The stage whose name is `s`; any other text is refused.
    pub open spec fn of_name(s: Seq<char>) -> Result<GameStage, PokerError> {
        if s == GameStage::Join.name() {
            Ok(GameStage::Join)
        } else if s == GameStage::Play.name() {
            Ok(GameStage::Play)
        } else {
            Err(PokerError::WrongStage)
        }
    }

    pub fn to_string(&self) -> (r: String)
        ensures
            r@ == self.name(),
    {
        match self {
            GameStage::Join => "Join".to_owned(),
            GameStage::Play => "Play".to_owned(),
        }
    }

    pub fn from_string(s: &String) -> (r: Result<GameStage, PokerError>)
        ensures
            r == GameStage::of_name(s@),
    {
        if s.eq(&"Join".to_owned()) {
            Ok(GameStage::Join)
        } else if s.eq(&"Play".to_owned()) {
            Ok(GameStage::Play)
        } else {
            Err(PokerError::WrongStage)
        }
    }
}

impl Action {
    pub open spec fn name(self) -> Seq<char> {
        match self {
            Action::NoAction => "None"@,
            Action::Check => "Check"@,
            Action::Match => "Match"@,
            Action::Raise => "Raise"@,
            Action::Fold => "Fold"@,
        }
    }

    /// The action whose name is `s`; any other text is refused.
    pub open spec fn of_name(s: Seq<char>) -> Result<Action, PokerError> {
        if s == Action::NoAction.name() {
            Ok(Action::NoAction)
        } else if s == Action::Check.name() {
            Ok(Action::Check)
        } else if s == Action::Match.name() {
            Ok(Action::Match)
        } else if s == Action::Raise.name() {
            Ok(Action::Raise)
        } else if s == Action::Fold.name() {
            Ok(Action::Fold)
        } else {
            Err(PokerError::InvalidAction)
        }
    }

    pub fn to_string(&self) -> (r: String)
        ensures
            r@ == self.name(),
    {
        match self {
            Action::NoAction => "None".to_owned(),
            Action::Check => "Check".to_owned(),
            Action::Match => "Match".to_owned(),
            Action::Raise => "Raise".to_owned(),
            Action::Fold => "Fold".to_owned(),
        }
    }

    pub fn from_string(s: &String) -> (r: Result<Action, PokerError>)
        ensures
            r == Action::of_name(s@),
    {
        if s.eq(&"None".to_owned()) {
            Ok(Action::NoAction)
        } else if s.eq(&"Check".to_owned()) {
            Ok(Action::Check)
        } else if s.eq(&"Match".to_owned()) {
            Ok(Action::Match)
        } else if s.eq(&"Raise".to_owned()) {
            Ok(Action::Raise)
        } else if s.eq(&"Fold".to_owned()) {
            Ok(Action::Fold)
        } else {
            Err(PokerError::InvalidAction)
        }
    }
}

/// A player, seated or waiting on deck.
#[derive(Debug)]
pub struct Player {
    pub addr: Vec<u8>,
    pub cards: Vec<CardCode>,
    pub action: Action,
    pub playing: bool,
    pub bet: u64,
    pub balance: u64,
}

/// The whole state of one table.
#[derive(Debug)]
pub struct PokerContract {
    pub game_id: u64,
    pub blind: u64,
    pub max_players: u64,
    pub time_per_turn: u64,
    /// Seated players; a player's seat is its index.
    pub players: Vec<Player>,
    /// Players waiting for the next hand, first come first seated.
    pub on_deck: Vec<Player>,
    /// Community cards revealed so far.
    pub cards: Vec<CardCode>,
    /// The shuffled deck of the current hand; `deck[deck_pos..]` is undealt.
    pub deck: Vec<CardCode>,
    pub deck_pos: usize,
    pub pot: u64,
    pub min_bet: u64,
    pub dealer: usize,
    pub next_player: usize,
    /// The seat whose turn closes the betting round.
    pub last_player: usize,
    pub stage: GameStage,
    /// The XOR of every joiner's seed.
    pub seed: Vec<u8>,
}

/// Posts a blind of `amount` for `seat`, from its balance into its bet.
fn post_blind(players: &mut Vec<Player>, seat: usize, amount: u64)
    requires
        seat < old(players)@.len(),
        old(players)@[seat as int].bet == 0,
    ensures
        final(players)@.len() == old(players)@.len(),
        forall|i: int| 0 <= i < old(players)@.len() && i != seat ==> #[trigger] final(players)@[i] == old(players)@[i],
        ({
            let p = final(players)@[seat as int];
            let q = old(players)@[seat as int];
            &&& p.bet == posted(q.balance, amount)
            &&& p.balance == q.balance - p.bet
            &&& p.addr == q.addr
            &&& p.cards == q.cards
            &&& p.action == q.action
            &&& p.playing == q.playing
        }),
        sum_chips(final(players)@) == sum_chips(old(players)@),
{
    let posted = if amount <= players[seat].balance { amount } else { players[seat].balance };
    players[seat].bet = posted;
    players[seat].balance = players[seat].balance - posted;
    proof {
        lemma_sum_chips_update(old(players)@, seat as int, players@[seat as int]);
        assert(players@ =~= old(players)@.update(seat as int, players@[seat as int]));
    }
}

/// Gives every seat its two hole cards, dealt one at a time from the top of
/// `deck`, starting at seat `first`.
fn deal_hole_cards(players: &mut Vec<Player>, deck: &Vec<CardCode>, first: usize)
    requires
        2 <= old(players)@.len(),
        2 * old(players)@.len() <= deck@.len() <= DECK_SIZE,
        first < old(players)@.len(),
    ensures
        final(players)@.len() == old(players)@.len(),
        sum_chips(final(players)@) == sum_chips(old(players)@),
        forall|i: int| 0 <= i < old(players)@.len() ==> {
            let p = #[trigger] final(players)@[i];
            let q = old(players)@[i];
            &&& p.addr == q.addr
            &&& p.action == q.action
            &&& p.playing == q.playing
            &&& p.bet == q.bet
            &&& p.balance == q.balance
            &&& p.cards@ == hole_cards(deck@, old(players)@.len() as int, first as int, i)
        },
{
    let m = players.len();
    let mut j: usize = 0;
    while j < m
        invariant
            j <= m,
            m == old(players)@.len(),
            2 * m <= deck@.len() <= DECK_SIZE,
            first < m,
            players@.len() == m,
            sum_chips(players@) == sum_chips(old(players)@),
            forall|i: int| 0 <= i < m ==> {
                let p = #[trigger] players@[i];
                let q = old(players)@[i];
                &&& p.addr == q.addr
                &&& p.action == q.action
                &&& p.playing == q.playing
                &&& p.bet == q.bet
                &&& p.balance == q.balance
            },
            forall|i: int| 0 <= i < j ==> (#[trigger] players@[i]).cards@
                == hole_cards(deck@, m as int, first as int, i),
        decreases m - j,
    {
        let off = (j + m - first) % m;
        let mut hand: Vec<CardCode> = Vec::new();
        hand.push(deck[off]);
        hand.push(deck[off + m]);
        assert(hand@ =~= hole_cards(deck@, m as int, first as int, j as int));
        let ghost before = players@;
        players[j].cards = hand;
        proof {
            lemma_sum_chips_update(before, j as int, players@[j as int]);
            assert(players@ =~= before.update(j as int, players@[j as int]));
        }
        j = j + 1;
    }
}

// ---------------------------------------------------------------------------
// The invariant

/// Cards still to be taken from the deck in a hand whose board holds
/// `shown` cards: one burnt card before each reveal.
pub open spec fn cards_needed(shown: nat) -> nat {
    if shown == 0 {
        8
    } else if shown == 3 {
        4
    } else if shown == 4 {
        2
    } else {
        0
    }
}

pub open spec fn xor_seed(a: Seq<u8>, b: Seq<u8>) -> Seq<u8> {
    Seq::new(a.len(), |i: int| a[i] ^ b[i])
}

/// What a player posts for a blind of `amount`: all of it, or the whole
/// balance where that is less.
pub open spec fn posted(balance: u64, amount: u64) -> u64 {
    if amount <= balance {
        amount
    } else {
        balance
    }
}

/// The hole cards of seat `j` when `m` seats are dealt from `deck`, one card
/// at a time, starting at seat `first`.
pub open spec fn hole_cards(deck: Seq<CardCode>, m: int, first: int, j: int) -> Seq<CardCode> {
    seq![deck[(j - first + m) % m], deck[(j - first + m) % m + m]]
}

/// `a` is `b` moved to another list: same address, chips and last action.
pub open spec fn moved(a: Player, b: Player) -> bool {
    &&& a.addr@ == b.addr@
    &&& a.bet == b.bet
    &&& a.balance == b.balance
    &&& a.action == b.action
}

/// Whether a player holding `p` may take `action` (with `value`, for a
/// raise) when the bet to match is `min_bet`.
pub open spec fn legal(p: Player, min_bet: u64, action: Action, value: u64) -> bool {
    match action {
        Action::NoAction => false,
        Action::Check => p.bet == min_bet,
        Action::Match => min_bet - p.bet <= p.balance,
        Action::Raise => value > 2 * min_bet && value - p.bet <= p.balance,
        Action::Fold => true,
    }
}

/// The player `p` after a check, a call or a raise.
pub open spec fn after_bet(p: Player, min_bet: u64, action: Action, value: u64) -> Player {
    match action {
        Action::Match => Player { action, bet: min_bet, balance: (p.balance - (min_bet - p.bet)) as u64, ..p },
        Action::Raise => Player { action, bet: value, balance: (p.balance - (value - p.bet)) as u64, ..p },
        _ => Player { action, ..p },
    }
}

/// Where a seat index that points at the seat to act lands once seat `i` of
/// `n` is removed: on the seat that followed `i`.
pub open spec fn shift_next(x: int, i: int, n: int) -> int {
    if x > i {
        x - 1
    } else if x == i {
        if i == n - 1 { 0 } else { i }
    } else {
        x
    }
}

/// Where the dealer or the seat that closes the round lands once seat `i`
/// of `n` is removed: on the seat that preceded `i`.
pub open spec fn shift_prev(x: int, i: int, n: int) -> int {
    if x > i {
        x - 1
    } else if x == i {
        if i == 0 { n - 2 } else { i - 1 }
    } else {
        x
    }
}

/// Community cards shown after the next reveal: the flop, then one card.
pub open spec fn next_board_size(shown: nat) -> nat {
    if shown == 0 { 3 } else { shown + 1 }
}

/// A folded player: out of the hand, waiting for the next one.
pub open spec fn folded(r: Player, p: Player) -> bool {
    &&& r.addr == p.addr
    &&& r.cards@.len() == 0
    &&& r.action == Action::Fold
    &&& !r.playing
    &&& r.bet == 0
    &&& r.balance == p.balance
}

/// Tells whether `p` may take `action`, with `value` for a raise, when the
/// bet to match is `min_bet`.
pub fn is_legal(p: &Player, min_bet: u64, action: Action, value: u64) -> (r: bool)
    requires
        p.bet <= min_bet,
    ensures
        r == legal(*p, min_bet, action, value),
{
    match action {
        Action::NoAction => false,
        Action::Check => p.bet == min_bet,
        Action::Match => min_bet - p.bet <= p.balance,
        Action::Raise => (value as u128) > 2 * (min_bet as u128) && value - p.bet <= p.balance,
        Action::Fold => true,
    }
}

/// `t` is the table `o` once the seated player at `i` has left with its
/// balance, as a fold: the seat is removed and the seat indices follow the
/// seats. In a hand the bet stays in the pot, a single player left takes the
/// pot, and a player who was to act and closes the round closes it.
pub open spec fn left_seat(t: PokerContract, o: PokerContract, i: int) -> bool {
    let n = o.players@.len() as int;
    let left = o.players@.remove(i);
    let pot = o.pot + o.players@[i].bet;
    let closes = i == o.next_player && i == o.last_player;
    &&& t.on_deck == o.on_deck
    &&& t.seed == o.seed
    &&& o.stage == GameStage::Join ==> {
        &&& t.players@ == left
        &&& t.same_but_seat_indices(&o)
        &&& t.seat_indices_shifted(&o, i, n)
    }
    &&& o.stage == GameStage::Play && n >= 3 && closes ==> round_closed(
        t,
        left,
        pot as u64,
        o.cards@,
        o.deck@,
        o.deck_pos as int,
        shift_prev(o.dealer as int, i, n),
    )
    &&& o.stage == GameStage::Play && n >= 3 && !closes ==> {
        &&& t.players@ == left
        &&& t.stage == GameStage::Play
        &&& t.pot == pot
        &&& t.next_player == shift_next(o.next_player as int, i, n)
        &&& t.dealer == shift_prev(o.dealer as int, i, n)
        &&& t.last_player == shift_prev(o.last_player as int, i, n)
        &&& t.min_bet == o.min_bet
        &&& t.cards == o.cards
        &&& t.deck == o.deck
        &&& t.deck_pos == o.deck_pos
    }
    &&& o.stage == GameStage::Play && n == 2 ==> {
        &&& t.stage == GameStage::Join
        &&& t.pot == 0
        &&& t.players@ == seq![Player {
            bet: 0,
            balance: (left[0].balance + left[0].bet + pot) as u64,
            ..left[0]
        }]
        &&& t.players@[0].balance == left[0].balance + left[0].bet + pot
    }
}

/// `t` is the table `o` once the player waiting on deck at `j` has left:
/// nothing else changes.
pub open spec fn left_deck(t: PokerContract, o: PokerContract, j: int) -> bool {
    &&& t.on_deck@ == o.on_deck@.remove(j)
    &&& t.players == o.players
    &&& t.seed == o.seed
    &&& t.same_table_fields(&o)
}

/// `t` is the table `o` once the seat to act has folded: the seat is
/// removed, the player waits on deck, the bet goes to the pot and the seat
/// indices follow the seats; a single player left takes the pot, and when the
/// folded seat closed the round the round closes.
pub open spec fn folded_by_seat_to_act(t: PokerContract, o: PokerContract) -> bool {
    let seat = o.next_player as int;
    let n = o.players@.len() as int;
    let closes = seat == o.last_player;
    let left = o.players@.remove(seat);
    let fold_pot = (o.pot + o.players@[seat].bet) as u64;
    let fold_dealer = shift_prev(o.dealer as int, seat, n);
    &&& t.players@.len() == n - 1
    &&& t.on_deck@ == o.on_deck@.push(t.on_deck@.last())
    &&& folded(t.on_deck@.last(), o.players@[seat])
    &&& n - 1 == 1 ==> {
        let other = left[0];
        &&& t.stage == GameStage::Join
        &&& t.pot == 0
        &&& t.players@ == seq![Player {
            bet: 0,
            balance: (other.balance + other.bet + fold_pot) as u64,
            ..other
        }]
        &&& t.players@[0].balance == other.balance + other.bet + fold_pot
        &&& t.dealer == 0
        &&& t.next_player == 0
        &&& t.last_player == 0
    }
    &&& n - 1 >= 2 && !closes ==> {
        &&& t.stage == GameStage::Play
        &&& t.players@ == left
        &&& t.pot == fold_pot
        &&& t.next_player == shift_next(seat, seat, n)
        &&& t.dealer == fold_dealer
        &&& t.last_player == shift_prev(o.last_player as int, seat, n)
        &&& t.min_bet == o.min_bet
        &&& t.cards == o.cards
        &&& t.deck == o.deck
        &&& t.deck_pos == o.deck_pos
    }
    &&& n - 1 >= 2 && closes ==> round_closed(
        t,
        left,
        fold_pot,
        o.cards@,
        o.deck@,
        o.deck_pos as int,
        fold_dealer,
    )
}

/// `t` is what closing a betting round leaves of a hand with the seats
/// `players`, the pot `pot`, the community cards `board`, the deck `deck`
/// dealt up to `deck_pos`, and the dealer seat `dealer`: the bets go to the
/// pot; after the river the showdown is paid and the hand ends, before it the
/// next cards are revealed and betting starts again left of the dealer.
pub open spec fn round_closed(
    t: PokerContract,
    players: Seq<Player>,
    pot: u64,
    board: Seq<CardCode>,
    deck: Seq<CardCode>,
    deck_pos: int,
    dealer: int,
) -> bool {
    let n = players.len() as int;
    let swept = pot + sum_bets(players);
    let shown = next_board_size(board.len());
    &&& t.players@.len() == n
    &&& forall|i: int| 0 <= i < n ==> (#[trigger] t.players@[i]).bet == 0
    &&& forall|i: int| 0 <= i < n ==> (#[trigger] t.players@[i]).addr == players[i].addr
    &&& t.deck@ == deck
    &&& board.len() == 5 ==> {
        &&& t.stage == GameStage::Join
        &&& t.cards@ == board
        &&& showdown_paid(t.players@, t.pot, players, board, swept)
    }
    &&& board.len() < 5 ==> {
        &&& t.stage == GameStage::Play
        &&& forall|i: int| 0 <= i < n ==> #[trigger] t.players@[i] == (Player { bet: 0, ..players[i] })
        &&& t.pot == swept
        &&& t.cards@ == board + deck.subrange(deck_pos + 1, deck_pos + 1 + shown - board.len())
        &&& t.deck_pos == deck_pos + 1 + shown - board.len()
        &&& t.min_bet == 0
        &&& t.dealer == dealer
        &&& t.next_player == (dealer + 1) % n
        &&& t.last_player == dealer
    }
}

impl PokerContract {
    /// How many players on deck get a seat when the next hand starts.
    pub open spec fn promoted(&self) -> int {
        let free = self.max_players - self.players@.len();
        if free <= self.on_deck@.len() {
            free
        } else {
            self.on_deck@.len() as int
        }
    }

    /// The seats of the next hand, in order: the seated players, then the
    /// first players on deck.
    pub open spec fn next_seating(&self) -> Seq<Player> {
        self.players@ + self.on_deck@.take(self.promoted())
    }

    /// `self` is the table `o` once a hand has been started on it.
    pub open spec fn hand_started_from(&self, o: &PokerContract) -> bool {
        let seating = o.next_seating();
        let m = seating.len() as int;
        let dealer = (o.dealer + 1) % m;
        let sb = (dealer + 1) % m;
        let bb = (sb + 1) % m;
        &&& self.game_id == o.game_id
        &&& self.blind == o.blind
        &&& self.max_players == o.max_players
        &&& self.time_per_turn == o.time_per_turn
        &&& self.seed == o.seed
        &&& self.pot == o.pot
        &&& self.on_deck@ == o.on_deck@.skip(o.promoted())
        &&& self.players@.len() == m
        &&& self.deck@ == shuffle_of(o.seed@, standard_deck())
        &&& self.deck@.len() == DECK_SIZE
        &&& self.deck@.to_multiset() == standard_deck().to_multiset()
        &&& self.deck_pos == 2 * m
        &&& self.cards@.len() == 0
        &&& self.dealer == dealer
        &&& self.next_player == (bb + 1) % m
        &&& self.last_player == bb
        &&& self.min_bet == o.blind
        &&& self.stage == GameStage::Play
        &&& forall|j: int| #![trigger self.players@[j]] 0 <= j < m ==> {
            let p = self.players@[j];
            let q = seating[j];
            &&& p.addr@ == q.addr@
            &&& p.action == q.action
            &&& p.playing
            &&& p.cards@ == hole_cards(self.deck@, m, sb, j)
            &&& j == sb ==> p.bet == posted(q.balance, (o.blind / 2) as u64)
            &&& j == bb ==> p.bet == posted(q.balance, o.blind)
            &&& j != sb && j != bb ==> p.bet == 0
            &&& p.balance == q.balance - p.bet
        }
    }

    /// Every chip at the table: the pot and what each player holds.
    pub open spec fn total_chips(&self) -> int {
        self.pot as int + sum_chips(self.players@) + sum_chips(self.on_deck@)
    }

    pub open spec fn is_participant(&self, addr: Seq<u8>) -> bool {
        holds_addr(self.players@, addr) || holds_addr(self.on_deck@, addr)
    }

    /// The invariant that holds between operations, and inside them while a
    /// hand is being wound up.
    pub open spec fn wf_core(&self) -> bool {
        &&& 0 < self.blind
        &&& 0 < self.max_players <= MAX_SEATS
        &&& 0 < self.time_per_turn
        &&& self.players@.len() <= self.max_players
        &&& self.seed@.len() == SEED_LEN
        &&& self.cards@.len() <= 5
        &&& self.deck_pos <= self.deck@.len() <= DECK_SIZE
        &&& addrs_distinct(self.players@)
        &&& addrs_distinct(self.on_deck@)
        &&& addrs_disjoint(self.players@, self.on_deck@)
        &&& forall|i: int|
            0 <= i < self.players@.len() ==> {
                &&& (#[trigger] self.players@[i]).playing
                &&& self.players@[i].bet <= self.min_bet
                &&& self.stage == GameStage::Join ==> self.players@[i].bet == 0
            }
        &&& forall|i: int|
            0 <= i < self.on_deck@.len() ==> {
                &&& !(#[trigger] self.on_deck@[i]).playing
                &&& self.on_deck@[i].bet == 0
            }
        &&& self.total_chips() <= u64::MAX
    }

    /// What a hand in play adds to the invariant: at least two seats, seat
    /// indices in range, and enough cards left for the rest of the board.
    pub open spec fn play_ok(&self) -> bool {
        &&& 2 <= self.players@.len()
        &&& self.dealer < self.players@.len()
        &&& self.next_player < self.players@.len()
        &&& self.last_player < self.players@.len()
        &&& self.cards@.len() != 1 && self.cards@.len() != 2
        &&& self.deck_pos + cards_needed(self.cards@.len()) <= self.deck@.len()
    }

    pub open spec fn wf(&self) -> bool {
        &&& self.wf_core()
        &&& self.stage == GameStage::Play ==> self.play_ok()
    }

    /// Opens a table with the given blind, seat count and time per turn.
    pub fn new(blind: u64, max_players: u64, time_per_turn: u64) -> (r: Result<PokerContract, PokerError>)
        ensures
            (blind == 0 || max_players == 0 || max_players > MAX_SEATS || time_per_turn == 0)
                <==> r == Err::<PokerContract, PokerError>(PokerError::InvalidParameters),
            r matches Err(e) ==> e == PokerError::InvalidParameters,
            r matches Ok(t) ==> {
                &&& t.wf()
                &&& t.game_id as int == (blind + max_players + time_per_turn) % 0x1_0000_0000_0000_0000
                &&& t.blind == blind
                &&& t.max_players == max_players
                &&& t.time_per_turn == time_per_turn
                &&& t.players@.len() == 0
                &&& t.on_deck@.len() == 0
                &&& t.cards@.len() == 0
                &&& t.pot == 0
                &&& t.min_bet == 0
                &&& t.dealer == 0
                &&& t.stage == GameStage::Join
                &&& t.seed@ == Seq::new(SEED_LEN as nat, |i: int| 0u8)
                &&& t.total_chips() == 0
            },
    {
        if max_players > MAX_SEATS || max_players == 0 || blind == 0 || time_per_turn == 0 {
            return Err(PokerError::InvalidParameters);
        }
        let mut seed: Vec<u8> = Vec::new();
        let mut i: usize = 0;
        while i < SEED_LEN
            invariant
                i <= SEED_LEN,
                seed@ == Seq::new(i as nat, |k: int| 0u8),
            decreases SEED_LEN - i,
        {
            seed.push(0u8);
            i = i + 1;
            assert(seed@ =~= Seq::new(i as nat, |k: int| 0u8));
        }
        let t = PokerContract {
            game_id: blind.wrapping_add(max_players).wrapping_add(time_per_turn),
            blind,
            max_players,
            time_per_turn,
            players: Vec::new(),
            on_deck: Vec::new(),
            cards: Vec::new(),
            deck: Vec::new(),
            deck_pos: 0,
            pot: 0,
            min_bet: 0,
            dealer: 0,
            next_player: 0,
            last_player: 0,
            stage: GameStage::Join,
            seed,
        };
        assert(sum_chips(t.players@) == 0);
        assert(sum_chips(t.on_deck@) == 0);
        Ok(t)
    }

    /// Everything but the two player lists and the seed is as in `o`.
    pub open spec fn same_table_fields(&self, o: &PokerContract) -> bool {
        &&& self.same_but_seat_indices(o)
        &&& self.dealer == o.dealer
        &&& self.next_player == o.next_player
        &&& self.last_player == o.last_player
    }

    /// Everything but the two player lists, the seed and the three seat
    /// indices is as in `o`.
    pub open spec fn same_but_seat_indices(&self, o: &PokerContract) -> bool {
        &&& self.game_id == o.game_id
        &&& self.blind == o.blind
        &&& self.max_players == o.max_players
        &&& self.time_per_turn == o.time_per_turn
        &&& self.cards == o.cards
        &&& self.deck == o.deck
        &&& self.deck_pos == o.deck_pos
        &&& self.pot == o.pot
        &&& self.min_bet == o.min_bet
        &&& self.stage == o.stage
    }

    /// The seat indices of `self` are those of `o` once seat `i` of `n` is
    /// removed; with no seat left they restart at 0.
    pub open spec fn seat_indices_shifted(&self, o: &PokerContract, i: int, n: int) -> bool {
        &&& n >= 2 ==> {
            &&& self.next_player == shift_next(o.next_player as int, i, n)
            &&& self.dealer == shift_prev(o.dealer as int, i, n)
            &&& self.last_player == shift_prev(o.last_player as int, i, n)
        }
        &&& n < 2 ==> self.next_player == 0 && self.dealer == 0 && self.last_player == 0
    }

    /// Moves the seat indices as seat `seat` of `n` leaves: an index past it
    /// moves down one, the seat to act passes to the seat that followed, and
    /// the dealer and the seat that closes the round pass to the seat before.
    fn shift_seat_indices(&mut self, seat: usize, n: usize)
        requires
            seat < n,
        ensures
            final(self).seat_indices_shifted(old(self), seat as int, n as int),
            final(self).same_but_seat_indices(old(self)),
            final(self).players == old(self).players,
            final(self).on_deck == old(self).on_deck,
            final(self).seed == old(self).seed,
    {
        if n < 2 {
            self.next_player = 0;
            self.dealer = 0;
            self.last_player = 0;
            return;
        }
        self.next_player = if self.next_player > seat {
            self.next_player - 1
        } else if self.next_player == seat {
            if seat == n - 1 { 0 } else { seat }
        } else {
            self.next_player
        };
        self.dealer = if self.dealer > seat {
            self.dealer - 1
        } else if self.dealer == seat {
            if seat == 0 { n - 2 } else { seat - 1 }
        } else {
            self.dealer
        };
        self.last_player = if self.last_player > seat {
            self.last_player - 1
        } else if self.last_player == seat {
            if seat == 0 { n - 2 } else { seat - 1 }
        } else {
            self.last_player
        };
    }

    /// Adds a player with `deposit` chips. The player is seated at once where
    /// no hand is being played and a seat is free (the result is then `true`),
    /// and waits on deck otherwise. The seed is folded into the table's seed.
    pub fn join_game(&mut self, msg_sender: &Vec<u8>, deposit: u64, seed: &Vec<u8>) -> (r: Result<bool, PokerError>)
        requires
            old(self).wf(),
            old(self).total_chips() + deposit <= u64::MAX,
        ensures
            final(self).wf(),
            r is Err ==> *final(self) == *old(self),
            seed@.len() != SEED_LEN <==> r == Err::<bool, PokerError>(PokerError::SeedInvalid),
            (seed@.len() == SEED_LEN && old(self).is_participant(msg_sender@))
                <==> r == Err::<bool, PokerError>(PokerError::AlreadyJoined),
            r matches Err(e) ==> e == PokerError::SeedInvalid || e == PokerError::AlreadyJoined,
            r matches Ok(joined) ==> {
                let seated = old(self).stage == GameStage::Join
                    && old(self).players@.len() < old(self).max_players;
                &&& joined == seated
                &&& final(self).seed@ == xor_seed(old(self).seed@, seed@)
                &&& final(self).same_table_fields(old(self))
                &&& final(self).total_chips() == old(self).total_chips() + deposit
                &&& seated ==> final(self).on_deck@ == old(self).on_deck@
                &&& seated ==> final(self).players@ == old(self).players@.push(final(self).players@.last())
                &&& !seated ==> final(self).players@ == old(self).players@
                &&& !seated ==> final(self).on_deck@ == old(self).on_deck@.push(final(self).on_deck@.last())
                &&& {
                    let p = if seated { final(self).players@.last() } else { final(self).on_deck@.last() };
                    &&& p.addr@ == msg_sender@
                    &&& p.cards@.len() == 0
                    &&& p.action == Action::NoAction
                    &&& p.playing == seated
                    &&& p.bet == 0
                    &&& p.balance == deposit
                }
            },
    {
        if seed.len() != SEED_LEN {
            return Err(PokerError::SeedInvalid);
        }
        if find_player(&self.players, msg_sender).is_some() {
            return Err(PokerError::AlreadyJoined);
        }
        if find_player(&self.on_deck, msg_sender).is_some() {
            return Err(PokerError::AlreadyJoined);
        }
        let mut i: usize = 0;
        while i < SEED_LEN
            invariant
                i <= SEED_LEN,
                seed@.len() == SEED_LEN,
                self.seed@.len() == SEED_LEN,
                forall|k: int| 0 <= k < i ==> self.seed@[k] == old(self).seed@[k] ^ seed@[k],
                forall|k: int| i <= k < SEED_LEN ==> self.seed@[k] == old(self).seed@[k],
                self.players == old(self).players,
                self.on_deck == old(self).on_deck,
                self.same_table_fields(old(self)),
            decreases SEED_LEN - i,
        {
            let b = self.seed[i] ^ seed[i];
            self.seed.set(i, b);
            i = i + 1;
        }
        assert(self.seed@ =~= xor_seed(old(self).seed@, seed@));
        let seated = self.stage == GameStage::Join && (self.players.len() as u64) < self.max_players;
        let new_player = Player {
            addr: copy_bytes(msg_sender),
            cards: Vec::new(),
            action: Action::NoAction,
            playing: seated,
            bet: 0,
            balance: deposit,
        };
        proof {
            lemma_sum_chips_push(self.players@, new_player);
            lemma_sum_chips_push(self.on_deck@, new_player);
        }
        if seated {
            self.players.push(new_player);
        } else {
            self.on_deck.push(new_player);
        }
        Ok(seated)
    }

    /// Starts a hand: seats players from the deck, shuffles under the table's
    /// seed, moves the dealer one seat on, posts the blinds and deals two
    /// cards to every seat.
    #[verifier::rlimit(40)]
    pub fn play_hand(&mut self, msg_sender: &Vec<u8>) -> (r: Result<(), PokerError>)
        requires
            old(self).wf(),
        ensures
            final(self).wf(),
            r is Err ==> *final(self) == *old(self),
            old(self).stage != GameStage::Join <==> r == Err::<(), PokerError>(PokerError::WrongStage),
            (old(self).stage == GameStage::Join && old(self).next_seating().len() < 2)
                <==> r == Err::<(), PokerError>(PokerError::NotEnoughPlayers),
            (old(self).stage == GameStage::Join && old(self).next_seating().len() >= 2
                && !holds_addr(old(self).next_seating(), msg_sender@))
                <==> r == Err::<(), PokerError>(PokerError::NotAParticipant),
            r matches Err(e) ==> e == PokerError::WrongStage || e == PokerError::NotEnoughPlayers
                || e == PokerError::NotAParticipant,
            r is Ok ==> final(self).hand_started_from(old(self)),
            final(self).total_chips() == old(self).total_chips(),
    {
        if self.stage != GameStage::Join {
            return Err(PokerError::WrongStage);
        }
        let n = self.players.len();
        let free = (self.max_players - n as u64) as usize;
        let k = if free <= self.on_deck.len() { free } else { self.on_deck.len() };
        let m = n + k;
        assert(old(self).next_seating().len() == m);
        if m < 2 {
            return Err(PokerError::NotEnoughPlayers);
        }
        if !self.seated_next_hand(msg_sender, k) {
            return Err(PokerError::NotAParticipant);
        }
        self.promote(k);
        assert(self.on_deck@ == old(self).on_deck@.skip(k as int));
        let deck = shuffled_deck(&self.seed);
        let dealer = (self.dealer % m + 1) % m;
        assert(dealer == (old(self).dealer + 1) % (m as int)) by {
            vstd::arithmetic::div_mod::lemma_add_mod_noop(self.dealer as int, 1, m as int);
            vstd::arithmetic::div_mod::lemma_small_mod(1, m as nat);
        }
        let sb = (dealer + 1) % m;
        let bb = (sb + 1) % m;
        proof {
            if sb + 1 < m {
                vstd::arithmetic::div_mod::lemma_small_mod((sb + 1) as nat, m as nat);
            } else {
                vstd::arithmetic::div_mod::lemma_mod_self_0(m as int);
            }
        }
        assert(sb != bb);
        let ghost p0 = self.players@;
        let amount = self.blind / 2;
        post_blind(&mut self.players, sb, amount);
        let ghost p1 = self.players@;
        let amount = self.blind;
        post_blind(&mut self.players, bb, amount);
        let ghost p2 = self.players@;
        deal_hole_cards(&mut self.players, &deck, sb);
        self.deck = deck;
        self.deck_pos = 2 * m;
        self.cards = Vec::new();
        self.dealer = dealer;
        self.min_bet = self.blind;
        self.next_player = (bb + 1) % m;
        self.last_player = bb;
        self.stage = GameStage::Play;
        let ghost seating = old(self).next_seating();
        assert forall|j: int| 0 <= j < m implies {
            let p = #[trigger] self.players@[j];
            let q = seating[j];
            &&& p.addr@ == q.addr@
            &&& p.action == q.action
            &&& p.playing
            &&& p.cards@ == hole_cards(self.deck@, m as int, sb as int, j)
            &&& j == sb ==> p.bet == posted(q.balance, (old(self).blind / 2) as u64)
            &&& j == bb ==> p.bet == posted(q.balance, old(self).blind)
            &&& j != sb && j != bb ==> p.bet == 0
            &&& p.balance == q.balance - p.bet
            &&& p.bet <= self.min_bet
        } by {
            assert(moved(p0[j], seating[j]));
            if j == sb {
                assert(p2[j] == p1[j]);
            } else if j == bb {
            } else {
                assert(p1[j] == p0[j]);
                assert(p2[j] == p1[j]);
            }
        }
        assert forall|i: int| 0 <= i < self.on_deck@.len() implies {
            &&& !(#[trigger] self.on_deck@[i]).playing
            &&& self.on_deck@[i].bet == 0
        } by {
            assert(self.on_deck@[i] == old(self).on_deck@[i + k]);
        }
        Ok(())
    }

    /// Seats the first `k` players on deck, in order.
    fn promote(&mut self, k: usize)
        requires
            old(self).wf(),
            old(self).stage == GameStage::Join,
            k == old(self).promoted(),
        ensures
            final(self).players@.len() == old(self).next_seating().len(),
            final(self).on_deck@ == old(self).on_deck@.skip(k as int),
            forall|j: int| 0 <= j < final(self).players@.len() ==> {
                &&& moved(#[trigger] final(self).players@[j], old(self).next_seating()[j])
                &&& final(self).players@[j].playing
                &&& final(self).players@[j].bet == 0
            },
            sum_chips(final(self).players@) + sum_chips(final(self).on_deck@)
                == sum_chips(old(self).players@) + sum_chips(old(self).on_deck@),
            final(self).same_table_fields(old(self)),
            final(self).seed == old(self).seed,
            addrs_distinct(final(self).players@),
            addrs_distinct(final(self).on_deck@),
            addrs_disjoint(final(self).players@, final(self).on_deck@),
    {
        let n = self.players.len();
        let ghost seating = old(self).next_seating();
        let ghost everyone = old(self).players@ + old(self).on_deck@;
        assert(addrs_distinct(everyone)) by {
            assert forall|a: int, b: int| 0 <= a < b < everyone.len() implies
                everyone[a].addr@ != everyone[b].addr@ by {
                if b < n {
                } else if a >= n {
                    assert(everyone[a] == old(self).on_deck@[a - n]);
                    assert(everyone[b] == old(self).on_deck@[b - n]);
                } else {
                    assert(everyone[b] == old(self).on_deck@[b - n]);
                }
            }
        }
        let mut t: usize = 0;
        while t < k
            invariant
                old(self).wf(),
                t <= k,
                n == old(self).players@.len(),
                k == old(self).promoted(),
                seating == old(self).next_seating(),
                everyone == old(self).players@ + old(self).on_deck@,
                self.players@.len() == n + t,
                self.on_deck@ == old(self).on_deck@.skip(t as int),
                forall|j: int| 0 <= j < n + t ==> moved(#[trigger] self.players@[j], seating[j]),
                forall|j: int| 0 <= j < n + t ==> (#[trigger] self.players@[j]).playing,
                forall|j: int| 0 <= j < n + t ==> (#[trigger] self.players@[j]).bet == 0,
                sum_chips(self.players@) + sum_chips(self.on_deck@)
                    == sum_chips(old(self).players@) + sum_chips(old(self).on_deck@),
                self.same_table_fields(old(self)),
                self.seed == old(self).seed,
            decreases k - t,
        {
            proof {
                lemma_sum_chips_remove(self.on_deck@, 0);
            }
            assert(self.on_deck@[0] == old(self).on_deck@[t as int]);
            let mut p = self.on_deck.remove(0);
            p.playing = true;
            proof {
                lemma_sum_chips_push(self.players@, p);
                assert(seating[n + t] == old(self).on_deck@[t as int]);
            }
            self.players.push(p);
            assert(self.on_deck@ =~= old(self).on_deck@.skip(t + 1));
            t = t + 1;
        }
        let m = n + k;
        assert forall|a: int, b: int| 0 <= a < b < m implies
            self.players@[a].addr@ != self.players@[b].addr@ by {
            assert(seating[a] == everyone[a]);
            assert(seating[b] == everyone[b]);
        }
        assert forall|a: int, b: int| 0 <= a < b < self.on_deck@.len() implies
            self.on_deck@[a].addr@ != self.on_deck@[b].addr@ by {
            assert(self.on_deck@[a] == everyone[m + a]);
            assert(self.on_deck@[b] == everyone[m + b]);
        }
        assert forall|a: int, b: int| 0 <= a < m && 0 <= b < self.on_deck@.len() implies
            self.players@[a].addr@ != self.on_deck@[b].addr@ by {
            assert(seating[a] == everyone[a]);
            assert(self.on_deck@[b] == everyone[m + b]);
        }
    }

    /// Tells whether `addr` holds a seat in the next hand, `k` being the
    /// number of players on deck that the hand seats.
    fn seated_next_hand(&self, addr: &Vec<u8>, k: usize) -> (r: bool)
        requires
            k == self.promoted(),
            self.on_deck@.len() >= k,
            addrs_distinct(self.on_deck@),
        ensures
            r == holds_addr(self.next_seating(), addr@),
    {
        let n = self.players.len();
        let ghost seating = self.next_seating();
        match find_player(&self.players, addr) {
            Some(i) => {
                assert(seating[i as int] == self.players@[i as int]);
                true
            },
            None => match find_player(&self.on_deck, addr) {
                Some(i) => {
                    if i >= k {
                        assert forall|j: int| 0 <= j < seating.len() implies
                            seating[j].addr@ != addr@ by {
                            if j >= n {
                                assert(seating[j] == self.on_deck@[j - n]);
                                assert(j - n < i);
                            }
                        }
                        false
                    } else {
                        assert(seating[n + i] == self.on_deck@[i as int]);
                        true
                    }
                },
                None => {
                    assert forall|j: int| 0 <= j < seating.len() implies
                        seating[j].addr@ != addr@ by {
                        if j >= n {
                            assert(seating[j] == self.on_deck@[j - n]);
                        }
                    }
                    false
                },
            },
        }
    }

    /// Applies a check, a call or a raise of the seat to act.
    fn apply_bet(&mut self, seat: usize, action: Action, value: u64)
        requires
            old(self).wf(),
            old(self).stage == GameStage::Play,
            seat == old(self).next_player,
            action == Action::Check || action == Action::Match || action == Action::Raise,
            legal(old(self).players@[seat as int], old(self).min_bet, action, value),
        ensures
            final(self).wf(),
            final(self).total_chips() == old(self).total_chips(),
            final(self).players@ == old(self).players@.update(
                seat as int,
                after_bet(old(self).players@[seat as int], old(self).min_bet, action, value),
            ),
            final(self).min_bet == if action == Action::Raise { value } else { old(self).min_bet },
            final(self).last_player == if action == Action::Raise { seat } else { old(self).last_player },
            final(self).on_deck == old(self).on_deck,
            final(self).seed == old(self).seed,
            final(self).pot == old(self).pot,
            final(self).cards == old(self).cards,
            final(self).deck == old(self).deck,
            final(self).deck_pos == old(self).deck_pos,
            final(self).dealer == old(self).dealer,
            final(self).next_player == old(self).next_player,
            final(self).stage == old(self).stage,
            final(self).game_id == old(self).game_id,
            final(self).blind == old(self).blind,
            final(self).max_players == old(self).max_players,
            final(self).time_per_turn == old(self).time_per_turn,
    {
        let ghost before = self.players@;
        let ghost target = after_bet(old(self).players@[seat as int], old(self).min_bet, action, value);
        match action {
            Action::Match => {
                let delta = self.min_bet - self.players[seat].bet;
                self.players[seat].bet = self.min_bet;
                self.players[seat].balance = self.players[seat].balance - delta;
            },
            Action::Raise => {
                let delta = value - self.players[seat].bet;
                self.players[seat].bet = value;
                self.players[seat].balance = self.players[seat].balance - delta;
                self.min_bet = value;
                self.last_player = seat;
            },
            _ => {},
        }
        self.players[seat].action = action;
        proof {
            assert(self.players@ =~= before.update(seat as int, target));
            lemma_sum_chips_update(before, seat as int, target);
        }
    }

    /// Takes seat `seat` out of the hand: its bet goes to the pot, the seats
    /// after it move down by one, and the seat indices follow them. Returns
    /// the player, folded.
    fn fold_player(&mut self, seat: usize) -> (r: Player)
        requires
            old(self).wf(),
            old(self).stage == GameStage::Play,
            seat < old(self).players@.len(),
        ensures
            final(self).players@ == old(self).players@.remove(seat as int),
            folded(r, old(self).players@[seat as int]),
            final(self).pot == old(self).pot + old(self).players@[seat as int].bet,
            final(self).next_player == shift_next(old(self).next_player as int, seat as int, old(self).players@.len() as int),
            final(self).dealer == shift_prev(old(self).dealer as int, seat as int, old(self).players@.len() as int),
            final(self).last_player == shift_prev(old(self).last_player as int, seat as int, old(self).players@.len() as int),
            final(self).on_deck == old(self).on_deck,
            final(self).seed == old(self).seed,
            final(self).cards == old(self).cards,
            final(self).deck == old(self).deck,
            final(self).deck_pos == old(self).deck_pos,
            final(self).min_bet == old(self).min_bet,
            final(self).stage == old(self).stage,
            final(self).game_id == old(self).game_id,
            final(self).blind == old(self).blind,
            final(self).max_players == old(self).max_players,
            final(self).time_per_turn == old(self).time_per_turn,
            final(self).pot as int + sum_chips(final(self).players@) + chips(r)
                == old(self).pot as int + sum_chips(old(self).players@),
    {
        let n = self.players.len();
        proof {
            lemma_sum_chips_remove(self.players@, seat as int);
            lemma_sum_chips_bounds(self.players@, seat as int);
            lemma_sum_chips_nonneg(self.on_deck@);
        }
        let mut p = self.players.remove(seat);
        self.pot = self.pot + p.bet;
        p.bet = 0;
        p.cards = Vec::new();
        p.action = Action::Fold;
        p.playing = false;
        self.shift_seat_indices(seat, n);
        p
    }

    /// Moves every seat's bet into the pot.
    fn sweep_bets(&mut self)
        requires
            old(self).wf_core(),
        ensures
            final(self).wf_core(),
            final(self).total_chips() == old(self).total_chips(),
            final(self).pot == old(self).pot + sum_bets(old(self).players@),
            final(self).players@.len() == old(self).players@.len(),
            forall|i: int| 0 <= i < old(self).players@.len() ==>
                #[trigger] final(self).players@[i] == (Player { bet: 0, ..old(self).players@[i] }),
            final(self).on_deck == old(self).on_deck,
            final(self).seed == old(self).seed,
            final(self).cards == old(self).cards,
            final(self).deck == old(self).deck,
            final(self).deck_pos == old(self).deck_pos,
            final(self).min_bet == old(self).min_bet,
            final(self).dealer == old(self).dealer,
            final(self).next_player == old(self).next_player,
            final(self).last_player == old(self).last_player,
            final(self).stage == old(self).stage,
            final(self).game_id == old(self).game_id,
            final(self).blind == old(self).blind,
            final(self).max_players == old(self).max_players,
            final(self).time_per_turn == old(self).time_per_turn,
    {
        let n = self.players.len();
        let mut i: usize = 0;
        proof {
            lemma_sum_chips_nonneg(self.on_deck@);
            assert(old(self).players@.take(0) =~= Seq::<Player>::empty());
        }
        while i < n
            invariant
                old(self).wf_core(),
                i <= n == self.players@.len() == old(self).players@.len(),
                self.pot as int + sum_chips(self.players@) == old(self).pot as int + sum_chips(old(self).players@),
                old(self).pot as int + sum_chips(old(self).players@) <= u64::MAX,
                self.pot == old(self).pot + sum_bets(old(self).players@.take(i as int)),
                forall|j: int| 0 <= j < i ==> #[trigger] self.players@[j] == (Player { bet: 0, ..old(self).players@[j] }),
                forall|j: int| i <= j < n ==> #[trigger] self.players@[j] == old(self).players@[j],
                self.on_deck == old(self).on_deck,
                self.seed == old(self).seed,
                self.cards == old(self).cards,
                self.deck == old(self).deck,
                self.deck_pos == old(self).deck_pos,
                self.min_bet == old(self).min_bet,
                self.dealer == old(self).dealer,
                self.next_player == old(self).next_player,
                self.last_player == old(self).last_player,
                self.stage == old(self).stage,
                self.game_id == old(self).game_id,
                self.blind == old(self).blind,
                self.max_players == old(self).max_players,
                self.time_per_turn == old(self).time_per_turn,
            decreases n - i,
        {
            let ghost before = self.players@;
            proof {
                lemma_sum_bets_take(old(self).players@, i as int);
                lemma_sum_chips_bounds(before, i as int);
                lemma_sum_chips_update(before, i as int, Player { bet: 0, ..before[i as int] });
            }
            self.pot = self.pot + self.players[i].bet;
            self.players[i].bet = 0;
            assert(self.players@ =~= before.update(i as int, Player { bet: 0, ..before[i as int] }));
            i = i + 1;
        }
        assert(old(self).players@.take(n as int) =~= old(self).players@);
    }

    /// Burns a card and reveals the next community cards: three for the flop,
    /// then one.
    fn turn_card(&mut self)
        requires
            old(self).wf(),
            old(self).stage == GameStage::Play,
            old(self).cards@.len() < 5,
        ensures
            final(self).wf(),
            final(self).cards@.len() == next_board_size(old(self).cards@.len()),
            final(self).cards@ == old(self).cards@ + old(self).deck@.subrange(
                old(self).deck_pos + 1,
                old(self).deck_pos + 1 + next_board_size(old(self).cards@.len()) - old(self).cards@.len(),
            ),
            final(self).deck_pos == old(self).deck_pos + 1 + next_board_size(old(self).cards@.len()) - old(self).cards@.len(),
            final(self).players == old(self).players,
            final(self).on_deck == old(self).on_deck,
            final(self).seed == old(self).seed,
            final(self).deck == old(self).deck,
            final(self).pot == old(self).pot,
            final(self).min_bet == old(self).min_bet,
            final(self).dealer == old(self).dealer,
            final(self).next_player == old(self).next_player,
            final(self).last_player == old(self).last_player,
            final(self).stage == old(self).stage,
            final(self).game_id == old(self).game_id,
            final(self).blind == old(self).blind,
            final(self).max_players == old(self).max_players,
            final(self).time_per_turn == old(self).time_per_turn,
    {
        let count: usize = if self.cards.len() == 0 { 3 } else { 1 };
        let start = self.deck_pos + 1;
        let mut j: usize = 0;
        while j < count
            invariant
                old(self).wf(),
                old(self).stage == GameStage::Play,
                old(self).cards@.len() < 5,
                count == next_board_size(old(self).cards@.len()) - old(self).cards@.len(),
                start == old(self).deck_pos + 1,
                start + count <= old(self).deck@.len(),
                j <= count,
                self.cards@ == old(self).cards@ + old(self).deck@.subrange(start as int, start + j),
                self.players == old(self).players,
                self.on_deck == old(self).on_deck,
                self.seed == old(self).seed,
                self.deck == old(self).deck,
                self.deck_pos == old(self).deck_pos,
                self.pot == old(self).pot,
                self.min_bet == old(self).min_bet,
                self.dealer == old(self).dealer,
                self.next_player == old(self).next_player,
                self.last_player == old(self).last_player,
                self.stage == old(self).stage,
                self.game_id == old(self).game_id,
                self.blind == old(self).blind,
                self.max_players == old(self).max_players,
                self.time_per_turn == old(self).time_per_turn,
            decreases count - j,
        {
            let c = self.deck[start + j];
            self.cards.push(c);
            j = j + 1;
            assert(self.cards@ =~= old(self).cards@ + old(self).deck@.subrange(start as int, start + j));
        }
        self.deck_pos = start + count;
    }

    /// Pays the showdown: every seat whose hand scores highest gets an equal
    /// share of the pot, `pot / winners`; what cannot be split stays in the pot.
    /// The bets must already be in the pot; the hand ends.
    pub fn pay_winners(&mut self)
        requires
            old(self).wf_core(),
            old(self).players@.len() >= 1,
            forall|i: int| 0 <= i < old(self).players@.len() ==> (#[trigger] old(self).players@[i]).bet == 0,
        ensures
            final(self).wf_core(),
            final(self).total_chips() == old(self).total_chips(),
            ({
                let scores = scores_of(old(self).players@, old(self).cards@);
                let best = max_of(scores);
                let winners = count_of(scores, best);
                let share = old(self).pot as int / winners as int;
                &&& winners >= 1
                &&& final(self).pot == old(self).pot - share * winners
                &&& share * winners <= old(self).pot
                &&& final(self).players@.len() == old(self).players@.len()
                &&& forall|i: int| 0 <= i < old(self).players@.len() ==>
                    #[trigger] final(self).players@[i] == (Player {
                        balance: (old(self).players@[i].balance + if scores[i] == best { share } else { 0 }) as u64,
                        ..old(self).players@[i]
                    })
                &&& forall|i: int| 0 <= i < old(self).players@.len() ==>
                    #[trigger] final(self).players@[i].balance
                        == old(self).players@[i].balance + if scores[i] == best { share } else { 0 }
            }),
            final(self).on_deck == old(self).on_deck,
            final(self).seed == old(self).seed,
            final(self).cards == old(self).cards,
            final(self).deck == old(self).deck,
            final(self).deck_pos == old(self).deck_pos,
            final(self).min_bet == old(self).min_bet,
            final(self).dealer == old(self).dealer,
            final(self).next_player == old(self).next_player,
            final(self).last_player == old(self).last_player,
            final(self).stage == GameStage::Join,
            final(self).game_id == old(self).game_id,
            final(self).blind == old(self).blind,
            final(self).max_players == old(self).max_players,
            final(self).time_per_turn == old(self).time_per_turn,
    {
        let n = self.players.len();
        let ghost ss = scores_of(old(self).players@, old(self).cards@);
        let mut scores: Vec<u64> = Vec::new();
        let mut i: usize = 0;
        while i < n
            invariant
                i <= n == self.players@.len(),
                self.players == old(self).players,
                self.cards == old(self).cards,
                ss == scores_of(old(self).players@, old(self).cards@),
                scores@ == ss.take(i as int),
            decreases n - i,
        {
            let sc = score_hand(&self.players[i].cards, &self.cards);
            scores.push(sc);
            i = i + 1;
            assert(scores@ =~= ss.take(i as int));
        }
        assert(scores@ =~= ss);
        let (best, winners, share) = showdown_split(&scores, self.pot);
        let ghost k = winners as int;
        let ghost pot0 = self.pot as int;
        proof {
            lemma_sum_chips_nonneg(self.on_deck@);
            assert(ss.take(0) =~= Seq::<u64>::empty());
            assert(count_of(ss.take(0), best) == 0);
        }
        let mut i: usize = 0;
        while i < n
            invariant
                old(self).wf_core(),
                i <= n == self.players@.len() == old(self).players@.len(),
                scores@ == ss,
                ss.len() == n,
                best == max_of(ss),
                k == count_of(ss, best),
                k >= 1,
                share == pot0 / k,
                pot0 == old(self).pot,
                share * k <= pot0,
                self.pot as int == pot0 - share * count_of(ss.take(i as int), best),
                self.pot as int + sum_chips(self.players@) == old(self).pot as int + sum_chips(old(self).players@),
                self.pot as int + sum_chips(self.players@) <= u64::MAX,
                forall|j: int| 0 <= j < i ==> #[trigger] self.players@[j] == (Player {
                    balance: (old(self).players@[j].balance + if ss[j] == best { share } else { 0 }) as u64,
                    ..old(self).players@[j]
                }),
                forall|j: int| 0 <= j < i ==> #[trigger] self.players@[j].balance
                    == old(self).players@[j].balance + if ss[j] == best { share } else { 0 },
                forall|j: int| i <= j < n ==> #[trigger] self.players@[j] == old(self).players@[j],
                self.on_deck == old(self).on_deck,
                self.seed == old(self).seed,
                self.cards == old(self).cards,
                self.deck == old(self).deck,
                self.deck_pos == old(self).deck_pos,
                self.min_bet == old(self).min_bet,
                self.dealer == old(self).dealer,
                self.next_player == old(self).next_player,
                self.last_player == old(self).last_player,
                self.stage == old(self).stage,
                self.game_id == old(self).game_id,
                self.blind == old(self).blind,
                self.max_players == old(self).max_players,
                self.time_per_turn == old(self).time_per_turn,
            decreases n - i,
        {
            proof {
                lemma_count_take(ss, best, i as int);
                lemma_count_le(ss, best, i + 1);
            }
            if scores[i] == best {
                let ghost c = count_of(ss.take(i as int), best) as int;
                proof {
                    vstd::arithmetic::mul::lemma_mul_inequality(c + 1, k, share as int);
                    vstd::arithmetic::mul::lemma_mul_is_distributive_add(share as int, c, 1);
                    lemma_sum_chips_bounds(self.players@, i as int);
                }
                let ghost before = self.players@;
                let ghost target = Player { balance: (before[i as int].balance + share) as u64, ..before[i as int] };
                proof {
                    lemma_sum_chips_update(before, i as int, target);
                }
                self.players[i].balance = self.players[i].balance + share;
                self.pot = self.pot - share;
                assert(self.players@ =~= before.update(i as int, target));
            }
            i = i + 1;
        }
        assert(ss.take(n as int) =~= ss);
        self.stage = GameStage::Join;
    }

    /// Gives the pot and every bet to the one player left in the hand, and
    /// ends the hand.
    fn award_last(&mut self)
        requires
            old(self).wf_core(),
            old(self).stage == GameStage::Play,
            old(self).players@.len() == 1,
        ensures
            final(self).wf(),
            final(self).total_chips() == old(self).total_chips(),
            final(self).stage == GameStage::Join,
            final(self).pot == 0,
            final(self).players@ == seq![Player {
                bet: 0,
                balance: (old(self).players@[0].balance + old(self).players@[0].bet + old(self).pot) as u64,
                ..old(self).players@[0]
            }],
            final(self).players@[0].balance == old(self).players@[0].balance + old(self).players@[0].bet + old(self).pot,
            final(self).dealer == 0,
            final(self).next_player == 0,
            final(self).last_player == 0,
            final(self).seed == old(self).seed,
            final(self).on_deck == old(self).on_deck,
    {
        proof {
            lemma_sum_chips_nonneg(self.on_deck@);
            assert(self.players@.drop_last() =~= Seq::<Player>::empty());
            assert(sum_chips(self.players@.drop_last()) == 0);
            assert(sum_chips(self.players@) == chips(self.players@[0]));
        }
        let ghost before = self.players@;
        let gain = self.players[0].bet + self.pot;
        self.players[0].balance = self.players[0].balance + gain;
        self.players[0].bet = 0;
        self.pot = 0;
        self.stage = GameStage::Join;
        self.dealer = 0;
        self.next_player = 0;
        self.last_player = 0;
        proof {
            assert(self.players@.drop_last() =~= Seq::<Player>::empty());
            assert(self.players@ =~= seq![Player {
                bet: 0,
                balance: (before[0].balance + before[0].bet + old(self).pot) as u64,
                ..before[0]
            }]);
        }
    }

    /// Closes a betting round: the bets go to the pot; after the river the
    /// showdown is paid and the hand ends, before it the next cards are
    /// revealed and betting starts again left of the dealer.
    fn close_round(&mut self)
        requires
            old(self).wf(),
            old(self).stage == GameStage::Play,
        ensures
            final(self).wf(),
            final(self).total_chips() == old(self).total_chips(),
            final(self).players@.len() == old(self).players@.len(),
            final(self).on_deck == old(self).on_deck,
            final(self).seed == old(self).seed,
            round_closed(
                *final(self),
                old(self).players@,
                old(self).pot,
                old(self).cards@,
                old(self).deck@,
                old(self).deck_pos as int,
                old(self).dealer as int,
            ),
    {
        self.sweep_bets();
        if self.cards.len() == 5 {
            let ghost swept = self.players@;
            assert(scores_of(swept, self.cards@) =~= scores_of(old(self).players@, old(self).cards@));
            self.pay_winners();
            assert forall|i: int| 0 <= i < swept.len() implies
                #[trigger] swept[i] == (Player { bet: 0, ..old(self).players@[i] }) by {}
        } else {
            self.turn_card();
            let n = self.players.len();
            self.min_bet = 0;
            self.next_player = (self.dealer + 1) % n;
            self.last_player = self.dealer;
        }
    }

    /// Folds seat `seat` and puts the player on deck for the next hand.
    fn fold_to_deck(&mut self, seat: usize)
        requires
            old(self).wf(),
            old(self).stage == GameStage::Play,
            seat < old(self).players@.len(),
        ensures
            final(self).wf_core(),
            final(self).total_chips() == old(self).total_chips(),
            final(self).stage == GameStage::Play,
            final(self).players@ == old(self).players@.remove(seat as int),
            final(self).on_deck@.len() == old(self).on_deck@.len() + 1,
            final(self).on_deck@.drop_last() == old(self).on_deck@,
            final(self).on_deck@ == old(self).on_deck@.push(final(self).on_deck@.last()),
            folded(final(self).on_deck@.last(), old(self).players@[seat as int]),
            final(self).deck == old(self).deck,
            final(self).deck_pos == old(self).deck_pos,
            final(self).pot == old(self).pot + old(self).players@[seat as int].bet,
            final(self).next_player == shift_next(old(self).next_player as int, seat as int, old(self).players@.len() as int),
            final(self).dealer == shift_prev(old(self).dealer as int, seat as int, old(self).players@.len() as int),
            final(self).last_player == shift_prev(old(self).last_player as int, seat as int, old(self).players@.len() as int),
            final(self).cards == old(self).cards,
            final(self).min_bet == old(self).min_bet,
            final(self).players@.len() >= 2 ==> final(self).play_ok(),
    {
        let r = self.fold_player(seat);
        proof {
            lemma_sum_chips_push(self.on_deck@, r);
        }
        let ghost od = self.on_deck@;
        self.on_deck.push(r);
        assert(self.on_deck@.drop_last() =~= od);
        assert(self.on_deck@ =~= od.push(self.on_deck@.last()));
        let ghost ps = old(self).players@;
        assert forall|a: int, b: int| 0 <= a < b < self.players@.len() implies
            self.players@[a].addr@ != self.players@[b].addr@ by {
            let a0 = if a < seat { a } else { a + 1 };
            let b0 = if b < seat { b } else { b + 1 };
            assert(self.players@[a] == ps[a0]);
            assert(self.players@[b] == ps[b0]);
        }
        assert forall|a: int, b: int| 0 <= a < self.players@.len() && 0 <= b < self.on_deck@.len() implies
            self.players@[a].addr@ != self.on_deck@[b].addr@ by {
            let a0 = if a < seat { a } else { a + 1 };
            assert(self.players@[a] == ps[a0]);
            if b < od.len() {
                assert(self.on_deck@[b] == od[b]);
            }
        }
        assert forall|a: int, b: int| 0 <= a < b < self.on_deck@.len() implies
            self.on_deck@[a].addr@ != self.on_deck@[b].addr@ by {
            assert(self.on_deck@[a] == od[a]);
            if b < od.len() {
                assert(self.on_deck@[b] == od[b]);
            }
        }
        assert forall|i: int| 0 <= i < self.players@.len() implies {
            &&& (#[trigger] self.players@[i]).playing
            &&& self.players@[i].bet <= self.min_bet
        } by {
            let i0 = if i < seat { i } else { i + 1 };
            assert(self.players@[i] == ps[i0]);
        }
        assert forall|i: int| 0 <= i < self.on_deck@.len() implies {
            &&& !(#[trigger] self.on_deck@[i]).playing
            &&& self.on_deck@[i].bet == 0
        } by {
            if i < od.len() {
                assert(self.on_deck@[i] == od[i]);
            }
        }
    }

    /// Takes seat `seat` out of the hand and out of the game, and returns its
    /// balance; its bet stays in the pot.
    fn leave_hand(&mut self, seat: usize) -> (r: u64)
        requires
            old(self).wf(),
            old(self).stage == GameStage::Play,
            seat < old(self).players@.len(),
        ensures
            final(self).wf(),
            r == old(self).players@[seat as int].balance,
            final(self).total_chips() + r == old(self).total_chips(),
            final(self).players@.len() == old(self).players@.len() - 1,
            left_seat(*final(self), *old(self), seat as int),
    {
        let closes = seat == self.next_player && seat == self.last_player;
        let p = self.fold_player(seat);
        let ghost ps = old(self).players@;
        assert forall|a: int, b: int| 0 <= a < b < self.players@.len() implies
            self.players@[a].addr@ != self.players@[b].addr@ by {
            let a0 = if a < seat { a } else { a + 1 };
            let b0 = if b < seat { b } else { b + 1 };
            assert(self.players@[a] == ps[a0]);
            assert(self.players@[b] == ps[b0]);
        }
        assert forall|a: int, b: int| 0 <= a < self.players@.len() && 0 <= b < self.on_deck@.len() implies
            self.players@[a].addr@ != self.on_deck@[b].addr@ by {
            let a0 = if a < seat { a } else { a + 1 };
            assert(self.players@[a] == ps[a0]);
        }
        assert forall|i: int| 0 <= i < self.players@.len() implies {
            &&& (#[trigger] self.players@[i]).playing
            &&& self.players@[i].bet <= self.min_bet
        } by {
            let i0 = if i < seat { i } else { i + 1 };
            assert(self.players@[i] == ps[i0]);
        }
        if self.players.len() == 1 {
            self.award_last();
        } else if closes {
            self.close_round();
        }
        p.balance
    }

    /// The seat to act checks, calls, raises or folds. When the seat that
    /// closes the round has acted without raising, the round closes.
    pub fn take_action(&mut self, msg_sender: &Vec<u8>, action: Action, value: u64) -> (r: Result<(), PokerError>)
        requires
            old(self).wf(),
        ensures
            final(self).wf(),
            final(self).total_chips() == old(self).total_chips(),
            r is Err ==> *final(self) == *old(self),
            old(self).stage != GameStage::Play <==> r == Err::<(), PokerError>(PokerError::WrongStage),
            (old(self).stage == GameStage::Play
                && old(self).players@[old(self).next_player as int].addr@ != msg_sender@)
                <==> r == Err::<(), PokerError>(PokerError::OutOfTurn),
            (old(self).stage == GameStage::Play
                && old(self).players@[old(self).next_player as int].addr@ == msg_sender@
                && !legal(old(self).players@[old(self).next_player as int], old(self).min_bet, action, value))
                <==> r == Err::<(), PokerError>(PokerError::InvalidAction),
            r matches Err(e) ==> e == PokerError::WrongStage || e == PokerError::OutOfTurn
                || e == PokerError::InvalidAction,
            r is Ok ==> {
                let seat = old(self).next_player as int;
                let n = old(self).players@.len() as int;
                let closes = seat == old(self).last_player && action != Action::Raise;
                let acted = old(self).players@.update(
                    seat,
                    after_bet(old(self).players@[seat], old(self).min_bet, action, value),
                );
                let left = old(self).players@.remove(seat);
                let fold_pot = (old(self).pot + old(self).players@[seat].bet) as u64;
                let fold_dealer = shift_prev(old(self).dealer as int, seat, n);
                &&& action != Action::Fold ==> final(self).on_deck == old(self).on_deck
                &&& action != Action::Fold && !closes ==> {
                    &&& final(self).stage == GameStage::Play
                    &&& final(self).players@ == acted
                    &&& final(self).next_player == (seat + 1) % n
                    &&& final(self).min_bet == if action == Action::Raise { value } else { old(self).min_bet }
                    &&& final(self).last_player == if action == Action::Raise { seat as usize } else { old(self).last_player }
                    &&& final(self).pot == old(self).pot
                    &&& final(self).dealer == old(self).dealer
                    &&& final(self).cards == old(self).cards
                    &&& final(self).deck == old(self).deck
                    &&& final(self).deck_pos == old(self).deck_pos
                }
                &&& action != Action::Fold && closes ==> round_closed(
                    *final(self),
                    acted,
                    old(self).pot,
                    old(self).cards@,
                    old(self).deck@,
                    old(self).deck_pos as int,
                    old(self).dealer as int,
                )
                &&& action == Action::Fold ==> folded_by_seat_to_act(*final(self), *old(self))
            },
    {
        if self.stage != GameStage::Play {
            return Err(PokerError::WrongStage);
        }
        let seat = self.next_player;
        if !same_addr(&self.players[seat].addr, msg_sender) {
            return Err(PokerError::OutOfTurn);
        }
        if !is_legal(&self.players[seat], self.min_bet, action, value) {
            return Err(PokerError::InvalidAction);
        }
        let n = self.players.len();
        let closes = seat == self.last_player && action != Action::Raise;
        match action {
            Action::Fold => {
                self.fold_to_deck(seat);
                if self.players.len() == 1 {
                    assert(old(self).players@.remove(seat as int)[0] == old(self).players@[1 - seat]);
                    self.award_last();
                } else if closes {
                    self.close_round();
                }
            },
            _ => {
                self.apply_bet(seat, action, value);
                self.next_player = (seat + 1) % n;
                if closes {
                    self.close_round();
                }
            },
        }
        Ok(())
    }

    /// Folds the seat to act, for a host whose clock says its time is up.
    pub fn force_timeout(&mut self) -> (r: Result<(), PokerError>)
        requires
            old(self).wf(),
        ensures
            final(self).wf(),
            final(self).total_chips() == old(self).total_chips(),
            r is Err ==> *final(self) == *old(self),
            old(self).stage != GameStage::Play <==> r == Err::<(), PokerError>(PokerError::WrongStage),
            r matches Err(e) ==> e == PokerError::WrongStage,
            r is Ok ==> folded_by_seat_to_act(*final(self), *old(self)),
    {
        if self.stage != GameStage::Play {
            return Err(PokerError::WrongStage);
        }
        let addr = copy_bytes(&self.players[self.next_player].addr);
        self.take_action(&addr, Action::Fold, 0)
    }

    /// Takes a player out of the game and returns the chips the player
    /// leaves with. A seated player in a hand folds first: the bet stays in
    /// the pot.
    pub fn withdraw(&mut self, msg_sender: &Vec<u8>) -> (r: Result<u64, PokerError>)
        requires
            old(self).wf(),
        ensures
            final(self).wf(),
            r is Err ==> *final(self) == *old(self),
            !old(self).is_participant(msg_sender@) <==> r == Err::<u64, PokerError>(PokerError::NotAParticipant),
            r matches Err(e) ==> e == PokerError::NotAParticipant,
            r matches Ok(b) ==> {
                &&& final(self).total_chips() + b == old(self).total_chips()
                &&& final(self).players@.len() + final(self).on_deck@.len()
                    == old(self).players@.len() + old(self).on_deck@.len() - 1
                &&& holds_addr(old(self).players@, msg_sender@) ==> exists|i: int|
                    0 <= i < old(self).players@.len() && old(self).players@[i].addr@ == msg_sender@
                    && b == old(self).players@[i].balance && left_seat(*final(self), *old(self), i)
                &&& !holds_addr(old(self).players@, msg_sender@) ==> exists|j: int|
                    0 <= j < old(self).on_deck@.len() && old(self).on_deck@[j].addr@ == msg_sender@
                    && b == old(self).on_deck@[j].balance && left_deck(*final(self), *old(self), j)
            },
    {
        match find_player(&self.players, msg_sender) {
            Some(i) => {
                if self.stage == GameStage::Play {
                    let b = self.leave_hand(i);
                    assert(left_seat(*self, *old(self), i as int));
                    Ok(b)
                } else {
                    proof {
                        lemma_sum_chips_remove(self.players@, i as int);
                    }
                    let ghost ps = self.players@;
                    let n = self.players.len();
                    let p = self.players.remove(i);
                    self.shift_seat_indices(i, n);
                    assert forall|a: int, b: int| 0 <= a < b < self.players@.len() implies
                        self.players@[a].addr@ != self.players@[b].addr@ by {
                        let a0 = if a < i { a } else { a + 1 };
                        let b0 = if b < i { b } else { b + 1 };
                        assert(self.players@[a] == ps[a0]);
                        assert(self.players@[b] == ps[b0]);
                    }
                    assert forall|a: int, b: int| 0 <= a < self.players@.len() && 0 <= b < self.on_deck@.len() implies
                        self.players@[a].addr@ != self.on_deck@[b].addr@ by {
                        let a0 = if a < i { a } else { a + 1 };
                        assert(self.players@[a] == ps[a0]);
                    }
                    assert forall|a: int| 0 <= a < self.players@.len() implies
                        #[trigger] self.players@[a] == ps[if a < i { a } else { a + 1 }] by {}
                    assert(left_seat(*self, *old(self), i as int));
                    Ok(p.balance)
                }
            },
            None => match find_player(&self.on_deck, msg_sender) {
                Some(i) => {
                    proof {
                        lemma_sum_chips_remove(self.on_deck@, i as int);
                    }
                    let ghost od = self.on_deck@;
                    let p = self.on_deck.remove(i);
                    assert forall|a: int, b: int| 0 <= a < b < self.on_deck@.len() implies
                        self.on_deck@[a].addr@ != self.on_deck@[b].addr@ by {
                        let a0 = if a < i { a } else { a + 1 };
                        let b0 = if b < i { b } else { b + 1 };
                        assert(self.on_deck@[a] == od[a0]);
                        assert(self.on_deck@[b] == od[b0]);
                    }
                    assert forall|a: int, b: int| 0 <= a < self.players@.len() && 0 <= b < self.on_deck@.len() implies
                        self.players@[a].addr@ != self.on_deck@[b].addr@ by {
                        let b0 = if b < i { b } else { b + 1 };
                        assert(self.on_deck@[b] == od[b0]);
                    }
                    assert forall|a: int| 0 <= a < self.on_deck@.len() implies
                        #[trigger] self.on_deck@[a] == od[if a < i { a } else { a + 1 }] by {}
                    assert(left_deck(*self, *old(self), i as int));
                    Ok(p.balance)
                },
                None => Err(PokerError::NotAParticipant),
            },
        }
    }

    /// Every chip at the table, or `None` where there are more than a `u64`
    /// can count.
    pub fn chip_count(&self) -> (r: Option<u64>)
        ensures
            match r {
                Some(t) => t == self.total_chips(),
                None => self.total_chips() > u64::MAX,
            },
    {
        proof {
            lemma_sum_chips_nonneg(self.players@);
            lemma_sum_chips_nonneg(self.on_deck@);
        }
        match add_chips(self.pot, &self.players) {
            Some(t) => add_chips(t, &self.on_deck),
            None => None,
        }
    }

    /// Tells whether a deposit of `deposit` chips can join the table
    /// without the chip count passing `u64::MAX`.
    pub fn can_deposit(&self, deposit: u64) -> (r: bool)
        ensures
            r == (self.total_chips() + deposit <= u64::MAX),
    {
        match self.chip_count() {
            Some(t) => t.checked_add(deposit).is_some(),
            None => false,
        }
    }

    /// Tells whether the table satisfies its invariant; a table read back
    /// from storage is checked with it before use.
    pub fn is_well_formed(&self) -> (r: bool)
        ensures
            r == self.wf(),
    {
        if !(0 < self.blind && 0 < self.max_players && self.max_players <= MAX_SEATS
            && 0 < self.time_per_turn && (self.players.len() as u64) <= self.max_players
            && self.seed.len() == SEED_LEN && self.cards.len() <= 5
            && self.deck_pos <= self.deck.len() && self.deck.len() <= DECK_SIZE) {
            return false;
        }
        if !check_distinct(&self.players) || !check_distinct(&self.on_deck)
            || !check_disjoint(&self.players, &self.on_deck) {
            return false;
        }
        let mut i: usize = 0;
        while i < self.players.len()
            invariant
                i <= self.players@.len(),
                forall|k: int| 0 <= k < i ==> {
                    &&& (#[trigger] self.players@[k]).playing
                    &&& self.players@[k].bet <= self.min_bet
                    &&& self.stage == GameStage::Join ==> self.players@[k].bet == 0
                },
            decreases self.players@.len() - i,
        {
            let p = &self.players[i];
            if !p.playing || p.bet > self.min_bet || (self.stage == GameStage::Join && p.bet != 0) {
                return false;
            }
            i = i + 1;
        }
        let mut i: usize = 0;
        while i < self.on_deck.len()
            invariant
                i <= self.on_deck@.len(),
                forall|k: int| 0 <= k < i ==> {
                    &&& !(#[trigger] self.on_deck@[k]).playing
                    &&& self.on_deck@[k].bet == 0
                },
            decreases self.on_deck@.len() - i,
        {
            let p = &self.on_deck[i];
            if p.playing || p.bet != 0 {
                return false;
            }
            i = i + 1;
        }
        if self.chip_count().is_none() {
            return false;
        }
        if self.stage == GameStage::Play {
            let n = self.players.len();
            let shown = self.cards.len();
            let needed: usize = if shown == 0 { 8 } else if shown == 3 { 4 } else if shown == 4 { 2 } else { 0 };
            if !(2 <= n && self.dealer < n && self.next_player < n && self.last_player < n
                && shown != 1 && shown != 2 && self.deck_pos + needed <= self.deck.len()) {
                return false;
            }
        }
        true
    }
}

} // verus!
