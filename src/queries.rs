//! Queries: what a table shows to anyone, and to one of its players.
use vstd::prelude::*;
use crate::cards::CardCode;
use crate::poker_contract::{Action, GameStage, Player, PokerContract, PokerError};
use crate::seats::{copy_bytes, find_player};

verus! {

/// What a query shows of one player.
#[derive(Debug)]
pub struct PlayerState {
    pub addr: Vec<u8>,
    pub action: Action,
    pub cards: Vec<CardCode>,
    pub playing: bool,
    pub bet: u64,
    pub balance: u64,
}

/// What anyone may see of a table: no hole cards.
#[derive(Debug)]
pub struct PublicState {
    pub game_id: u64,
    pub blind: u64,
    pub max_players: u64,
    pub time_per_turn: u64,
    pub players: Vec<PlayerState>,
    pub on_deck: Vec<PlayerState>,
    pub cards: Vec<CardCode>,
    pub pot: u64,
    pub min_bet: u64,
    pub dealer: usize,
    pub next_player: usize,
    pub last_player: usize,
    pub stage: GameStage,
}


/// `r` shows player `p`, with its hole cards where `with_cards` holds.
pub open spec fn shows_player(r: PlayerState, p: Player, with_cards: bool) -> bool {
    &&& r.addr@ == p.addr@
    &&& r.action == p.action
    &&& r.cards@ == if with_cards { p.cards@ } else { Seq::<CardCode>::empty() }
    &&& r.playing == p.playing
    &&& r.bet == p.bet
    &&& r.balance == p.balance
}

pub open spec fn shows_players(r: Seq<PlayerState>, s: Seq<Player>) -> bool {
    &&& r.len() == s.len()
    &&& forall|i: int| 0 <= i < s.len() ==> shows_player(#[trigger] r[i], s[i], false)
}

pub open spec fn same_player_state(a: PlayerState, b: PlayerState) -> bool {
    &&& a.addr@ == b.addr@
    &&& a.action == b.action
    &&& a.cards@ == b.cards@
    &&& a.playing == b.playing
    &&& a.bet == b.bet
    &&& a.balance == b.balance
}

pub open spec fn same_player_states(a: Seq<PlayerState>, b: Seq<PlayerState>) -> bool {
    &&& a.len() == b.len()
    &&& forall|i: int| 0 <= i < a.len() ==> same_player_state(#[trigger] a[i], b[i])
}

/// Two public views that show the same thing.
pub open spec fn same_public_state(a: PublicState, b: PublicState) -> bool {
    &&& a.game_id == b.game_id
    &&& a.blind == b.blind
    &&& a.max_players == b.max_players
    &&& a.time_per_turn == b.time_per_turn
    &&& same_player_states(a.players@, b.players@)
    &&& same_player_states(a.on_deck@, b.on_deck@)
    &&& a.cards@ == b.cards@
    &&& a.pot == b.pot
    &&& a.min_bet == b.min_bet
    &&& a.dealer == b.dealer
    &&& a.next_player == b.next_player
    &&& a.last_player == b.last_player
    &&& a.stage == b.stage
}

/// A copy of a list of cards.
pub fn copy_cards(a: &Vec<CardCode>) -> (r: Vec<CardCode>)
    ensures
        r@ == a@,
{
    let mut r: Vec<CardCode> = Vec::new();
    let mut i: usize = 0;
    while i < a.len()
        invariant
            i <= a@.len(),
            r@ == a@.subrange(0, i as int),
        decreases a@.len() - i,
    {
        r.push(a[i]);
        i = i + 1;
        assert(r@ =~= a@.subrange(0, i as int));
    }
    assert(a@ =~= a@.subrange(0, i as int));
    r
}

/// What a query shows of `p`.
pub fn player_state_of(p: &Player, with_cards: bool) -> (r: PlayerState)
    ensures
        shows_player(r, *p, with_cards),
{
    PlayerState {
        addr: copy_bytes(&p.addr),
        action: p.action,
        cards: if with_cards { copy_cards(&p.cards) } else { Vec::new() },
        playing: p.playing,
        bet: p.bet,
        balance: p.balance,
    }
}

/// What a query shows of a list of players, without their hole cards.
pub fn serialize_players(s: &Vec<Player>) -> (r: Vec<PlayerState>)
    ensures
        shows_players(r@, s@),
{
    let mut r: Vec<PlayerState> = Vec::new();
    let mut i: usize = 0;
    while i < s.len()
        invariant
            i <= s@.len(),
            r@.len() == i,
            forall|j: int| 0 <= j < i ==> shows_player(#[trigger] r@[j], s@[j], false),
        decreases s@.len() - i,
    {
        r.push(player_state_of(&s[i], false));
        i = i + 1;
    }
    r
}

impl PokerContract {
    /// `r` is what the table shows to anyone.
    pub open spec fn public_state_is(&self, r: PublicState) -> bool {
        &&& r.game_id == self.game_id
        &&& r.blind == self.blind
        &&& r.max_players == self.max_players
        &&& r.time_per_turn == self.time_per_turn
        &&& shows_players(r.players@, self.players@)
        &&& shows_players(r.on_deck@, self.on_deck@)
        &&& r.cards@ == self.cards@
        &&& r.pot == self.pot
        &&& r.min_bet == self.min_bet
        &&& r.dealer == self.dealer
        &&& r.next_player == self.next_player
        &&& r.last_player == self.last_player
        &&& r.stage == self.stage
    }

    /// What anyone may see of the table.
    pub fn get_public_state(&self) -> (r: PublicState)
        ensures
            self.public_state_is(r),
    {
        PublicState {
            game_id: self.game_id,
            blind: self.blind,
            max_players: self.max_players,
            time_per_turn: self.time_per_turn,
            players: serialize_players(&self.players),
            on_deck: serialize_players(&self.on_deck),
            cards: copy_cards(&self.cards),
            pot: self.pot,
            min_bet: self.min_bet,
            dealer: self.dealer,
            next_player: self.next_player,
            last_player: self.last_player,
            stage: self.stage,
        }
    }

    /// `r` is what the table shows to the player with address `addr`.
    pub open spec fn player_state_is(&self, addr: Seq<u8>, r: PlayerState) -> bool {
        ||| exists|i: int| 0 <= i < self.players@.len() && self.players@[i].addr@ == addr
            && shows_player(r, self.players@[i], true)
        ||| exists|i: int| 0 <= i < self.on_deck@.len() && self.on_deck@[i].addr@ == addr
            && shows_player(r, self.on_deck@[i], true)
    }

    /// What the table shows to one of its players: the player's own entry,
    /// hole cards included.
    pub fn get_player_state(&self, msg_sender: &Vec<u8>) -> (r: Result<PlayerState, PokerError>)
        ensures
            !self.is_participant(msg_sender@) <==> r is Err,
            r matches Err(e) ==> e == PokerError::NotAParticipant,
            r matches Ok(st) ==> self.player_state_is(msg_sender@, st),
    {
        match find_player(&self.players, msg_sender) {
            Some(i) => Ok(player_state_of(&self.players[i], true)),
            None => match find_player(&self.on_deck, msg_sender) {
                Some(i) => Ok(player_state_of(&self.on_deck[i], true)),
                None => Err(PokerError::NotAParticipant),
            },
        }
    }

    /// The player that a player view shows, hole cards included.
    pub fn from_player_state(state: &PlayerState) -> (r: Player)
        ensures
            shows_player(*state, r, true),
    {
        Player {
            addr: copy_bytes(&state.addr),
            cards: copy_cards(&state.cards),
            action: state.action,
            playing: state.playing,
            bet: state.bet,
            balance: state.balance,
        }
    }
}

} // verus!
