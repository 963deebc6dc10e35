//! Properties that relate several operations, or several calls of one.
use vstd::prelude::*;
use crate::cards::lemma_permuted_deck_distinct;
use crate::poker_contract::{hole_cards, PokerContract};
use crate::seats::holds_addr;
use crate::showdown::{lemma_unique_best, scores_of, showdown_paid};
use crate::poker_contract::Player;
use crate::cards::CardCode;
use crate::queries::{same_player_state, same_public_state, shows_player, PlayerState, PublicState};

verus! {

/// One operation moves `deposited` chips onto the table and `withdrawn`
/// chips off it, and no others: what the contracts of `new` (none),
/// `join_game` (the deposit), `withdraw` (the balance returned) and the other
/// operations (none) state.
pub open spec fn step_accounted(before: PokerContract, after: PokerContract, deposited: int, withdrawn: int) -> bool {
    after.total_chips() == before.total_chips() + deposited - withdrawn
}

pub open spec fn sum_of(s: Seq<int>) -> int
    decreases s.len(),
{
    if s.len() == 0 {
        0
    } else {
        sum_of(s.drop_last()) + s.last()
    }
}

/// Over any run of operations from a new table, each accounting for its
/// chips, the chips at the table (pot, bets and balances, seated and on deck)
/// are what was deposited less what was withdrawn.
pub proof fn lemma_chip_conservation(tables: Seq<PokerContract>, deposits: Seq<int>, withdrawals: Seq<int>)
    requires
        tables.len() == deposits.len() + 1,
        withdrawals.len() == deposits.len(),
        tables[0].total_chips() == 0,
        forall|k: int| 0 <= k < deposits.len() ==>
            step_accounted(#[trigger] tables[k], tables[k + 1], deposits[k], withdrawals[k]),
    ensures
        tables.last().total_chips() == sum_of(deposits) - sum_of(withdrawals),
    decreases deposits.len(),
{
    if deposits.len() > 0 {
        let n = deposits.len() - 1;
        assert(step_accounted(tables[n as int], tables[n + 1], deposits[n as int], withdrawals[n as int]));
        lemma_chip_conservation(tables.drop_last(), deposits.drop_last(), withdrawals.drop_last());
    }
}

/// Dealing from seat `first` of `m`, the `t`th seat dealt gets the `t`th and
/// the `(t + m)`th card of the deck.
pub proof fn lemma_hole_cards_in_deal_order(deck: Seq<(u8, u8)>, m: int, first: int, t: int)
    requires
        0 <= first < m,
        0 <= t < m,
    ensures
        hole_cards(deck, m, first, (first + t) % m) == seq![deck[t], deck[t + m]],
{
    let j = (first + t) % m;
    if first + t < m {
        vstd::arithmetic::div_mod::lemma_small_mod((first + t) as nat, m as nat);
        vstd::arithmetic::div_mod::lemma_mod_add_multiples_vanish(t, m);
        vstd::arithmetic::div_mod::lemma_small_mod(t as nat, m as nat);
    } else {
        let x = first + t - m;
        vstd::arithmetic::div_mod::lemma_mod_add_multiples_vanish(x, m);
        vstd::arithmetic::div_mod::lemma_small_mod(x as nat, m as nat);
        vstd::arithmetic::div_mod::lemma_small_mod(t as nat, m as nat);
    }
    assert(j - first + m == t || j - first + m == t + m);
    vstd::arithmetic::div_mod::lemma_mod_add_multiples_vanish(t, m);
}

/// Two hands started on tables with the same seed and the same number of
/// seats use the same deck, and deal the same hole cards in dealing order,
/// starting left of the dealer.
pub proof fn lemma_same_seed_same_deal(
    a0: PokerContract,
    a1: PokerContract,
    b0: PokerContract,
    b1: PokerContract,
)
    requires
        a1.hand_started_from(&a0),
        b1.hand_started_from(&b0),
        a0.seed@ == b0.seed@,
        a0.next_seating().len() == b0.next_seating().len(),
    ensures
        a1.deck@ == b1.deck@,
        a1.players@.len() == b1.players@.len(),
        forall|t: int|
            0 <= t < a1.players@.len() ==> #[trigger] a1.players@[(
            (a1.dealer + 1) % (a1.players@.len() as int) + t) % (a1.players@.len() as int)].cards@
                == b1.players@[((b1.dealer + 1) % (b1.players@.len() as int) + t) % (b1.players@.len() as int)].cards@,
{
    let m = a1.players@.len() as int;
    assert forall|t: int| 0 <= t < m implies #[trigger] a1.players@[((a1.dealer + 1) % m + t) % m].cards@
        == b1.players@[((b1.dealer + 1) % m + t) % m].cards@ by {
        let sa = (a1.dealer + 1) % m;
        let sb = (b1.dealer + 1) % m;
        vstd::arithmetic::div_mod::lemma_mod_pos_bound(a1.dealer + 1, m);
        vstd::arithmetic::div_mod::lemma_mod_pos_bound(b1.dealer + 1, m);
        vstd::arithmetic::div_mod::lemma_mod_pos_bound(sa + t, m);
        vstd::arithmetic::div_mod::lemma_mod_pos_bound(sb + t, m);
        lemma_hole_cards_in_deal_order(a1.deck@, m, sa, t);
        lemma_hole_cards_in_deal_order(b1.deck@, m, sb, t);
    }
}

/// Seats `a` and `b` of `m`, dealt from seat `first`, are dealt at different
/// turns.
pub proof fn lemma_deal_offset(m: int, first: int, a: int)
    requires
        0 <= first < m,
        0 <= a < m,
    ensures
        0 <= (a - first + m) % m < m,
        a >= first ==> (a - first + m) % m == a - first,
        a < first ==> (a - first + m) % m == a - first + m,
{
    if a >= first {
        vstd::arithmetic::div_mod::lemma_mod_add_multiples_vanish(a - first, m);
        vstd::arithmetic::div_mod::lemma_small_mod((a - first) as nat, m as nat);
    } else {
        vstd::arithmetic::div_mod::lemma_small_mod((a - first + m) as nat, m as nat);
    }
}

/// The hole cards dealt when a hand starts are all different: no card is in
/// two hands, and no hand holds one card twice.
pub proof fn lemma_dealt_cards_distinct(o: PokerContract, t: PokerContract)
    requires
        t.hand_started_from(&o),
        t.wf(),
    ensures
        forall|a: int, b: int, k: int, l: int|
            0 <= a < t.players@.len() && 0 <= b < t.players@.len() && 0 <= k < 2 && 0 <= l < 2
                && (a != b || k != l) ==> #[trigger] t.players@[a].cards@[k] != #[trigger] t.players@[b].cards@[l],
{
    let m = t.players@.len() as int;
    let first = (t.dealer + 1) % m;
    vstd::arithmetic::div_mod::lemma_mod_pos_bound(t.dealer + 1, m);
    lemma_permuted_deck_distinct(t.deck@);
    assert forall|a: int, b: int, k: int, l: int|
        0 <= a < m && 0 <= b < m && 0 <= k < 2 && 0 <= l < 2 && (a != b || k != l) implies
        #[trigger] t.players@[a].cards@[k] != #[trigger] t.players@[b].cards@[l] by {
        lemma_deal_offset(m, first, a);
        lemma_deal_offset(m, first, b);
        let pa = (a - first + m) % m + k * m;
        let pb = (b - first + m) % m + l * m;
        assert(t.players@[a].cards@ == hole_cards(t.deck@, m, first, a));
        assert(t.players@[b].cards@ == hole_cards(t.deck@, m, first, b));
        assert(t.players@[a].cards@[k] == t.deck@[pa]);
        assert(t.players@[b].cards@[l] == t.deck@[pb]);
        assert(pa != pb);
        assert(pa < 2 * m && pb < 2 * m);
    }
}

/// After seat `seat` of a well-formed table is removed, as a fold or a
/// withdrawal removes it, there is one seat fewer and no gap: the seats before
/// it keep their index, those after it move down by one, and the removed
/// address holds no seat.
pub proof fn lemma_fold_reindexes(o: PokerContract, t: PokerContract, seat: int)
    requires
        o.wf(),
        0 <= seat < o.players@.len(),
        t.players@ == o.players@.remove(seat),
    ensures
        t.players@.len() == o.players@.len() - 1,
        forall|j: int| 0 <= j < seat ==> #[trigger] t.players@[j] == o.players@[j],
        forall|j: int| seat <= j < t.players@.len() ==> #[trigger] t.players@[j] == o.players@[j + 1],
        !holds_addr(t.players@, o.players@[seat].addr@),
{
    assert forall|j: int| 0 <= j < t.players@.len() implies
        #[trigger] t.players@[j].addr@ != o.players@[seat].addr@ by {
        if j < seat {
            assert(t.players@[j] == o.players@[j]);
        } else {
            assert(t.players@[j] == o.players@[j + 1]);
        }
    }
}

/// At a showdown where one seat's hand scores above every other, that seat
/// takes the whole pot, nothing stays in it, and no other balance changes.
pub proof fn lemma_single_winner_takes_pot(
    players: Seq<Player>,
    pot: u64,
    before: Seq<Player>,
    board: Seq<CardCode>,
    swept: int,
    w: int,
)
    requires
        showdown_paid(players, pot, before, board, swept),
        0 <= w < before.len(),
        forall|i: int| 0 <= i < before.len() && i != w ==>
            scores_of(before, board)[i] < scores_of(before, board)[w],
    ensures
        players[w].balance == before[w].balance + swept,
        pot == 0,
        forall|i: int| 0 <= i < before.len() && i != w ==> #[trigger] players[i].balance == before[i].balance,
{
    let scores = scores_of(before, board);
    lemma_unique_best(scores, w);
    assert(swept / 1 == swept);
}

/// Asking twice for the public view of one table gives the same answer.
pub proof fn lemma_public_state_repeatable(t: PokerContract, r1: PublicState, r2: PublicState)
    requires
        t.public_state_is(r1),
        t.public_state_is(r2),
    ensures
        same_public_state(r1, r2),
{
    assert forall|i: int| 0 <= i < r1.players@.len() implies
        same_player_state(#[trigger] r1.players@[i], r2.players@[i]) by {
        assert(shows_player(r1.players@[i], t.players@[i], false));
        assert(shows_player(r2.players@[i], t.players@[i], false));
    }
    assert forall|i: int| 0 <= i < r1.on_deck@.len() implies
        same_player_state(#[trigger] r1.on_deck@[i], r2.on_deck@[i]) by {
        assert(shows_player(r1.on_deck@[i], t.on_deck@[i], false));
        assert(shows_player(r2.on_deck@[i], t.on_deck@[i], false));
    }
}

/// Asking twice for one player's view of a table gives the same answer.
pub proof fn lemma_player_state_repeatable(
    t: PokerContract,
    addr: Seq<u8>,
    r1: PlayerState,
    r2: PlayerState,
)
    requires
        t.wf(),
        t.player_state_is(addr, r1),
        t.player_state_is(addr, r2),
    ensures
        same_player_state(r1, r2),
{
    let ps = t.players@;
    let od = t.on_deck@;
    if exists|i: int| 0 <= i < ps.len() && ps[i].addr@ == addr && shows_player(r1, ps[i], true) {
        let i = choose|i: int| 0 <= i < ps.len() && ps[i].addr@ == addr && shows_player(r1, ps[i], true);
        if exists|j: int| 0 <= j < ps.len() && ps[j].addr@ == addr && shows_player(r2, ps[j], true) {
            let j = choose|j: int| 0 <= j < ps.len() && ps[j].addr@ == addr && shows_player(r2, ps[j], true);
            if i != j {
                if i < j {
                    assert(ps[i].addr@ != ps[j].addr@);
                } else {
                    assert(ps[j].addr@ != ps[i].addr@);
                }
            }
        } else {
            let j = choose|j: int| 0 <= j < od.len() && od[j].addr@ == addr && shows_player(r2, od[j], true);
            assert(ps[i].addr@ != od[j].addr@);
        }
    } else {
        let i = choose|i: int| 0 <= i < od.len() && od[i].addr@ == addr && shows_player(r1, od[i], true);
        if exists|j: int| 0 <= j < ps.len() && ps[j].addr@ == addr && shows_player(r2, ps[j], true) {
            let j = choose|j: int| 0 <= j < ps.len() && ps[j].addr@ == addr && shows_player(r2, ps[j], true);
            assert(ps[j].addr@ != od[i].addr@);
        } else {
            let j = choose|j: int| 0 <= j < od.len() && od[j].addr@ == addr && shows_player(r2, od[j], true);
            if i != j {
                if i < j {
                    assert(od[i].addr@ != od[j].addr@);
                } else {
                    assert(od[j].addr@ != od[i].addr@);
                }
            }
        }
    }
}

} // verus!
