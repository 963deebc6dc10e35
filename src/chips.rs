//! Counting chips: what each player holds, and sums over lists of players.
use vstd::prelude::*;
use crate::poker_contract::Player;

verus! {

/// The chips that a player holds, committed or not.
pub open spec fn chips(p: Player) -> int {
    p.bet as int + p.balance as int
}

pub open spec fn sum_chips(s: Seq<Player>) -> int
    decreases s.len(),
{
    if s.len() == 0 {
        0
    } else {
        sum_chips(s.drop_last()) + chips(s.last())
    }
}

pub proof fn lemma_sum_chips_push(s: Seq<Player>, p: Player)
    ensures
        sum_chips(s.push(p)) == sum_chips(s) + chips(p),
{
    assert(s.push(p).drop_last() =~= s);
}

pub proof fn lemma_sum_chips_bounds(s: Seq<Player>, i: int)
    requires
        0 <= i < s.len(),
    ensures
        0 <= chips(s[i]) <= sum_chips(s),
    decreases s.len(),
{
    lemma_sum_chips_nonneg(s.drop_last());
    if i < s.len() - 1 {
        lemma_sum_chips_bounds(s.drop_last(), i);
    }
}

pub proof fn lemma_sum_chips_nonneg(s: Seq<Player>)
    ensures
        0 <= sum_chips(s),
    decreases s.len(),
{
    if s.len() > 0 {
        lemma_sum_chips_nonneg(s.drop_last());
    }
}

pub proof fn lemma_sum_chips_update(s: Seq<Player>, i: int, p: Player)
    requires
        0 <= i < s.len(),
    ensures
        sum_chips(s.update(i, p)) == sum_chips(s) - chips(s[i]) + chips(p),
    decreases s.len(),
{
    if i < s.len() - 1 {
        assert(s.update(i, p).drop_last() =~= s.drop_last().update(i, p));
        lemma_sum_chips_update(s.drop_last(), i, p);
    } else {
        assert(s.update(i, p).drop_last() =~= s.drop_last());
    }
}

pub proof fn lemma_sum_chips_remove(s: Seq<Player>, i: int)
    requires
        0 <= i < s.len(),
    ensures
        sum_chips(s.remove(i)) == sum_chips(s) - chips(s[i]),
    decreases s.len(),
{
    if i < s.len() - 1 {
        assert(s.remove(i).drop_last() =~= s.drop_last().remove(i));
        lemma_sum_chips_remove(s.drop_last(), i);
    } else {
        assert(s.remove(i) =~= s.drop_last());
    }
}

/// The bets of a list of players.
pub open spec fn sum_bets(s: Seq<Player>) -> int
    decreases s.len(),
{
    if s.len() == 0 {
        0
    } else {
        sum_bets(s.drop_last()) + s.last().bet
    }
}

pub proof fn lemma_sum_bets_take(s: Seq<Player>, i: int)
    requires
        0 <= i < s.len(),
    ensures
        sum_bets(s.take(i + 1)) == sum_bets(s.take(i)) + s[i].bet,
{
    assert(s.take(i + 1).drop_last() =~= s.take(i));
}

pub proof fn lemma_sum_chips_take(s: Seq<Player>, i: int)
    requires
        0 <= i < s.len(),
    ensures
        sum_chips(s.take(i + 1)) == sum_chips(s.take(i)) + chips(s[i]),
{
    assert(s.take(i + 1).drop_last() =~= s.take(i));
}

pub proof fn lemma_sum_chips_take_le(s: Seq<Player>, i: int)
    requires
        0 <= i <= s.len(),
    ensures
        sum_chips(s.take(i)) <= sum_chips(s),
    decreases s.len(),
{
    if i == s.len() {
        assert(s.take(i) =~= s);
    } else {
        assert(s.drop_last().take(i) =~= s.take(i));
        lemma_sum_chips_take_le(s.drop_last(), i);
    }
}

/// Adds the chips of `s` to `acc`, or returns `None` where the sum passes
/// `u64::MAX`.
pub fn add_chips(acc: u64, s: &Vec<Player>) -> (r: Option<u64>)
    ensures
        match r {
            Some(t) => t == acc + sum_chips(s@),
            None => acc + sum_chips(s@) > u64::MAX,
        },
{
    let mut total = acc;
    let mut i: usize = 0;
    proof {
        assert(s@.take(0) =~= Seq::<Player>::empty());
    }
    while i < s.len()
        invariant
            i <= s@.len(),
            total == acc + sum_chips(s@.take(i as int)),
        decreases s@.len() - i,
    {
        proof {
            lemma_sum_chips_take(s@, i as int);
            lemma_sum_chips_take_le(s@, i + 1);
            lemma_sum_chips_nonneg(s@.take(i as int));
        }
        let p = &s[i];
        match total.checked_add(p.bet) {
            Some(t1) => match t1.checked_add(p.balance) {
                Some(t2) => {
                    total = t2;
                },
                None => {
                    return None;
                },
            },
            None => {
                return None;
            },
        }
        i = i + 1;
    }
    assert(s@.take(s@.len() as int) =~= s@);
    Some(total)
}

} // verus!
