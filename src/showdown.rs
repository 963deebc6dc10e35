//! Showdown arithmetic: hand scores, the best score and how many seats hold it.
use vstd::prelude::*;
use crate::cards::{hand_score, CardCode};
use crate::poker_contract::Player;

verus! {

pub open spec fn max_of(s: Seq<u64>) -> u64
    decreases s.len(),
{
    if s.len() == 0 {
        0
    } else if max_of(s.drop_last()) >= s.last() {
        max_of(s.drop_last())
    } else {
        s.last()
    }
}

pub open spec fn count_of(s: Seq<u64>, v: u64) -> nat
    decreases s.len(),
{
    if s.len() == 0 {
        0
    } else {
        count_of(s.drop_last(), v) + if s.last() == v { 1nat } else { 0nat }
    }
}

/// The score of every seat's hand at showdown.
pub open spec fn scores_of(players: Seq<Player>, board: Seq<CardCode>) -> Seq<u64> {
    Seq::new(players.len(), |i: int| hand_score(players[i].cards@ + board))
}

/// `players` and `pot` are what a showdown leaves of the seats `before`, the
/// community cards `board` and a pot of `swept` chips: every seat whose hand
/// scores highest gets `swept / winners`, the rest stays in the pot.
pub open spec fn showdown_paid(players: Seq<Player>, pot: u64, before: Seq<Player>, board: Seq<CardCode>, swept: int) -> bool {
    let scores = scores_of(before, board);
    let best = max_of(scores);
    let winners = count_of(scores, best);
    let share = swept / winners as int;
    &&& winners >= 1
    &&& pot == swept - share * winners
    &&& players.len() == before.len()
    &&& forall|i: int| 0 <= i < before.len() ==> {
        &&& (#[trigger] players[i]).addr == before[i].addr
        &&& players[i].cards == before[i].cards
        &&& players[i].bet == 0
        &&& players[i].balance == before[i].balance + if scores[i] == best { share } else { 0 }
    }
}

pub proof fn lemma_count_take(s: Seq<u64>, v: u64, i: int)
    requires
        0 <= i < s.len(),
    ensures
        count_of(s.take(i + 1), v) == count_of(s.take(i), v) + if s[i] == v { 1nat } else { 0nat },
{
    assert(s.take(i + 1).drop_last() =~= s.take(i));
}

pub proof fn lemma_count_le(s: Seq<u64>, v: u64, i: int)
    requires
        0 <= i <= s.len(),
    ensures
        count_of(s.take(i), v) <= count_of(s, v),
    decreases s.len(),
{
    if i == s.len() {
        assert(s.take(i) =~= s);
    } else {
        assert(s.drop_last().take(i) =~= s.take(i));
        lemma_count_le(s.drop_last(), v, i);
    }
}

pub proof fn lemma_count_pos(s: Seq<u64>, v: u64, j: int)
    requires
        0 <= j < s.len(),
        s[j] == v,
    ensures
        count_of(s, v) >= 1,
    decreases s.len(),
{
    if j < s.len() - 1 {
        lemma_count_pos(s.drop_last(), v, j);
    }
}

pub proof fn lemma_max_take(s: Seq<u64>, i: int)
    requires
        0 <= i < s.len(),
    ensures
        max_of(s.take(i + 1)) == if max_of(s.take(i)) >= s[i] { max_of(s.take(i)) } else { s[i] },
{
    assert(s.take(i + 1).drop_last() =~= s.take(i));
}

pub proof fn lemma_max_at_most(s: Seq<u64>, v: u64)
    requires
        forall|i: int| 0 <= i < s.len() ==> s[i] <= v,
    ensures
        max_of(s) <= v,
    decreases s.len(),
{
    if s.len() > 0 {
        lemma_max_at_most(s.drop_last(), v);
    }
}

pub proof fn lemma_count_absent(s: Seq<u64>, v: u64)
    requires
        forall|i: int| 0 <= i < s.len() ==> s[i] != v,
    ensures
        count_of(s, v) == 0,
    decreases s.len(),
{
    if s.len() > 0 {
        lemma_count_absent(s.drop_last(), v);
    }
}

/// A score above all others is the best, and only one seat holds it.
pub proof fn lemma_unique_best(s: Seq<u64>, w: int)
    requires
        0 <= w < s.len(),
        forall|i: int| 0 <= i < s.len() && i != w ==> s[i] < s[w],
    ensures
        max_of(s) == s[w],
        count_of(s, s[w]) == 1,
    decreases s.len(),
{
    let d = s.drop_last();
    if w < s.len() - 1 {
        lemma_unique_best(d, w);
    } else {
        lemma_max_at_most(d, s[w]);
        lemma_count_absent(d, s[w]);
    }
}

/// The showdown split of `pot` among seats with the given scores: the best
/// score, how many seats hold it, and the share each of them gets. What is
/// left, `pot - share * winners`, is less than `winners`.
pub fn showdown_split(scores: &Vec<u64>, pot: u64) -> (r: (u64, u64, u64))
    requires
        scores@.len() >= 1,
    ensures
        r.0 == max_of(scores@),
        r.1 == count_of(scores@, r.0),
        1 <= r.1 <= scores@.len(),
        r.2 == pot / r.1,
        r.2 * r.1 <= pot,
        pot - r.2 * r.1 < r.1,
{
    let n = scores.len();
    let ghost ss = scores@;
    let mut best: u64 = 0;
    let mut best_at: usize = 0;
    let mut i: usize = 0;
    while i < n
        invariant
            i <= n == ss.len(),
            scores@ == ss,
            best == max_of(ss.take(i as int)),
            i > 0 ==> best_at < i && ss[best_at as int] == best,
        decreases n - i,
    {
        proof {
            lemma_max_take(ss, i as int);
        }
        if i == 0 || scores[i] > best {
            best = scores[i];
            best_at = i;
        }
        i = i + 1;
    }
    assert(ss.take(n as int) =~= ss);
    let mut winners: usize = 0;
    let mut i: usize = 0;
    proof {
        assert(ss.take(0) =~= Seq::<u64>::empty());
    }
    while i < n
        invariant
            i <= n == ss.len(),
            scores@ == ss,
            winners == count_of(ss.take(i as int), best),
            winners <= i,
        decreases n - i,
    {
        proof {
            lemma_count_take(ss, best, i as int);
        }
        if scores[i] == best {
            winners = winners + 1;
        }
        i = i + 1;
    }
    proof {
        lemma_count_pos(ss, best, best_at as int);
    }
    let k = winners as u64;
    let share = pot / k;
    proof {
        vstd::arithmetic::div_mod::lemma_fundamental_div_mod(pot as int, k as int);
        vstd::arithmetic::div_mod::lemma_mod_pos_bound(pot as int, k as int);
        vstd::arithmetic::mul::lemma_mul_is_commutative(share as int, k as int);
        assert(share as int == pot as int / k as int);
    }
    (best, k, share)
}

} // verus!
