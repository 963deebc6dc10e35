//! Player addresses: comparing them, finding a player, keeping them unique.
use vstd::prelude::*;
use crate::poker_contract::Player;

verus! {

pub open spec fn addrs_distinct(s: Seq<Player>) -> bool {
    forall|i: int, j: int| 0 <= i < j < s.len() ==> s[i].addr@ != s[j].addr@
}

pub open spec fn addrs_disjoint(a: Seq<Player>, b: Seq<Player>) -> bool {
    forall|i: int, j: int| 0 <= i < a.len() && 0 <= j < b.len() ==> a[i].addr@ != b[j].addr@
}

pub open spec fn holds_addr(s: Seq<Player>, addr: Seq<u8>) -> bool {
    exists|i: int| 0 <= i < s.len() && s[i].addr@ == addr
}

/// Compares two addresses.
pub fn same_addr(a: &Vec<u8>, b: &Vec<u8>) -> (r: bool)
    ensures
        r == (a@ == b@),
{
    if a.len() != b.len() {
        return false;
    }
    let mut i: usize = 0;
    while i < a.len()
        invariant
            i <= a@.len() == b@.len(),
            a@.subrange(0, i as int) == b@.subrange(0, i as int),
        decreases a@.len() - i,
    {
        if a[i] != b[i] {
            assert(a@[i as int] != b@[i as int]);
            return false;
        }
        assert(a@.subrange(0, i + 1) =~= a@.subrange(0, i as int).push(a@[i as int]));
        assert(b@.subrange(0, i + 1) =~= b@.subrange(0, i as int).push(b@[i as int]));
        i = i + 1;
    }
    assert(a@ =~= a@.subrange(0, i as int));
    assert(b@ =~= b@.subrange(0, i as int));
    true
}

/// Finds the index of the player with address `addr`.
pub fn find_player(s: &Vec<Player>, addr: &Vec<u8>) -> (r: Option<usize>)
    ensures
        match r {
            Some(i) => i < s@.len() && s@[i as int].addr@ == addr@,
            None => !holds_addr(s@, addr@),
        },
{
    let mut i: usize = 0;
    while i < s.len()
        invariant
            i <= s@.len(),
            forall|k: int| 0 <= k < i ==> s@[k].addr@ != addr@,
        decreases s@.len() - i,
    {
        if same_addr(&s[i].addr, addr) {
            return Some(i);
        }
        i = i + 1;
    }
    None
}

/// A copy of an address.
pub fn copy_bytes(a: &Vec<u8>) -> (r: Vec<u8>)
    ensures
        r@ == a@,
{
    let mut r: Vec<u8> = Vec::new();
    let mut i: usize = 0;
    while i < a.len()
        invariant
            i <= a@.len(),
            r@ == a@.subrange(0, i as int),
        decreases a@.len() - i,
    {
        r.push(a[i]);
        i = i + 1;
        assert(r@ =~= a@.subrange(0, i as int));
    }
    assert(a@ =~= a@.subrange(0, i as int));
    r
}

/// Tells whether no two players of `s` share an address.
pub fn check_distinct(s: &Vec<Player>) -> (r: bool)
    ensures
        r == addrs_distinct(s@),
{
    let mut i: usize = 0;
    while i < s.len()
        invariant
            i <= s@.len(),
            forall|a: int, b: int| 0 <= a < b < s@.len() && a < i ==> s@[a].addr@ != s@[b].addr@,
        decreases s@.len() - i,
    {
        let mut j: usize = i + 1;
        while j < s.len()
            invariant
                i < j <= s@.len(),
                forall|a: int, b: int| 0 <= a < b < s@.len() && a < i ==> s@[a].addr@ != s@[b].addr@,
                forall|b: int| i < b < j ==> s@[i as int].addr@ != s@[b].addr@,
            decreases s@.len() - j,
        {
            if same_addr(&s[i].addr, &s[j].addr) {
                return false;
            }
            j = j + 1;
        }
        i = i + 1;
    }
    true
}

/// Tells whether no player of `a` has the address of a player of `b`.
pub fn check_disjoint(a: &Vec<Player>, b: &Vec<Player>) -> (r: bool)
    ensures
        r == addrs_disjoint(a@, b@),
{
    let mut i: usize = 0;
    while i < a.len()
        invariant
            i <= a@.len(),
            forall|x: int, y: int| 0 <= x < i && 0 <= y < b@.len() ==> a@[x].addr@ != b@[y].addr@,
        decreases a@.len() - i,
    {
        let mut j: usize = 0;
        while j < b.len()
            invariant
                i < a@.len(),
                j <= b@.len(),
                forall|x: int, y: int| 0 <= x < i && 0 <= y < b@.len() ==> a@[x].addr@ != b@[y].addr@,
                forall|y: int| 0 <= y < j ==> a@[i as int].addr@ != b@[y].addr@,
            decreases b@.len() - j,
        {
            if same_addr(&a[i].addr, &b[j].addr) {
                return false;
            }
            j = j + 1;
        }
        i = i + 1;
    }
    true
}

} // verus!
