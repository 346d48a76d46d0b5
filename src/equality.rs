use vstd::prelude::*;

use crate::catalog::{Order, Spell, TomeSpell};
use crate::state::{GameState, PlayerState};

verus! {

/// Whether `a` and `b` hold the same identifiers.
fn same_ids(a: &Vec<usize>, b: &Vec<usize>) -> (r: bool)
    ensures
        r == (a@ == b@),
{
    if a.len() != b.len() {
        return false;
    }
    let mut i: usize = 0;
    while i < a.len()
        invariant
            a.len() == b.len(),
            i <= a.len(),
            forall|j: int| 0 <= j < i ==> a@[j] == b@[j],
        decreases a.len() - i,
    {
        if a[i] != b[i] {
            return false;
        }
        i = i + 1;
    }
    assert(a@ =~= b@);
    true
}

/// Whether `a` and `b` hold the same spells.
fn same_spells(a: &Vec<Spell>, b: &Vec<Spell>) -> (r: bool)
    ensures
        r == (a@ == b@),
{
    if a.len() != b.len() {
        return false;
    }
    let mut i: usize = 0;
    while i < a.len()
        invariant
            a.len() == b.len(),
            i <= a.len(),
            forall|j: int| 0 <= j < i ==> a@[j] == b@[j],
        decreases a.len() - i,
    {
        if a[i] != b[i] {
            return false;
        }
        i = i + 1;
    }
    assert(a@ =~= b@);
    true
}

/// Whether `a` and `b` hold the same orders.
fn same_orders(a: &Vec<Order>, b: &Vec<Order>) -> (r: bool)
    ensures
        r == (a@ == b@),
{
    if a.len() != b.len() {
        return false;
    }
    let mut i: usize = 0;
    while i < a.len()
        invariant
            a.len() == b.len(),
            i <= a.len(),
            forall|j: int| 0 <= j < i ==> a@[j] == b@[j],
        decreases a.len() - i,
    {
        if a[i] != b[i] {
            return false;
        }
        i = i + 1;
    }
    assert(a@ =~= b@);
    true
}

/// Whether `a` and `b` hold the same tome entries.
fn same_tome(a: &Vec<TomeSpell>, b: &Vec<TomeSpell>) -> (r: bool)
    ensures
        r == (a@ == b@),
{
    if a.len() != b.len() {
        return false;
    }
    let mut i: usize = 0;
    while i < a.len()
        invariant
            a.len() == b.len(),
            i <= a.len(),
            forall|j: int| 0 <= j < i ==> a@[j] == b@[j],
        decreases a.len() - i,
    {
        if a[i] != b[i] {
            return false;
        }
        i = i + 1;
    }
    assert(a@ =~= b@);
    true
}

/// Whether two players have the same value.
pub fn same_player(a: &PlayerState, b: &PlayerState) -> (r: bool)
    ensures
        r == (a@ == b@),
{
    a.score == b.score && a.inventory == b.inventory && a.brew_count == b.brew_count && same_ids(
        &a.available_spells,
        &b.available_spells,
    )
}

/// Whether two game states have the same value.
pub fn same_game(a: &GameState, b: &GameState) -> (r: bool)
    ensures
        r == (a@ == b@),
{
    same_player(&a.me, &b.me) && same_spells(&a.my_spells, &b.my_spells) && same_orders(
        &a.orders,
        &b.orders,
    ) && same_tome(&a.tome.spells, &b.tome.spells) && same_player(&a.enemy, &b.enemy)
        && same_spells(&a.enemy_spells, &b.enemy_spells)
}

} // verus!
