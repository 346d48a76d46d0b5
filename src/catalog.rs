use vstd::prelude::*;

use crate::first::{first_match, lemma_first_match, lemma_first_match_at, lemma_first_match_none};
use crate::vec4::{non_neg, sum_non_neg, Vec4};

verus! {

/// What a player can do on one turn.
#[derive(PartialEq, Eq, Structural, Copy, Clone, Debug, Hash)]
pub enum Action {
    Learn(usize),
    Brew(usize),
    Cast(usize),
    Rest,
    Wait,
}

/// A spell that the player owns.
#[derive(PartialEq, Eq, Structural, Copy, Clone, Hash, Debug)]
pub struct Spell {
    pub id: usize,
    pub delta: Vec4,
    /// Set when `delta` has a negative component.
    pub is_repeatable: bool,
}

impl Spell {
    pub fn new(id: usize, delta: Vec4) -> (r: Spell)
        ensures
            r.id == id,
            r.delta == delta,
            r.is_repeatable == !non_neg(delta),
    {
        Spell { id, delta, is_repeatable: !delta.is_non_neg() }
    }

    pub fn can_be_afforded_by(self, inventory: Vec4) -> (r: bool)
        ensures
            r == sum_non_neg(inventory, self.delta),
    {
        self.delta.keeps_non_neg(inventory)
    }
}

/// A spell of the tome, not learnt yet; `tome_index` is its position and learning tax.
#[derive(PartialEq, Eq, Structural, Copy, Clone, Hash, Debug)]
pub struct TomeSpell {
    pub id: usize,
    pub delta: Vec4,
    pub tome_index: usize,
}

impl TomeSpell {
    pub fn new(id: usize, delta: Vec4, tome_index: usize) -> (r: TomeSpell)
        ensures
            r.id == id,
            r.delta == delta,
            r.tome_index == tome_index,
    {
        TomeSpell { id, delta, tome_index }
    }

    pub fn is_repeatable(&self) -> (r: bool)
        ensures
            r == !non_neg(self.delta),
    {
        !self.delta.is_non_neg()
    }
}

/// A potion order: brewing it adds `delta` to the inventory and `price` to the score.
#[derive(PartialEq, Eq, Structural, Copy, Clone, Hash, Debug)]
pub struct Order {
    pub id: usize,
    pub price: i32,
    pub delta: Vec4,
}

impl Order {
    pub fn new(id: usize, price: i32, delta: Vec4) -> (r: Order)
        ensures
            r.id == id,
            r.price == price,
            r.delta == delta,
    {
        Order { id, price, delta }
    }

    pub fn can_be_fulfilled_by(self, inventory: Vec4) -> (r: bool)
        ensures
            r == sum_non_neg(inventory, self.delta),
    {
        self.delta.keeps_non_neg(inventory)
    }
}

/// The tome entry with identifier `id`.
pub open spec fn tome_has_id(id: usize) -> spec_fn(TomeSpell) -> bool {
    |s: TomeSpell| s.id == id
}

/// The spells that can still be learnt, in tome order.
#[derive(Clone, Debug)]
pub struct MagicTome {
    pub spells: Vec<TomeSpell>,
}

impl View for MagicTome {
    type V = Seq<TomeSpell>;

    open spec fn view(&self) -> Seq<TomeSpell> {
        self.spells@
    }
}

impl MagicTome {
    pub fn new(spells: Vec<TomeSpell>) -> (r: MagicTome)
        ensures
            r@ == spells@,
    {
        MagicTome { spells }
    }

    pub fn add_spell(&mut self, spell: TomeSpell)
        ensures
            final(self)@ == old(self)@.push(spell),
    {
        self.spells.push(spell);
    }

    /// Removes the first entry with the identifier of `spell`, if there is one.
    pub fn remove_spell(&mut self, spell: TomeSpell)
        ensures
            first_match(old(self)@, tome_has_id(spell.id)) == -1 ==> final(self)@ == old(self)@,
            first_match(old(self)@, tome_has_id(spell.id)) >= 0 ==> final(self)@ == old(self)@.remove(
                first_match(old(self)@, tome_has_id(spell.id)),
            ),
    {
        let ghost f = tome_has_id(spell.id);
        proof {
            lemma_first_match(self@, f);
        }
        let mut i: usize = 0;
        while i < self.spells.len()
            invariant
                i <= self.spells.len(),
                self@ == old(self)@,
                f == tome_has_id(spell.id),
                forall|j: int| 0 <= j < i ==> !f(#[trigger] self@[j]),
            decreases self.spells.len() - i,
        {
            if self.spells[i].id == spell.id {
                proof {
                    lemma_first_match_at(self@, f, i as int);
                }
                self.spells.remove(i);
                return;
            }
            i = i + 1;
        }
        proof {
            lemma_first_match_none(self@, f);
        }
    }

    pub fn remove_spell_at(&mut self, index: usize)
        requires
            index < old(self)@.len(),
        ensures
            final(self)@ == old(self)@.remove(index as int),
    {
        self.spells.remove(index);
    }
}

} // verus!
