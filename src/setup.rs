use vstd::prelude::*;

use crate::catalog::{MagicTome, Order, Spell, TomeSpell};
use crate::state::{roster_ids, GameState, GameView, PlayerState, PlayerView};
use crate::transition::ids_of;
use crate::vec4::{non_neg, Vec4};

verus! {

/// What an entity of the turn input is.
#[derive(PartialEq, Eq, Structural, Copy, Clone, Debug)]
pub enum EntityKind {
    Brew,
    Cast,
    OpponentCast,
    Learn,
    Other,
}

/// One entity line of the turn input, with the fields the game state keeps.
#[derive(PartialEq, Eq, Structural, Copy, Clone, Debug)]
pub struct Entity {
    pub id: usize,
    pub kind: EntityKind,
    pub delta: Vec4,
    pub price: i32,
    pub tome_index: usize,
}

/// The entities of kind `kind`, in input order.
pub open spec fn of_kind(es: Seq<Entity>, kind: EntityKind) -> Seq<Entity>
    decreases es.len(),
{
    if es.len() == 0 {
        seq![]
    } else if es.last().kind == kind {
        of_kind(es.drop_last(), kind).push(es.last())
    } else {
        of_kind(es.drop_last(), kind)
    }
}

pub open spec fn order_of(e: Entity) -> Order {
    Order { id: e.id, price: e.price, delta: e.delta }
}

pub open spec fn spell_of(e: Entity) -> Spell {
    Spell { id: e.id, delta: e.delta, is_repeatable: !non_neg(e.delta) }
}

pub open spec fn tome_spell_of(e: Entity) -> TomeSpell {
    TomeSpell { id: e.id, delta: e.delta, tome_index: e.tome_index }
}

/// The game state that a turn's entities and the two players' inventories and scores
/// describe: every spell of a roster is available and nothing has been brewed yet.
pub open spec fn assembled(
    es: Seq<Entity>,
    my_inventory: Vec4,
    my_score: i32,
    enemy_inventory: Vec4,
    enemy_score: i32,
) -> GameView {
    let roster = of_kind(es, EntityKind::Cast).map_values(|e: Entity| spell_of(e));
    let enemy_roster = of_kind(es, EntityKind::OpponentCast).map_values(|e: Entity| spell_of(e));
    GameView {
        me: PlayerView { score: my_score, inventory: my_inventory, brew_count: 0, available: roster_ids(roster) },
        roster,
        enemy: PlayerView {
            score: enemy_score,
            inventory: enemy_inventory,
            brew_count: 0,
            available: roster_ids(enemy_roster),
        },
        enemy_roster,
        orders: of_kind(es, EntityKind::Brew).map_values(|e: Entity| order_of(e)),
        tome: of_kind(es, EntityKind::Learn).map_values(|e: Entity| tome_spell_of(e)),
    }
}

impl GameState {
    /// Sorts the turn's entities into orders, the two rosters and the tome, in input order.
    pub fn from_entities(
        entities: &Vec<Entity>,
        my_inventory: Vec4,
        my_score: i32,
        enemy_inventory: Vec4,
        enemy_score: i32,
    ) -> (r: GameState)
        ensures
            r@ == assembled(entities@, my_inventory, my_score, enemy_inventory, enemy_score),
    {
        let mut orders: Vec<Order> = Vec::new();
        let mut my_spells: Vec<Spell> = Vec::new();
        let mut enemy_spells: Vec<Spell> = Vec::new();
        let mut tome: Vec<TomeSpell> = Vec::new();
        let ghost es = entities@;
        let mut i: usize = 0;
        while i < entities.len()
            invariant
                i <= entities.len(),
                es == entities@,
                orders@ == of_kind(es.subrange(0, i as int), EntityKind::Brew).map_values(|e: Entity| order_of(e)),
                my_spells@ == of_kind(es.subrange(0, i as int), EntityKind::Cast).map_values(|e: Entity| spell_of(e)),
                enemy_spells@ == of_kind(es.subrange(0, i as int), EntityKind::OpponentCast).map_values(
                    |e: Entity| spell_of(e),
                ),
                tome@ == of_kind(es.subrange(0, i as int), EntityKind::Learn).map_values(
                    |e: Entity| tome_spell_of(e),
                ),
            decreases entities.len() - i,
        {
            let e = entities[i];
            let ghost pre = es.subrange(0, i as int);
            let ghost cur = es.subrange(0, i + 1);
            assert(cur.drop_last() =~= pre);
            assert(cur.last() == e);
            match e.kind {
                EntityKind::Brew => {
                    orders.push(Order::new(e.id, e.price, e.delta));
                },
                EntityKind::Cast => {
                    my_spells.push(Spell::new(e.id, e.delta));
                },
                EntityKind::OpponentCast => {
                    enemy_spells.push(Spell::new(e.id, e.delta));
                },
                EntityKind::Learn => {
                    tome.push(TomeSpell::new(e.id, e.delta, e.tome_index));
                },
                EntityKind::Other => {},
            }
            i = i + 1;
            assert(orders@ =~= of_kind(cur, EntityKind::Brew).map_values(|e: Entity| order_of(e)));
            assert(my_spells@ =~= of_kind(cur, EntityKind::Cast).map_values(|e: Entity| spell_of(e)));
            assert(enemy_spells@ =~= of_kind(cur, EntityKind::OpponentCast).map_values(|e: Entity| spell_of(e)));
            assert(tome@ =~= of_kind(cur, EntityKind::Learn).map_values(|e: Entity| tome_spell_of(e)));
        }
        assert(es.subrange(0, i as int) =~= es);
        let me = PlayerState::new(my_score, 0, my_inventory, ids_of(&my_spells));
        let enemy = PlayerState::new(enemy_score, 0, enemy_inventory, ids_of(&enemy_spells));
        GameState::new(me, my_spells, enemy, enemy_spells, orders, MagicTome::new(tome))
    }
}

} // verus!
