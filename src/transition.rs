use vstd::prelude::*;

use crate::catalog::{tome_has_id, Action, MagicTome, Order, Spell};
use crate::first::{first_match, lemma_first_match, lemma_first_match_at, lemma_first_match_none};
use crate::state::{
    affordable_order, available_in_roster, brew_actions, brew_target, cast_actions, evaluation, in_roster, is_id,
    learn_actions, legal, order_brewable, possible_actions, roster_ids, spell_has_id, step, with_me, GameState,
    GameView, PlayerState, PlayerView, LEARNED_ID_OFFSET, LEARN_TURNS,
};
use crate::vec4::{sum_non_neg, Vec4};

verus! {

/// The index of the first order with identifier `id` that `p` can brew.
fn find_order_to_brew(orders: &Vec<Order>, p: &PlayerState, id: usize) -> (r: Option<usize>)
    ensures
        match r {
            Some(k) => k == first_match(orders@, brew_target(p@, id)),
            None => first_match(orders@, brew_target(p@, id)) == -1,
        },
{
    let ghost f = brew_target(p@, id);
    let mut i: usize = 0;
    while i < orders.len()
        invariant
            i <= orders.len(),
            f == brew_target(p@, id),
            forall|j: int| 0 <= j < i ==> !f(#[trigger] orders@[j]),
        decreases orders.len() - i,
    {
        if orders[i].id == id && p.can_brew(orders[i]) {
            proof {
                lemma_first_match_at(orders@, f, i as int);
            }
            return Some(i);
        }
        i = i + 1;
    }
    proof {
        lemma_first_match_none(orders@, f);
    }
    None
}

/// The index of the first spell of `roster` with identifier `id`.
fn find_spell(roster: &Vec<Spell>, id: usize) -> (r: Option<usize>)
    ensures
        match r {
            Some(k) => k == first_match(roster@, spell_has_id(id)),
            None => first_match(roster@, spell_has_id(id)) == -1,
        },
{
    let ghost f = spell_has_id(id);
    let mut i: usize = 0;
    while i < roster.len()
        invariant
            i <= roster.len(),
            f == spell_has_id(id),
            forall|j: int| 0 <= j < i ==> !f(#[trigger] roster@[j]),
        decreases roster.len() - i,
    {
        if roster[i].id == id {
            proof {
                lemma_first_match_at(roster@, f, i as int);
            }
            return Some(i);
        }
        i = i + 1;
    }
    proof {
        lemma_first_match_none(roster@, f);
    }
    None
}

/// The index of the first tome entry with identifier `id`.
fn find_tome_entry(tome: &MagicTome, id: usize) -> (r: Option<usize>)
    ensures
        match r {
            Some(k) => k == first_match(tome@, tome_has_id(id)),
            None => first_match(tome@, tome_has_id(id)) == -1,
        },
{
    let ghost f = tome_has_id(id);
    let mut i: usize = 0;
    while i < tome.spells.len()
        invariant
            i <= tome@.len(),
            f == tome_has_id(id),
            forall|j: int| 0 <= j < i ==> !f(#[trigger] tome@[j]),
        decreases tome@.len() - i,
    {
        if tome.spells[i].id == id {
            proof {
                lemma_first_match_at(tome@, f, i as int);
            }
            return Some(i);
        }
        i = i + 1;
    }
    proof {
        lemma_first_match_none(tome@, f);
    }
    None
}

/// The index of the first occurrence of `id` in `ids`.
fn find_id(ids: &Vec<usize>, id: usize) -> (r: Option<usize>)
    ensures
        match r {
            Some(k) => k == first_match(ids@, is_id(id)),
            None => first_match(ids@, is_id(id)) == -1,
        },
{
    let ghost f = is_id(id);
    let mut i: usize = 0;
    while i < ids.len()
        invariant
            i <= ids.len(),
            f == is_id(id),
            forall|j: int| 0 <= j < i ==> !f(#[trigger] ids@[j]),
        decreases ids.len() - i,
    {
        if ids[i] == id {
            proof {
                lemma_first_match_at(ids@, f, i as int);
            }
            return Some(i);
        }
        i = i + 1;
    }
    proof {
        lemma_first_match_none(ids@, f);
    }
    None
}

/// The identifiers of `roster`, in order.
pub(crate) fn ids_of(roster: &Vec<Spell>) -> (r: Vec<usize>)
    ensures
        r@ == roster_ids(roster@),
{
    let mut r: Vec<usize> = Vec::new();
    let mut i: usize = 0;
    while i < roster.len()
        invariant
            i <= roster.len(),
            r@ == roster_ids(roster@.subrange(0, i as int)),
        decreases roster.len() - i,
    {
        r.push(roster[i].id);
        i = i + 1;
        assert(r@ =~= roster_ids(roster@.subrange(0, i as int)));
    }
    assert(roster@.subrange(0, i as int) =~= roster@);
    r
}

impl PlayerState {
    pub fn new(score: i32, brew_count: i32, inventory: Vec4, available_spells: Vec<usize>) -> (r: PlayerState)
        ensures
            r@ == (PlayerView { score, inventory, brew_count, available: available_spells@ }),
    {
        PlayerState { score, brew_count, inventory, available_spells }
    }

    /// A copy with the same value.
    pub fn duplicate(&self) -> (r: PlayerState)
        ensures
            r@ == self@,
    {
        PlayerState {
            score: self.score,
            inventory: self.inventory,
            brew_count: self.brew_count,
            available_spells: self.available_spells.clone(),
        }
    }

    /// Score plus the inventory weighted by tier (1, 2, 3, 4).
    pub fn evaluate(&self) -> (r: i64)
        ensures
            r == evaluation(self@),
    {
        let inv = self.inventory;
        self.score as i64 + inv.x as i64 + inv.y as i64 * 2 + inv.z as i64 * 3 + inv.w as i64 * 4
    }

    pub fn can_afford_spell(&self, ingredients: Vec4) -> (r: bool)
        ensures
            r == sum_non_neg(self.inventory, ingredients),
    {
        ingredients.keeps_non_neg(self.inventory)
    }

    /// Whether brewing `order` keeps inventory, score and brew count in range.
    pub fn can_brew(&self, order: Order) -> (r: bool)
        ensures
            r == order_brewable(self@, order),
    {
        order.delta.keeps_stocked(self.inventory) && self.score as i64 + order.price as i64
            >= i32::MIN as i64 && self.score as i64 + order.price as i64 <= i32::MAX as i64
            && self.brew_count < i32::MAX
    }
}

/// Applies `action` to player `p` against the roster, orders and tome it is played with.
fn apply_parts(
    p: &mut PlayerState,
    roster: &mut Vec<Spell>,
    orders: &mut Vec<Order>,
    tome: &mut MagicTome,
    action: Action,
    enemy: Ghost<PlayerView>,
    enemy_roster: Ghost<Seq<Spell>>,
)
    requires
        legal(
            GameView {
                me: old(p)@,
                roster: old(roster)@,
                enemy: enemy@,
                enemy_roster: enemy_roster@,
                orders: old(orders)@,
                tome: old(tome)@,
            },
            action,
        ),
    ensures
        (GameView {
            me: final(p)@,
            roster: final(roster)@,
            enemy: enemy@,
            enemy_roster: enemy_roster@,
            orders: final(orders)@,
            tome: final(tome)@,
        }) == step(
            GameView {
                me: old(p)@,
                roster: old(roster)@,
                enemy: enemy@,
                enemy_roster: enemy_roster@,
                orders: old(orders)@,
                tome: old(tome)@,
            },
            action,
        ),
{
    match action {
        Action::Brew(id) => {
            let k = find_order_to_brew(orders, p, id);
            proof {
                lemma_first_match(orders@, brew_target(p@, id));
            }
            let k = k.unwrap();
            let order = orders[k];
            p.inventory.add_assign(order.delta);
            p.score = p.score + order.price;
            p.brew_count = p.brew_count + 1;
            orders.remove(k);
        },
        Action::Cast(id) => {
            if let Some(s) = find_spell(roster, id) {
                proof {
                    lemma_first_match(roster@, spell_has_id(id));
                    lemma_first_match(p.available_spells@, is_id(id));
                    let j = choose|j: int| 0 <= j < p@.available.len() && p@.available[j] == id;
                    assert(is_id(id)(p@.available[j]));
                }
                let idx = find_id(&p.available_spells, id).unwrap();
                let delta = roster[s].delta;
                p.inventory.add_assign(delta);
                p.available_spells.remove(idx);
            }
        },
        Action::Learn(id) => {
            if let Some(k) = find_tome_entry(tome, id) {
                proof {
                    lemma_first_match(tome@, tome_has_id(id));
                }
                let entry = tome.spells[k];
                if p.inventory.x as i128 - entry.tome_index as i128 >= 0 && p.inventory.y >= 0
                    && p.inventory.z >= 0 && p.inventory.w >= 0 {
                    roster.push(Spell::new(entry.id + LEARNED_ID_OFFSET, entry.delta));
                    tome.remove_spell(entry);
                }
            }
        },
        Action::Rest => {
            p.available_spells = ids_of(roster);
        },
        Action::Wait => {},
    }
}

impl PlayerState {
    /// Applies `action` to this player, with the roster, orders and tome of `game_state`;
    /// the player stored in `game_state` is left alone. Casting a spell that is not
    /// available this round is refused by the precondition.
    pub fn apply(&mut self, game_state: &mut GameState, action: Action)
        requires
            legal(with_me(old(game_state)@, old(self)@), action),
        ensures
            with_me(final(game_state)@, final(self)@) == step(with_me(old(game_state)@, old(self)@), action),
            final(game_state).me@ == old(game_state).me@,
    {
        apply_parts(
            self,
            &mut game_state.my_spells,
            &mut game_state.orders,
            &mut game_state.tome,
            action,
            Ghost(game_state.enemy@),
            Ghost(game_state.enemy_spells@),
        );
    }

    /// The actions the planner tries from this player on turn `turn`: a `Brew` for each
    /// brewable order, a `Learn` for each affordable tome entry during the first turns, a
    /// `Cast` for each available spell that keeps the inventory in stock, and `Rest` when a
    /// spell has been used.
    pub fn get_possible_actions(&self, game_state: &GameState, turn: usize) -> (r: Vec<Action>)
        requires
            available_in_roster(self@, game_state@.roster),
        ensures
            r@ == possible_actions(self@, game_state@, turn as int),
    {
        let mut actions: Vec<Action> = Vec::new();
        let orders = &game_state.orders;
        let mut i: usize = 0;
        while i < orders.len()
            invariant
                i <= orders.len(),
                actions@ == brew_actions(orders@.subrange(0, i as int), self@),
            decreases orders.len() - i,
        {
            if self.can_brew(orders[i]) {
                actions.push(Action::Brew(orders[i].id));
            }
            assert(orders@.subrange(0, i + 1).drop_last() =~= orders@.subrange(0, i as int));
            i = i + 1;
        }
        assert(orders@.subrange(0, orders.len() as int) =~= orders@);
        let ghost brews = actions@;

        if turn < LEARN_TURNS {
            let tome = &game_state.tome.spells;
            let mut i: usize = 0;
            while i < tome.len()
                invariant
                    i <= tome.len(),
                    tome@ == game_state@.tome,
                    actions@ == brews + learn_actions(tome@, self.inventory, i as int),
                decreases tome.len() - i,
            {
                if self.inventory.x as i128 >= i as i128 && tome[i].id <= usize::MAX - LEARNED_ID_OFFSET {
                    actions.push(Action::Learn(tome[i].id));
                }
                i = i + 1;
                assert(actions@ =~= brews + learn_actions(tome@, self.inventory, i as int));
            }
        }
        let ghost before_casts = actions@;

        let available = &self.available_spells;
        let mut i: usize = 0;
        while i < available.len()
            invariant
                i <= available.len(),
                available@ == self@.available,
                available_in_roster(self@, game_state@.roster),
                actions@ == before_casts + cast_actions(
                    available@.subrange(0, i as int),
                    game_state@.roster,
                    self.inventory,
                ),
            decreases available.len() - i,
        {
            let id = available[i];
            assert(available@.subrange(0, i + 1).drop_last() =~= available@.subrange(0, i as int));
            assert(available@.subrange(0, i + 1).last() == id);
            match find_spell(&game_state.my_spells, id) {
                Some(k) => {
                    proof {
                        lemma_first_match(game_state@.roster, spell_has_id(id));
                    }
                    if game_state.my_spells[k].delta.keeps_stocked(self.inventory) {
                        actions.push(Action::Cast(id));
                    }
                },
                None => {
                    proof {
                        lemma_first_match(game_state@.roster, spell_has_id(id));
                        assert(in_roster(game_state@.roster, self@.available[i as int]));
                        let j = choose|j: int|
                            0 <= j < game_state@.roster.len() && game_state@.roster[j].id == self@.available[i as int];
                        assert(!spell_has_id(id)(game_state@.roster[j]));
                    }
                },
            }
            i = i + 1;
            assert(actions@ =~= before_casts + cast_actions(
                available@.subrange(0, i as int),
                game_state@.roster,
                self.inventory,
            ));
        }
        assert(available@.subrange(0, available.len() as int) =~= available@);

        if self.available_spells.len() != game_state.my_spells.len() {
            actions.push(Action::Rest);
        }
        assert(actions@ =~= possible_actions(self@, game_state@, turn as int));
        actions
    }
}

impl GameState {
    pub fn new(
        me: PlayerState,
        my_spells: Vec<Spell>,
        enemy: PlayerState,
        enemy_spells: Vec<Spell>,
        orders: Vec<Order>,
        tome: MagicTome,
    ) -> (r: GameState)
        ensures
            r@ == (GameView {
                me: me@,
                roster: my_spells@,
                enemy: enemy@,
                enemy_roster: enemy_spells@,
                orders: orders@,
                tome: tome@,
            }),
    {
        GameState { me, my_spells, enemy, enemy_spells, orders, tome }
    }

    /// A copy with the same value.
    pub fn duplicate(&self) -> (r: GameState)
        ensures
            r@ == self@,
    {
        GameState {
            me: self.me.duplicate(),
            my_spells: self.my_spells.clone(),
            enemy: self.enemy.duplicate(),
            enemy_spells: self.enemy_spells.clone(),
            orders: self.orders.clone(),
            tome: MagicTome::new(self.tome.spells.clone()),
        }
    }

    /// A `Brew` for each order the active player can brew, in order.
    pub fn get_possible_actions(&self) -> (r: Vec<Action>)
        ensures
            r@ == brew_actions(self@.orders, self@.me),
    {
        let mut actions: Vec<Action> = Vec::new();
        let mut i: usize = 0;
        while i < self.orders.len()
            invariant
                i <= self.orders.len(),
                actions@ == brew_actions(self.orders@.subrange(0, i as int), self@.me),
            decreases self.orders.len() - i,
        {
            if self.me.can_brew(self.orders[i]) {
                actions.push(Action::Brew(self.orders[i].id));
            }
            assert(self.orders@.subrange(0, i + 1).drop_last() =~= self.orders@.subrange(0, i as int));
            i = i + 1;
        }
        assert(self.orders@.subrange(0, self.orders.len() as int) =~= self.orders@);
        actions
    }

    /// Applies `action` to the active player and the game around it.
    pub fn apply(&mut self, action: Action)
        requires
            legal(old(self)@, action),
        ensures
            final(self)@ == step(old(self)@, action),
    {
        apply_parts(
            &mut self.me,
            &mut self.my_spells,
            &mut self.orders,
            &mut self.tome,
            action,
            Ghost(self.enemy@),
            Ghost(self.enemy_spells@),
        );
    }

    /// The first open order whose delta keeps the active player's inventory non-negative.
    pub fn find_brewable_order(&self) -> (r: Option<Order>)
        ensures
            first_match(self@.orders, affordable_order(self@.me.inventory)) == -1 ==> r.is_none(),
            first_match(self@.orders, affordable_order(self@.me.inventory)) >= 0 ==> r == Some(
                self@.orders[first_match(self@.orders, affordable_order(self@.me.inventory))],
            ),
    {
        let ghost f = affordable_order(self@.me.inventory);
        let mut i: usize = 0;
        while i < self.orders.len()
            invariant
                i <= self.orders.len(),
                f == affordable_order(self@.me.inventory),
                forall|j: int| 0 <= j < i ==> !f(#[trigger] self@.orders[j]),
            decreases self.orders.len() - i,
        {
            if self.orders[i].can_be_fulfilled_by(self.me.inventory) {
                proof {
                    lemma_first_match_at(self@.orders, f, i as int);
                }
                return Some(self.orders[i]);
            }
            i = i + 1;
        }
        proof {
            lemma_first_match_none(self@.orders, f);
        }
        None
    }
}

} // verus!
