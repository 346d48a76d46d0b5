use vstd::prelude::*;

use crate::catalog::{tome_has_id, Action, MagicTome, Order, Spell, TomeSpell};
use crate::first::{first_match, lemma_first_match};
use crate::vec4::{fits_i32, non_neg, plus, stays_stocked, sum_non_neg, Vec4};

verus! {

/// Learnt spells get the tome identifier plus this offset, so that they do not collide.
pub const LEARNED_ID_OFFSET: usize = 1000;

/// Learning is offered only during this many first turns of a match.
pub const LEARN_TURNS: usize = 5;

/// The mathematical value of a player's state.
pub struct PlayerView {
    pub score: i32,
    pub inventory: Vec4,
    pub brew_count: i32,
    pub available: Seq<usize>,
}

/// The mathematical value of the whole game state.
pub struct GameView {
    pub me: PlayerView,
    pub roster: Seq<Spell>,
    pub enemy: PlayerView,
    pub enemy_roster: Seq<Spell>,
    pub orders: Seq<Order>,
    pub tome: Seq<TomeSpell>,
}

/// A player: score, inventory, number of potions brewed, and the spells castable this round.
#[derive(Clone, Debug)]
pub struct PlayerState {
    pub score: i32,
    pub inventory: Vec4,
    pub brew_count: i32,
    pub available_spells: Vec<usize>,
}

impl View for PlayerState {
    type V = PlayerView;

    open spec fn view(&self) -> PlayerView {
        PlayerView {
            score: self.score,
            inventory: self.inventory,
            brew_count: self.brew_count,
            available: self.available_spells@,
        }
    }
}

/// Everything the planner reads and changes: the active player, both rosters, the open
/// orders and the tome.
#[derive(Clone, Debug)]
pub struct GameState {
    pub me: PlayerState,
    pub my_spells: Vec<Spell>,
    pub enemy: PlayerState,
    pub enemy_spells: Vec<Spell>,
    pub orders: Vec<Order>,
    pub tome: MagicTome,
}

impl View for GameState {
    type V = GameView;

    open spec fn view(&self) -> GameView {
        GameView {
            me: self.me@,
            roster: self.my_spells@,
            enemy: self.enemy@,
            enemy_roster: self.enemy_spells@,
            orders: self.orders@,
            tome: self.tome@,
        }
    }
}

/// The game `g` with `p` as the active player.
pub open spec fn with_me(g: GameView, p: PlayerView) -> GameView {
    GameView { me: p, ..g }
}

/// Brewing `o` keeps the inventory between zero and `i32::MAX`, and score and count in range.
pub open spec fn order_brewable(p: PlayerView, o: Order) -> bool {
    stays_stocked(p.inventory, o.delta) && fits_i32(p.score + o.price) && p.brew_count < i32::MAX
}

pub open spec fn brew_target(p: PlayerView, id: usize) -> spec_fn(Order) -> bool {
    |o: Order| o.id == id && order_brewable(p, o)
}

pub open spec fn spell_has_id(id: usize) -> spec_fn(Spell) -> bool {
    |s: Spell| s.id == id
}

pub open spec fn is_id(id: usize) -> spec_fn(usize) -> bool {
    |x: usize| x == id
}

pub open spec fn affordable_order(inv: Vec4) -> spec_fn(Order) -> bool {
    |o: Order| sum_non_neg(inv, o.delta)
}

/// The identifiers of a roster, in order.
pub open spec fn roster_ids(roster: Seq<Spell>) -> Seq<usize> {
    roster.map_values(|s: Spell| s.id)
}

/// The inventory covers the learning tax of `t`: tier 0 minus its tome index stays non-negative.
pub open spec fn pays_tax(inv: Vec4, t: TomeSpell) -> bool {
    inv.x - t.tome_index >= 0 && inv.y >= 0 && inv.z >= 0 && inv.w >= 0
}

/// The spell that learning `t` adds to the roster.
pub open spec fn learned(t: TomeSpell) -> Spell {
    Spell { id: (t.id + LEARNED_ID_OFFSET) as usize, delta: t.delta, is_repeatable: !non_neg(t.delta) }
}

/// Every spell castable this round is in the roster.
pub open spec fn available_in_roster(p: PlayerView, roster: Seq<Spell>) -> bool {
    forall|i: int| 0 <= i < p.available.len() ==> in_roster(roster, #[trigger] p.available[i])
}

/// Some spell of `roster` has identifier `id`.
pub open spec fn in_roster(roster: Seq<Spell>, id: usize) -> bool {
    exists|j: int| 0 <= j < roster.len() && roster[j].id == id
}

/// A game state the planner can work on.
pub open spec fn game_wf(g: GameView) -> bool {
    available_in_roster(g.me, g.roster)
}

/// The action can be applied to `g` without breaking a rule or a machine limit.
pub open spec fn legal(g: GameView, a: Action) -> bool {
    match a {
        Action::Brew(id) => first_match(g.orders, brew_target(g.me, id)) >= 0,
        Action::Cast(id) => {
            &&& g.me.available.contains(id)
            &&& first_match(g.roster, spell_has_id(id)) >= 0 ==> stays_stocked(
                g.me.inventory,
                g.roster[first_match(g.roster, spell_has_id(id))].delta,
            )
        },
        Action::Learn(id) => first_match(g.tome, tome_has_id(id)) >= 0 ==> g.tome[first_match(
            g.tome,
            tome_has_id(id),
        )].id + LEARNED_ID_OFFSET <= usize::MAX,
        Action::Rest => true,
        Action::Wait => true,
    }
}

/// The state that applying a legal action to `g` gives.
pub open spec fn step(g: GameView, a: Action) -> GameView {
    match a {
        Action::Brew(id) => {
            let k = first_match(g.orders, brew_target(g.me, id));
            let o = g.orders[k];
            GameView {
                me: PlayerView {
                    score: (g.me.score + o.price) as i32,
                    inventory: plus(g.me.inventory, o.delta),
                    brew_count: (g.me.brew_count + 1) as i32,
                    available: g.me.available,
                },
                orders: g.orders.remove(k),
                ..g
            }
        },
        Action::Cast(id) => {
            let k = first_match(g.roster, spell_has_id(id));
            if k < 0 {
                g
            } else {
                GameView {
                    me: PlayerView {
                        inventory: plus(g.me.inventory, g.roster[k].delta),
                        available: g.me.available.remove(first_match(g.me.available, is_id(id))),
                        ..g.me
                    },
                    ..g
                }
            }
        },
        Action::Learn(id) => {
            let k = first_match(g.tome, tome_has_id(id));
            if k >= 0 && pays_tax(g.me.inventory, g.tome[k]) {
                GameView { roster: g.roster.push(learned(g.tome[k])), tome: g.tome.remove(k), ..g }
            } else {
                g
            }
        },
        Action::Rest => GameView { me: PlayerView { available: roster_ids(g.roster), ..g.me }, ..g },
        Action::Wait => g,
    }
}

/// A `Brew` for each order that the player can brew, in order.
pub open spec fn brew_actions(orders: Seq<Order>, p: PlayerView) -> Seq<Action>
    decreases orders.len(),
{
    if orders.len() == 0 {
        seq![]
    } else {
        brew_actions(orders.drop_last(), p) + if order_brewable(p, orders.last()) {
            seq![Action::Brew(orders.last().id)]
        } else {
            seq![]
        }
    }
}

/// A `Learn` for each of the first `n` tome entries whose position tier 0 covers.
pub open spec fn learn_actions(tome: Seq<TomeSpell>, inv: Vec4, n: int) -> Seq<Action>
    decreases n,
{
    if n <= 0 {
        seq![]
    } else {
        learn_actions(tome, inv, n - 1) + if inv.x >= n - 1 && tome[n - 1].id + LEARNED_ID_OFFSET
            <= usize::MAX {
            seq![Action::Learn(tome[n - 1].id)]
        } else {
            seq![]
        }
    }
}

/// A `Cast` for each available spell whose delta keeps the inventory in stock.
pub open spec fn cast_actions(available: Seq<usize>, roster: Seq<Spell>, inv: Vec4) -> Seq<Action>
    decreases available.len(),
{
    if available.len() == 0 {
        seq![]
    } else {
        let id = available.last();
        let k = first_match(roster, spell_has_id(id));
        cast_actions(available.drop_last(), roster, inv) + if k >= 0 && stays_stocked(
            inv,
            roster[k].delta,
        ) {
            seq![Action::Cast(id)]
        } else {
            seq![]
        }
    }
}

/// `Rest` when some spell of the roster has been used this round.
pub open spec fn rest_actions(p: PlayerView, roster: Seq<Spell>) -> Seq<Action> {
    if p.available.len() != roster.len() {
        seq![Action::Rest]
    } else {
        seq![]
    }
}

/// The actions the planner considers for player `p` in game `g` on turn `turn`, in order.
pub open spec fn possible_actions(p: PlayerView, g: GameView, turn: int) -> Seq<Action> {
    brew_actions(g.orders, p) + (if turn < LEARN_TURNS {
        learn_actions(g.tome, p.inventory, g.tome.len() as int)
    } else {
        seq![]
    }) + cast_actions(p.available, g.roster, p.inventory) + rest_actions(p, g.roster)
}

/// The value of a state used to pick the best one: score plus inventory weighted by tier.
pub open spec fn evaluation(p: PlayerView) -> int {
    p.score + p.inventory.x + 2 * p.inventory.y + 3 * p.inventory.z + 4 * p.inventory.w
}

/// Each entry of `brew_actions(orders, p)` brews an order of `orders` that `p` can brew.
proof fn lemma_brew_actions(orders: Seq<Order>, p: PlayerView)
    ensures
        forall|i: int|
            0 <= i < brew_actions(orders, p).len() ==> (#[trigger] brew_actions(orders, p)[i]) is Brew
                && exists|j: int|
                0 <= j < orders.len() && brew_target(p, brew_actions(orders, p)[i]->Brew_0)(
                    #[trigger] orders[j],
                ),
    decreases orders.len(),
{
    if orders.len() > 0 {
        let init = orders.drop_last();
        lemma_brew_actions(init, p);
        let acts = brew_actions(orders, p);
        assert forall|i: int| 0 <= i < acts.len() implies (#[trigger] acts[i]) is Brew && exists|j: int|
            0 <= j < orders.len() && brew_target(p, acts[i]->Brew_0)(#[trigger] orders[j]) by {
            if i < brew_actions(init, p).len() {
                assert(acts[i] == brew_actions(init, p)[i]);
                let j = choose|j: int|
                    0 <= j < init.len() && brew_target(p, acts[i]->Brew_0)(#[trigger] init[j]);
                assert(orders[j] == init[j]);
            } else {
                assert(brew_target(p, acts[i]->Brew_0)(orders[orders.len() - 1]));
            }
        }
    }
}

/// Each entry of `learn_actions(tome, inv, n)` learns one of the first `n` entries, whose
/// identifier leaves room for the offset.
proof fn lemma_learn_actions(tome: Seq<TomeSpell>, inv: Vec4, n: int)
    requires
        n <= tome.len(),
    ensures
        forall|i: int|
            0 <= i < learn_actions(tome, inv, n).len() ==> (#[trigger] learn_actions(tome, inv, n)[i]) is Learn
                && learn_actions(tome, inv, n)[i]->Learn_0 + LEARNED_ID_OFFSET <= usize::MAX,
    decreases n,
{
    if n > 0 {
        lemma_learn_actions(tome, inv, n - 1);
        let acts = learn_actions(tome, inv, n);
        assert forall|i: int| 0 <= i < acts.len() implies (#[trigger] acts[i]) is Learn
            && acts[i]->Learn_0 + LEARNED_ID_OFFSET <= usize::MAX by {
            if i < learn_actions(tome, inv, n - 1).len() {
                assert(acts[i] == learn_actions(tome, inv, n - 1)[i]);
            }
        }
    }
}

/// Each entry of `cast_actions(available, roster, inv)` casts an available spell that
/// is in the roster and keeps the inventory in stock.
proof fn lemma_cast_actions(available: Seq<usize>, roster: Seq<Spell>, inv: Vec4)
    ensures
        forall|i: int|
            0 <= i < cast_actions(available, roster, inv).len() ==> {
                let a = #[trigger] cast_actions(available, roster, inv)[i];
                &&& a is Cast
                &&& available.contains(a->Cast_0)
                &&& first_match(roster, spell_has_id(a->Cast_0)) >= 0
                &&& stays_stocked(inv, roster[first_match(roster, spell_has_id(a->Cast_0))].delta)
            },
    decreases available.len(),
{
    if available.len() > 0 {
        let init = available.drop_last();
        lemma_cast_actions(init, roster, inv);
        let acts = cast_actions(available, roster, inv);
        assert forall|i: int| 0 <= i < acts.len() implies {
            let a = #[trigger] acts[i];
            &&& a is Cast
            &&& available.contains(a->Cast_0)
            &&& first_match(roster, spell_has_id(a->Cast_0)) >= 0
            &&& stays_stocked(inv, roster[first_match(roster, spell_has_id(a->Cast_0))].delta)
        } by {
            if i < cast_actions(init, roster, inv).len() {
                assert(acts[i] == cast_actions(init, roster, inv)[i]);
                let id = acts[i]->Cast_0;
                let j = choose|j: int| 0 <= j < init.len() && init[j] == id;
                assert(available[j] == id);
            } else {
                assert(available[available.len() - 1] == available.last());
            }
        }
    }
}

/// Every action that `possible_actions` offers is legal in the state it is offered in.
pub proof fn lemma_possible_actions_legal(p: PlayerView, g: GameView, turn: int)
    ensures
        forall|i: int|
            0 <= i < possible_actions(p, g, turn).len() ==> legal(
                with_me(g, p),
                #[trigger] possible_actions(p, g, turn)[i],
            ),
{
    let b = brew_actions(g.orders, p);
    let l = if turn < LEARN_TURNS {
        learn_actions(g.tome, p.inventory, g.tome.len() as int)
    } else {
        seq![]
    };
    let c = cast_actions(p.available, g.roster, p.inventory);
    let r = rest_actions(p, g.roster);
    lemma_brew_actions(g.orders, p);
    lemma_learn_actions(g.tome, p.inventory, g.tome.len() as int);
    lemma_cast_actions(p.available, g.roster, p.inventory);
    let all = possible_actions(p, g, turn);
    assert(all == b + l + c + r);
    let h = with_me(g, p);
    assert forall|i: int| 0 <= i < all.len() implies legal(h, #[trigger] all[i]) by {
        if i < b.len() {
            let id = b[i]->Brew_0;
            let j = choose|j: int| 0 <= j < g.orders.len() && brew_target(p, id)(#[trigger] g.orders[j]);
            lemma_first_match(g.orders, brew_target(p, id));
            assert(all[i] == b[i]);
        } else if i < b.len() + l.len() {
            assert(all[i] == l[i - b.len()]);
            let id = all[i]->Learn_0;
            lemma_first_match(g.tome, tome_has_id(id));
        } else if i < b.len() + l.len() + c.len() {
            assert(all[i] == c[i - b.len() - l.len()]);
        } else {
            assert(all[i] == r[i - b.len() - l.len() - c.len()]);
        }
    }
}

/// A legal step keeps every available spell in the roster.
pub proof fn lemma_step_keeps_wf(g: GameView, a: Action)
    requires
        game_wf(g),
        legal(g, a),
    ensures
        game_wf(step(g, a)),
{
    let h = step(g, a);
    match a {
        Action::Cast(id) => {
            let k = first_match(g.roster, spell_has_id(id));
            if k >= 0 {
                lemma_first_match(g.me.available, is_id(id));
                let t = choose|t: int| 0 <= t < g.me.available.len() && g.me.available[t] == id;
                assert(is_id(id)(g.me.available[t]));
                let idx = first_match(g.me.available, is_id(id));
                assert forall|i: int| 0 <= i < h.me.available.len() implies in_roster(
                    h.roster,
                    #[trigger] h.me.available[i],
                ) by {
                    let i2 = if i < idx {
                        i
                    } else {
                        i + 1
                    };
                    assert(h.me.available[i] == g.me.available[i2]);
                }
            }
        },
        Action::Learn(id) => {
            let k = first_match(g.tome, tome_has_id(id));
            if k >= 0 && pays_tax(g.me.inventory, g.tome[k]) {
                let r = g.roster.push(learned(g.tome[k]));
                assert forall|i: int| 0 <= i < g.me.available.len() implies in_roster(
                    r,
                    #[trigger] g.me.available[i],
                ) by {
                    let j = choose|j: int| 0 <= j < g.roster.len() && g.roster[j].id == g.me.available[i];
                    assert(r[j] == g.roster[j]);
                }
            }
        },
        Action::Rest => {
            assert forall|i: int| 0 <= i < h.me.available.len() implies in_roster(
                h.roster,
                #[trigger] h.me.available[i],
            ) by {
                assert(h.roster[i].id == h.me.available[i]);
            }
        },
        _ => {},
    }
}

/// Brewing an order that the player can brew adds the order's delta to the inventory,
/// which stays non-negative, adds its price to the score, counts one more brew, and
/// removes exactly that one order; roster, tome and available spells are unchanged.
pub proof fn lemma_brew_effect(g: GameView, id: usize)
    requires
        legal(g, Action::Brew(id)),
    ensures
        ({
            let k = first_match(g.orders, brew_target(g.me, id));
            let o = g.orders[k];
            let h = step(g, Action::Brew(id));
            &&& 0 <= k < g.orders.len()
            &&& o.id == id
            &&& non_neg(h.me.inventory)
            &&& h.me.inventory == plus(g.me.inventory, o.delta)
            &&& h.me.score == g.me.score + o.price
            &&& h.me.brew_count == g.me.brew_count + 1
            &&& h.orders == g.orders.remove(k)
            &&& h.orders.len() == g.orders.len() - 1
            &&& h.me.available == g.me.available
            &&& h.roster == g.roster
            &&& h.tome == g.tome
        }),
{
    lemma_first_match(g.orders, brew_target(g.me, id));
}

/// Casting is legal only for a spell that is available this round.
pub proof fn lemma_cast_needs_available(g: GameView, id: usize)
    requires
        legal(g, Action::Cast(id)),
    ensures
        g.me.available.contains(id),
{
}

/// Resting is always legal and makes exactly the spells of the roster available, in
/// roster order, changing nothing else.
pub proof fn lemma_rest_restores(g: GameView)
    ensures
        legal(g, Action::Rest),
        step(g, Action::Rest).me.available == roster_ids(g.roster),
        step(g, Action::Rest).me.available.len() == g.roster.len(),
        forall|i: int|
            0 <= i < g.roster.len() ==> #[trigger] step(g, Action::Rest).me.available[i] == g.roster[i].id,
        step(g, Action::Rest) == with_me(g, PlayerView { available: roster_ids(g.roster), ..g.me }),
{
}

} // verus!
