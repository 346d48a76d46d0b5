use vstd::prelude::*;

use std::time::Instant;

use crate::catalog::Action;
use crate::planner::{expanded, lemma_run_first, offered_run, planned, planner_wf, run, Planner};
use crate::state::{
    affordable_order, evaluation, game_wf, legal, lemma_possible_actions_legal, possible_actions, with_me, GameState,
};
use crate::first::{first_match, lemma_first_match};

verus! {

/// The search stops expanding once this much time has gone since the turn began.
pub const SEARCH_DEADLINE_MICROS: u128 = 40_000;

/// The search never expands more nodes than this in one turn, whatever the clock says.
pub const MAX_EXPANSIONS: usize = 100_000;

#[verifier::external_type_specification]
#[verifier::external_body]
pub struct ExInstant(Instant);

/// Relies on std::time::Instant::elapsed: the time gone since `start`, in whole microseconds.
/// It reads the system clock, so nothing is promised of the value.
#[verifier::external_body]
fn elapsed_micros(start: &Instant) -> (r: u128) {
    start.elapsed().as_micros()
}

/// The action chosen from a searched path: its first step, else the first possible action,
/// else `Wait`.
pub open spec fn fallback(path: Seq<Action>, possible: Seq<Action>) -> Action {
    if path.len() > 0 {
        path[0]
    } else if possible.len() > 0 {
        possible[0]
    } else {
        Action::Wait
    }
}

/// The decision maker, run once per turn.
#[derive(Copy, Clone, Debug)]
pub struct Bot {}

impl Bot {
    pub fn new() -> (r: Bot) {
        Bot {}
    }

    /// A breadth-first search from `game_state`, until the frontier is empty, the deadline
    /// has passed since `start_instant`, or the expansion cap is reached. The result is
    /// that of the bounded search with as many expansions as the clock allowed: nothing
    /// when the frontier ran empty, else the shortest path found to the best state
    /// expanded, a legal play whose end is no worse than the seed.
    pub fn bfs(self, start_instant: &Instant, game_state: &GameState, turn: usize) -> (r: Vec<Action>)
        requires
            game_wf(game_state@),
        ensures
            exists|n: nat| n <= MAX_EXPANSIONS && r@ == planned(game_state@, turn as int, n),
            r@.len() > 0 ==> run(game_state@, r@) is Some,
            r@.len() > 0 ==> evaluation(run(game_state@, r@)->Some_0.me) >= evaluation(game_state@.me),
            forall|p: Seq<Action>|
                #[trigger] offered_run(game_state@, turn as int, p) == run(game_state@, r@) ==> r@.len() <= p.len(),
    {
        let mut planner = Planner::new(game_state, turn);
        let mut n: usize = 0;
        while n < MAX_EXPANSIONS && planner.has_frontier()
            invariant
                n <= MAX_EXPANSIONS,
                planner_wf(planner@),
                planner@ == expanded(game_state@, turn as int, n as nat),
                planner@.nodes[0].state == game_state@,
                planner@.turn == turn,
            decreases MAX_EXPANSIONS - n,
        {
            if elapsed_micros(start_instant) > SEARCH_DEADLINE_MICROS {
                let r = planner.best_path();
                assert(r@ == planned(game_state@, turn as int, n as nat));
                return r;
            }
            planner.expand_next();
            n = n + 1;
        }
        if planner.has_frontier() {
            let r = planner.best_path();
            assert(r@ == planned(game_state@, turn as int, n as nat));
            r
        } else {
            let r: Vec<Action> = Vec::new();
            assert(r@ =~= planned(game_state@, turn as int, n as nat));
            r
        }
    }

    /// The action to play: a brewable order at once if there is one, else the first step of
    /// the searched path, else the first possible action, else `Wait`.
    pub fn think(self, start_instant: &Instant, state: &GameState, turn: usize) -> (r: Action)
        requires
            game_wf(state@),
        ensures
            first_match(state@.orders, affordable_order(state@.me.inventory)) >= 0 ==> r == Action::Brew(
                state@.orders[first_match(state@.orders, affordable_order(state@.me.inventory))].id,
            ),
            first_match(state@.orders, affordable_order(state@.me.inventory)) == -1 ==> (r == Action::Wait
                || legal(state@, r)),
            first_match(state@.orders, affordable_order(state@.me.inventory)) == -1 ==> exists|n: nat|
                n <= MAX_EXPANSIONS && r == fallback(
                    #[trigger] planned(state@, turn as int, n),
                    possible_actions(state@.me, state@, turn as int),
                ),
    {
        if let Some(order) = state.find_brewable_order() {
            return Action::Brew(order.id);
        }
        proof {
            lemma_first_match(state@.orders, affordable_order(state@.me.inventory));
        }
        let path = self.bfs(start_instant, state, turn);
        if path.len() > 0 {
            proof {
                lemma_run_first(state@, path@);
            }
            return path[0];
        }
        let actions = state.me.get_possible_actions(state, turn);
        proof {
            lemma_possible_actions_legal(state@.me, state@, turn as int);
            assert(with_me(state@, state@.me) == state@);
        }
        if actions.len() > 0 {
            assert(legal(state@, actions@[0]));
            actions[0]
        } else {
            Action::Wait
        }
    }
}

} // verus!
