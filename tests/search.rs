use std::time::{Duration, Instant};

use brew_planner::{Action, Bot, GameState, MagicTome, Order, Planner, PlayerState, Spell, Vec4};

fn scenario() -> GameState {
    let spell = Spell::new(1, Vec4::new(1, 0, 0, 0));
    let order = Order::new(60, 10, Vec4::new(-2, 0, 0, 0));
    let me = PlayerState::new(0, 0, Vec4::zero(), vec![1]);
    let enemy = PlayerState::new(0, 0, Vec4::zero(), Vec::new());
    GameState::new(me, vec![spell], enemy, Vec::new(), vec![order], MagicTome::new(Vec::new()))
}

fn replay(start: &GameState, path: &[Action]) -> GameState {
    let mut g = start.clone();
    for &a in path {
        g.apply(a);
    }
    g
}

#[test]
fn cast_rest_cast_brew_scenario() {
    let g = scenario();
    let path = Planner::plan(&g, 9, 6);
    assert_eq!(path, vec![Action::Cast(1), Action::Rest, Action::Cast(1), Action::Brew(60)]);
    let end = replay(&g, &path);
    assert_eq!(end.me.inventory, Vec4::new(0, 0, 0, 0));
    assert_eq!(end.me.score, 10);
    assert!(end.orders.is_empty());
}

#[test]
fn repeated_searches_return_the_same_path() {
    let g = scenario();
    for budget in [0usize, 1, 3, 7, 25] {
        assert_eq!(Planner::plan(&g, 0, budget), Planner::plan(&g, 0, budget));
    }
}

#[test]
fn path_length_is_the_depth_of_its_node() {
    let g = scenario();
    let mut planner = Planner::new(&g, 9);
    for _ in 0..12 {
        assert!(planner.has_frontier());
        planner.expand_next();
    }
    for k in 0..planner.nodes.len() {
        let path = planner.path_to(k);
        assert_eq!(path.len(), planner.nodes[k].depth);
        let end = replay(&g, &path);
        assert_eq!(end.me.inventory, planner.nodes[k].state.me.inventory);
        assert_eq!(end.me.available_spells, planner.nodes[k].state.me.available_spells);
    }
    for k in 1..planner.nodes.len() {
        assert!(planner.nodes[k - 1].depth <= planner.nodes[k].depth);
    }
}

#[test]
fn a_state_is_discovered_once() {
    let g = scenario();
    let mut planner = Planner::new(&g, 9);
    for _ in 0..8 {
        planner.expand_next();
    }
    for i in 0..planner.nodes.len() {
        for j in (i + 1)..planner.nodes.len() {
            let (a, b) = (&planner.nodes[i].state.me, &planner.nodes[j].state.me);
            let same = a.inventory == b.inventory
                && a.score == b.score
                && a.available_spells == b.available_spells
                && planner.nodes[i].state.orders == planner.nodes[j].state.orders;
            assert!(!same);
        }
    }
}

#[test]
fn zero_budget_returns_the_empty_path() {
    let g = scenario();
    assert!(Planner::plan(&g, 0, 0).is_empty());
}

#[test]
fn an_exhausted_frontier_gives_no_result() {
    let me = PlayerState::new(0, 0, Vec4::zero(), Vec::new());
    let enemy = PlayerState::new(0, 0, Vec4::zero(), Vec::new());
    let g = GameState::new(me, Vec::new(), enemy, Vec::new(), Vec::new(), MagicTome::new(Vec::new()));
    assert!(Planner::plan(&g, 0, 100).is_empty());
    let bot = Bot::new();
    assert!(bot.bfs(&Instant::now(), &g, 0).is_empty());
    assert_eq!(bot.think(&Instant::now(), &g, 0), Action::Wait);
}

#[test]
fn an_expired_deadline_still_gives_a_legal_answer() {
    let g = scenario();
    let start = Instant::now().checked_sub(Duration::from_secs(2)).unwrap_or_else(Instant::now);
    let bot = Bot::new();
    let path = bot.bfs(&start, &g, 0);
    let end = replay(&g, &path);
    assert!(end.me.evaluate() >= g.me.evaluate());
    let action = bot.think(&start, &g, 0);
    assert_eq!(action, Action::Cast(1));
}

#[test]
fn a_brewable_order_is_brewed_at_once() {
    let mut g = scenario();
    g.me.inventory = Vec4::new(3, 0, 0, 0);
    assert_eq!(Bot::new().think(&Instant::now(), &g, 0), Action::Brew(60));
}

#[test]
fn the_timed_search_returns_a_legal_improving_path() {
    let g = scenario();
    let path = Bot::new().bfs(&Instant::now(), &g, 0);
    assert!(!path.is_empty());
    let end = replay(&g, &path);
    assert!(end.me.evaluate() > g.me.evaluate());
}
