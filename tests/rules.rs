use brew_planner::{Action, Entity, EntityKind, GameState, MagicTome, Order, PlayerState, Spell, TomeSpell, Vec4};

fn game(inv: Vec4, spells: Vec<Spell>, orders: Vec<Order>, tome: Vec<TomeSpell>) -> GameState {
    let ids: Vec<usize> = spells.iter().map(|s| s.id).collect();
    let me = PlayerState::new(0, 0, inv, ids);
    let enemy = PlayerState::new(0, 0, Vec4::zero(), Vec::new());
    GameState::new(me, spells, enemy, Vec::new(), orders, MagicTome::new(tome))
}

#[test]
fn tome_removes_by_id_or_position() {
    let a = TomeSpell::new(10, Vec4::new(1, 0, 0, 0), 0);
    let b = TomeSpell::new(11, Vec4::new(0, 1, 0, 0), 1);
    let mut tome = MagicTome::new(vec![a, b]);
    tome.remove_spell(TomeSpell::new(99, Vec4::zero(), 0));
    assert_eq!(tome.spells.len(), 2);
    tome.remove_spell(a);
    assert_eq!(tome.spells, vec![b]);
    tome.add_spell(a);
    tome.remove_spell_at(0);
    assert_eq!(tome.spells, vec![a]);
}

#[test]
fn evaluation_weights_tiers_one_to_four() {
    let p = PlayerState::new(7, 0, Vec4::new(1, 2, 3, 4), Vec::new());
    assert_eq!(p.evaluate(), 7 + 1 + 4 + 9 + 16);
    assert!(p.can_afford_spell(Vec4::new(-1, -2, 0, 0)));
    assert!(!p.can_afford_spell(Vec4::new(0, 0, -4, 0)));
}

#[test]
fn brewing_adds_delta_and_price_and_removes_one_order() {
    let o1 = Order::new(50, 12, Vec4::new(-1, -1, 0, 0));
    let o2 = Order::new(51, 8, Vec4::new(-5, 0, 0, 0));
    let mut g = game(Vec4::new(2, 1, 0, 0), Vec::new(), vec![o1, o2], Vec::new());
    assert_eq!(g.get_possible_actions(), vec![Action::Brew(50)]);
    assert_eq!(g.find_brewable_order(), Some(o1));
    g.apply(Action::Brew(50));
    assert_eq!(g.me.inventory, Vec4::new(1, 0, 0, 0));
    assert_eq!(g.me.score, 12);
    assert_eq!(g.me.brew_count, 1);
    assert_eq!(g.orders, vec![o2]);
    assert_eq!(g.find_brewable_order(), None);
}

#[test]
fn casting_uses_the_spell_until_rest() {
    let s1 = Spell::new(1, Vec4::new(2, 0, 0, 0));
    let s2 = Spell::new(2, Vec4::new(-1, 1, 0, 0));
    let mut g = game(Vec4::zero(), vec![s1, s2], Vec::new(), Vec::new());
    let me = g.me.clone();
    assert_eq!(me.get_possible_actions(&g, 9), vec![Action::Cast(1)]);
    g.apply(Action::Cast(1));
    assert_eq!(g.me.inventory, Vec4::new(2, 0, 0, 0));
    assert_eq!(g.me.available_spells, vec![2]);
    let me = g.me.clone();
    assert_eq!(me.get_possible_actions(&g, 9), vec![Action::Cast(2), Action::Rest]);
    g.apply(Action::Rest);
    assert_eq!(g.me.available_spells, vec![1, 2]);
}

#[test]
fn rest_restores_the_full_roster() {
    let s1 = Spell::new(1, Vec4::new(1, 0, 0, 0));
    let s2 = Spell::new(2, Vec4::new(0, 1, 0, 0));
    let mut g = game(Vec4::zero(), vec![s1, s2], Vec::new(), Vec::new());
    g.me.available_spells = Vec::new();
    g.apply(Action::Rest);
    assert_eq!(g.me.available_spells, vec![1, 2]);
}

#[test]
fn learning_is_offered_only_in_the_first_turns() {
    let t0 = TomeSpell::new(20, Vec4::new(0, 2, 0, 0), 0);
    let t1 = TomeSpell::new(21, Vec4::new(0, 0, 1, 0), 1);
    let g = game(Vec4::zero(), Vec::new(), Vec::new(), vec![t0, t1]);
    let me = g.me.clone();
    assert_eq!(me.get_possible_actions(&g, 0), vec![Action::Learn(20)]);
    assert_eq!(me.get_possible_actions(&g, 5), Vec::<Action>::new());
    let rich = game(Vec4::new(1, 0, 0, 0), Vec::new(), Vec::new(), vec![t0, t1]);
    let me = rich.me.clone();
    assert_eq!(me.get_possible_actions(&rich, 4), vec![Action::Learn(20), Action::Learn(21)]);
}

#[test]
fn learning_adds_an_offset_spell_and_drops_the_entry() {
    let t0 = TomeSpell::new(20, Vec4::new(0, 2, 0, 0), 0);
    let t1 = TomeSpell::new(21, Vec4::new(-1, 0, 1, 0), 1);
    let mut g = game(Vec4::zero(), Vec::new(), Vec::new(), vec![t0, t1]);
    g.apply(Action::Learn(21));
    assert!(g.my_spells.is_empty());
    assert_eq!(g.tome.spells.len(), 2);
    g.apply(Action::Learn(20));
    assert_eq!(g.my_spells, vec![Spell::new(1020, Vec4::new(0, 2, 0, 0))]);
    assert_eq!(g.tome.spells, vec![t1]);
    assert!(g.me.available_spells.is_empty());
    let me = g.me.clone();
    let mut other = g.clone();
    let mut p = me.clone();
    p.apply(&mut other, Action::Rest);
    assert_eq!(p.available_spells, vec![1020]);
    assert_eq!(other.me.available_spells, g.me.available_spells);
}

#[test]
fn entities_are_sorted_by_kind() {
    let e = |id: usize, kind: EntityKind, x: i32, price: i32, tome_index: usize| Entity {
        id,
        kind,
        delta: Vec4::new(x, 0, 0, 0),
        price,
        tome_index,
    };
    let entities = vec![
        e(44, EntityKind::Brew, -3, 11, 0),
        e(1, EntityKind::Cast, 2, 0, 0),
        e(5, EntityKind::OpponentCast, 2, 0, 0),
        e(30, EntityKind::Learn, -1, 0, 2),
        e(2, EntityKind::Cast, -1, 0, 0),
        e(9, EntityKind::Other, 0, 0, 0),
    ];
    let g = GameState::from_entities(&entities, Vec4::new(3, 0, 0, 0), 6, Vec4::zero(), 4);
    assert_eq!(g.orders, vec![Order::new(44, 11, Vec4::new(-3, 0, 0, 0))]);
    assert_eq!(g.my_spells, vec![Spell::new(1, Vec4::new(2, 0, 0, 0)), Spell::new(2, Vec4::new(-1, 0, 0, 0))]);
    assert_eq!(g.enemy_spells, vec![Spell::new(5, Vec4::new(2, 0, 0, 0))]);
    assert_eq!(g.tome.spells, vec![TomeSpell::new(30, Vec4::new(-1, 0, 0, 0), 2)]);
    assert_eq!(g.me.available_spells, vec![1, 2]);
    assert_eq!(g.enemy.available_spells, vec![5]);
    assert_eq!((g.me.score, g.me.brew_count, g.enemy.score), (6, 0, 4));
    assert_eq!(g.me.inventory, Vec4::new(3, 0, 0, 0));
}
