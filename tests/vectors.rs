use brew_planner::{Order, Spell, TomeSpell, Vec4};

#[test]
fn new_and_zero_hold_their_components() {
    let v = Vec4::new(1, -2, 3, -4);
    assert_eq!((v.x, v.y, v.z, v.w), (1, -2, 3, -4));
    let z = Vec4::zero();
    assert_eq!(z, Vec4::new(0, 0, 0, 0));
}

#[test]
fn add_then_sub_gives_back_the_vector() {
    let a = Vec4::new(3, -7, 0, 12);
    let b = Vec4::new(-5, 2, 9, -1);
    let s = a.add(b);
    assert_eq!(s, Vec4::new(-2, -5, 9, 11));
    assert_eq!(s.sub(b), a);
    let mut m = a;
    m.add_assign(b);
    m.sub_assign(b);
    assert_eq!(m, a);
}

#[test]
fn non_negative_means_every_component() {
    assert!(Vec4::zero().is_non_neg());
    assert!(Vec4::new(0, 1, 2, 3).is_non_neg());
    assert!(!Vec4::new(0, 0, 0, -1).is_non_neg());
    assert!(!Vec4::new(-1, 5, 5, 5).is_non_neg());
}

#[test]
fn magnitude2_is_the_exact_sum_of_squares() {
    assert_eq!(Vec4::new(1, -2, 3, -4).magnitude2(), 30);
    let big = Vec4::new(i32::MIN, i32::MIN, i32::MIN, i32::MIN);
    assert_eq!(big.magnitude2(), 4 * (1u128 << 62));
}

#[test]
fn keeps_non_neg_decides_without_overflow() {
    let inv = Vec4::new(i32::MAX, 0, 0, 0);
    assert!(Vec4::new(i32::MAX, 0, 0, 0).keeps_non_neg(inv));
    assert!(!Vec4::new(i32::MAX, 0, 0, 0).keeps_stocked(inv));
    assert!(Vec4::new(-1, 0, 0, 0).keeps_stocked(inv));
    assert!(!Vec4::new(0, -1, 0, 0).keeps_non_neg(inv));
}

#[test]
fn spell_repeatable_flag_is_set_by_a_negative_component() {
    assert!(Spell::new(3, Vec4::new(-1, 1, 0, 0)).is_repeatable);
    assert!(!Spell::new(4, Vec4::new(2, 0, 0, 0)).is_repeatable);
    assert!(TomeSpell::new(7, Vec4::new(0, 0, -2, 1), 3).is_repeatable());
    assert!(!TomeSpell::new(8, Vec4::new(0, 0, 0, 1), 0).is_repeatable());
}

#[test]
fn affordability_is_non_negativity_of_the_sum() {
    let inv = Vec4::new(2, 1, 0, 0);
    let order = Order::new(40, 9, Vec4::new(-2, -1, 0, 0));
    assert!(order.can_be_fulfilled_by(inv));
    assert!(!order.can_be_fulfilled_by(Vec4::new(1, 1, 0, 0)));
    let spell = Spell::new(1, Vec4::new(-3, 1, 0, 0));
    assert!(!spell.can_be_afforded_by(inv));
    assert!(spell.can_be_afforded_by(Vec4::new(3, 0, 0, 0)));
}
