use nile::score::TurnScore;

#[test]
fn score() {
    assert_eq!(TurnScore::default().score(), 0);
    assert_eq!(TurnScore::new(86, 14).score(), 72);
    assert_eq!(TurnScore::new(48, 96).score(), -48);
}

#[test]
fn add() {
    let target = TurnScore::new(100, 140);
    assert_eq!(target + TurnScore::new(100, 60), TurnScore::new(200, 200));
}

#[test]
fn add_id() {
    let target = TurnScore::new(20, 15);
    let zero = TurnScore::default();
    assert_eq!(target + zero, target);
}

#[test]
fn add_associative() {
    let target1 = TurnScore::new(10, 5);
    let target2 = TurnScore::new(4, 0);
    let target3 = TurnScore::new(-13, -4);
    assert_eq!((target1 + target2) + target3, target1 + (target2 + target3));
}

#[test]
fn add_commutative() {
    let target1 = TurnScore::new(40, 20);
    let target2 = TurnScore::new(10, 30);
    assert_eq!(target1 + target2, target2 + target1);
}

#[test]
fn sub() {
    let target = TurnScore::new(40, 48);
    assert_eq!(target - TurnScore::new(16, 32), TurnScore::new(24, 16));
}

#[test]
fn neg_undoes() {
    let target = TurnScore::new(100, 48);
    assert_eq!(target + (-target), TurnScore::default());
}

#[test]
fn add_assign() {
    let target = TurnScore::new(40, 8);
    let mut copy = target.clone();
    let rhs = TurnScore::new(16, 0);
    copy += rhs;
    assert_eq!(copy, target + rhs);
}

#[test]
fn from_points_splits_gains_and_losses() {
    assert_eq!(TurnScore::from(20), TurnScore::new(20, 0));
    assert_eq!(TurnScore::from(-100), TurnScore::new(0, 100));
    assert_eq!(TurnScore::from(i16::MIN), TurnScore::new(0, i16::MIN));
}

#[test]
fn mul_and_div_scale_both_components() {
    assert_eq!(TurnScore::new(-35, -10) * 2, TurnScore::new(-70, -20));
    assert_eq!(TurnScore::new(-75, 9) / 2, TurnScore::new(-37, 4));
}

#[test]
fn add_assign_wraps_like_a_release_build() {
    let mut s = TurnScore::new(i16::MAX, 0);
    s += TurnScore::new(1, 0);
    assert_eq!(s, TurnScore::new(i16::MIN, 0));
}
