use takoyaki_arm::text::{push_decimal, push_signed_decimal};
use takoyaki_arm::{Direction, Point, SingleNodeArmState, StarArmState};

#[test]
fn new_arm_points_right_and_is_empty() {
    let arm = StarArmState::new(4);
    assert_eq!(arm.num_node, 4);
    assert_eq!(arm.root, Point { x: 0, y: 0 });
    assert_eq!(arm.init_root, Point { x: 0, y: 0 });
    assert_eq!(arm.node_direction, vec![Direction::Right; 4]);
    assert_eq!(arm.node_have_takoyaki, vec![false; 4]);
    assert!(arm.is_empty());
    assert!(!arm.is_full());
    assert_eq!(arm.count_have_takoyaki(), 0);
}

#[test]
fn a_lone_root_is_both_empty_and_full() {
    let arm = StarArmState::new(1);
    assert!(arm.is_empty());
    assert!(arm.is_full());
}

#[test]
fn leaf_position_follows_root_and_direction() {
    let mut arm = StarArmState::new(3);
    arm.root = Point { x: 5, y: 7 };
    assert_eq!(arm.leaf_position(1), Point { x: 5, y: 8 });
    arm.rotate_clockwise(1);
    assert_eq!(arm.node_direction, vec![Direction::Right, Direction::Down, Direction::Right]);
    assert_eq!(arm.leaf_position(1), Point { x: 6, y: 7 });
    arm.rotate_counter_clockwise(2);
    assert_eq!(arm.node_direction, vec![Direction::Right, Direction::Down, Direction::Up]);
    assert_eq!(arm.leaf_position(2), Point { x: 4, y: 7 });
    arm.move_root(Direction::Left);
    assert_eq!(arm.root, Point { x: 5, y: 6 });
    assert_eq!(arm.init_root, Point { x: 0, y: 0 });
    assert_eq!(arm.leaf_position(1), Point { x: 6, y: 6 });
    arm.move_root(Direction::Up);
    assert_eq!(arm.root, Point { x: 4, y: 6 });
}

#[test]
fn count_have_takoyaki_counts_the_set_entries() {
    let mut arm = StarArmState::new(4);
    arm.node_have_takoyaki = vec![false, true, false, true];
    assert_eq!(arm.count_have_takoyaki(), 2);
    assert!(!arm.is_empty());
    assert!(!arm.is_full());
    arm.node_have_takoyaki = vec![false, true, true, true];
    assert_eq!(arm.count_have_takoyaki(), 3);
    assert!(arm.is_full());
}

#[test]
fn init_lines_describe_the_arm() {
    let mut arm = StarArmState::new(3);
    arm.init_root = Point { x: 12, y: -3 };
    assert_eq!(arm.init_lines(), vec!["3", "0 1", "0 1", "12 -3"]);
    assert_eq!(StarArmState::new(1).init_lines(), vec!["1", "0 0"]);
    assert_eq!(StarArmState::new(15).init_lines().len(), 16);
    assert_eq!(StarArmState::new(15).init_lines()[0], "15");
}

#[test]
fn single_node_arm_describes_itself() {
    let arm = SingleNodeArmState {
        root_position: Point { x: 9, y: 9 },
        init_root_position: Point { x: 3, y: 20 },
        have_takoyaki: false,
    };
    assert_eq!(arm.describe(), "1\n3 20");
}

#[test]
fn decimals_have_no_leading_zeros() {
    for n in [0u64, 7, 10, 15, 99, 100, 100_000, 1234567890, u64::MAX] {
        let mut s = String::from("n=");
        push_decimal(&mut s, n);
        assert_eq!(s, format!("n={}", n));
    }
    for v in [0i32, 5, -5, 30, -30, i32::MAX, i32::MIN] {
        let mut s = String::new();
        push_signed_decimal(&mut s, v);
        assert_eq!(s, format!("{}", v));
    }
}
