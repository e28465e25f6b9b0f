use pcb_router::direction::{AStarNodeDirection, Direction};
use pcb_router::vec2::FixedVec2;

fn pt(x: i64, y: i64) -> FixedVec2 {
    FixedVec2::new(x, y)
}

#[test]
fn opposite_reverses_every_direction() {
    for d in Direction::all_directions() {
        let (dx, dy) = d.to_int_vec2();
        let (ox, oy) = d.opposite().to_int_vec2();
        assert_eq!((ox, oy), (-dx, -dy));
    }
    assert_eq!(Direction::TopLeft.opposite(), Direction::BottomRight);
}

#[test]
fn diagonal_directions() {
    assert!(Direction::TopRight.is_diagonal());
    assert!(Direction::BottomLeft.is_diagonal());
    assert!(!Direction::Up.is_diagonal());
    assert!(!Direction::Left.is_diagonal());
}

#[test]
fn turns_by_quarter_and_eighth() {
    assert_eq!(Direction::Up.right_90_dir(), Direction::Right);
    assert_eq!(Direction::Up.left_90_dir(), Direction::Left);
    assert_eq!(Direction::Up.right_45_dir(), Direction::TopRight);
    assert_eq!(Direction::Up.left_45_dir(), Direction::TopLeft);
    assert_eq!(Direction::BottomLeft.right_90_dir(), Direction::TopLeft);
    for d in Direction::all_directions() {
        assert_eq!(d.left_90_dir().right_90_dir(), d);
        assert_eq!(d.right_45_dir().right_45_dir(), d.right_90_dir());
    }
}

#[test]
fn degree_angles() {
    assert_eq!(Direction::Right.to_degree_angle(), 0);
    assert_eq!(Direction::TopRight.to_degree_angle(), 45);
    assert_eq!(Direction::Up.to_degree_angle(), 90);
    assert_eq!(Direction::BottomRight.to_degree_angle(), 315);
}

#[test]
fn all_directions_are_distinct_and_eight() {
    let all = Direction::all_directions();
    assert_eq!(all.len(), 8);
    for i in 0..8 {
        for j in (i + 1)..8 {
            assert_ne!(all[i], all[j]);
        }
    }
}

#[test]
fn scaled_step() {
    assert_eq!(Direction::BottomLeft.to_fixed_vec2(3), pt(-3, -3));
    assert_eq!(Direction::Up.to_fixed_vec2(2), pt(0, 2));
}

#[test]
fn direction_from_points() {
    assert_eq!(Direction::from_points(pt(0, 0), pt(0, 5)), Ok(Direction::Up));
    assert_eq!(Direction::from_points(pt(0, 0), pt(-4, 0)), Ok(Direction::Left));
    assert_eq!(Direction::from_points(pt(1, 1), pt(4, -2)), Ok(Direction::BottomRight));
    assert_eq!(Direction::from_points(pt(1, 1), pt(-2, 4)), Ok(Direction::TopLeft));
    assert!(Direction::from_points(pt(0, 0), pt(0, 0)).is_err());
    assert!(Direction::from_points(pt(0, 0), pt(1, 2)).is_err());
}

#[test]
fn valid_direction_between_points() {
    assert!(Direction::is_two_points_valid_direction(pt(2, 2), pt(6, 6)));
    assert!(Direction::is_two_points_valid_direction(pt(2, 2), pt(2, -6)));
    assert!(!Direction::is_two_points_valid_direction(pt(2, 2), pt(3, 4)));
    assert!(!Direction::is_two_points_valid_direction(pt(2, 2), pt(2, 2)));
}

#[test]
fn arrival_directions_compare() {
    assert_eq!(AStarNodeDirection::Planar(Direction::Up), AStarNodeDirection::Planar(Direction::Up));
    assert_ne!(AStarNodeDirection::Unset, AStarNodeDirection::Vertical { from_layer: 0 });
}
