use vstd::prelude::*;

use crate::vec2::{abs, point_ok, FixedVec2};

verus! {

/// One of the eight compass directions of a planar routing step.
#[derive(Debug, Clone, Copy, PartialEq, Eq, Structural, Hash, PartialOrd, Ord)]
pub enum Direction {
    Up,
    Down,
    Left,
    Right,
    TopRight,
    TopLeft,
    BottomRight,
    BottomLeft,
}

/// How the A* search arrived at a node: not at all (the start), by a planar
/// step, or by a via from another layer.
#[derive(Debug, Clone, Copy, PartialEq, Eq, Structural)]
pub enum AStarNodeDirection {
    Unset,
    Planar(Direction),
    Vertical { from_layer: usize },
}

/// Position of a direction on the compass, clockwise from `Up`.
pub open spec fn dir_index(d: Direction) -> int {
    match d {
        Direction::Up => 0,
        Direction::TopRight => 1,
        Direction::Right => 2,
        Direction::BottomRight => 3,
        Direction::Down => 4,
        Direction::BottomLeft => 5,
        Direction::Left => 6,
        Direction::TopLeft => 7,
    }
}

/// The direction at a compass position (taken modulo 8).
pub open spec fn index_dir(i: int) -> Direction {
    let k = i % 8;
    if k == 0 {
        Direction::Up
    } else if k == 1 {
        Direction::TopRight
    } else if k == 2 {
        Direction::Right
    } else if k == 3 {
        Direction::BottomRight
    } else if k == 4 {
        Direction::Down
    } else if k == 5 {
        Direction::BottomLeft
    } else if k == 6 {
        Direction::Left
    } else {
        Direction::TopLeft
    }
}

/// Unit step of a direction on the grid.
pub open spec fn dir_dx(d: Direction) -> int {
    match d {
        Direction::Up | Direction::Down => 0,
        Direction::Right | Direction::TopRight | Direction::BottomRight => 1,
        Direction::Left | Direction::TopLeft | Direction::BottomLeft => -1,
    }
}

pub open spec fn dir_dy(d: Direction) -> int {
    match d {
        Direction::Left | Direction::Right => 0,
        Direction::Up | Direction::TopRight | Direction::TopLeft => 1,
        Direction::Down | Direction::BottomRight | Direction::BottomLeft => -1,
    }
}

pub open spec fn is_diag(d: Direction) -> bool {
    dir_dx(d) != 0 && dir_dy(d) != 0
}

/// Angle of a direction in degrees, counter-clockwise from `Right`.
pub open spec fn degree_of(d: Direction) -> int {
    ((10 - dir_index(d)) % 8) * 45
}

/// A grid delta is a legal straight step: non-zero, and horizontal, vertical
/// or at 45 degrees.
pub open spec fn valid_delta(dx: int, dy: int) -> bool {
    !(dx == 0 && dy == 0) && (dx == 0 || dy == 0 || abs(dx) == abs(dy))
}

pub open spec fn valid_step(a: FixedVec2, b: FixedVec2) -> bool {
    valid_delta(b.x - a.x, b.y - a.y)
}

/// The direction of a grid delta, read from the signs of its components.
pub open spec fn delta_dir(dx: int, dy: int) -> Direction {
    if dx == 0 && dy > 0 {
        Direction::Up
    } else if dx == 0 {
        Direction::Down
    } else if dy == 0 && dx > 0 {
        Direction::Right
    } else if dy == 0 {
        Direction::Left
    } else if dx > 0 && dy > 0 {
        Direction::TopRight
    } else if dx < 0 && dy > 0 {
        Direction::TopLeft
    } else if dx > 0 {
        Direction::BottomRight
    } else {
        Direction::BottomLeft
    }
}

pub open spec fn step_dir(a: FixedVec2, b: FixedVec2) -> Direction {
    delta_dir(b.x - a.x, b.y - a.y)
}

/// Every positive multiple of a unit step is a legal delta of that direction.
pub proof fn lemma_multiple_is_valid(d: Direction, k: int)
    requires
        k > 0,
    ensures
        valid_delta(dir_dx(d) * k, dir_dy(d) * k),
        delta_dir(dir_dx(d) * k, dir_dy(d) * k) == d,
{
}

impl Direction {
    pub fn opposite(&self) -> (r: Direction)
        ensures
            dir_dx(r) == -dir_dx(*self),
            dir_dy(r) == -dir_dy(*self),
            dir_index(r) == (dir_index(*self) + 4) % 8,
    {
        match self {
            Direction::Up => Direction::Down,
            Direction::Down => Direction::Up,
            Direction::Left => Direction::Right,
            Direction::Right => Direction::Left,
            Direction::TopRight => Direction::BottomLeft,
            Direction::TopLeft => Direction::BottomRight,
            Direction::BottomRight => Direction::TopLeft,
            Direction::BottomLeft => Direction::TopRight,
        }
    }

    pub fn is_diagonal(&self) -> (r: bool)
        ensures
            r == is_diag(*self),
    {
        matches!(
            self,
            Direction::TopRight | Direction::TopLeft | Direction::BottomRight | Direction::BottomLeft
        )
    }

    /// Angle in whole degrees, counter-clockwise from `Right`.
    pub fn to_degree_angle(&self) -> (r: u32)
        ensures
            r == degree_of(*self),
    {
        match self {
            Direction::Up => 90,
            Direction::Down => 270,
            Direction::Left => 180,
            Direction::Right => 0,
            Direction::TopRight => 45,
            Direction::TopLeft => 135,
            Direction::BottomRight => 315,
            Direction::BottomLeft => 225,
        }
    }

    fn direction_to_int(&self) -> (r: i32)
        ensures
            r == dir_index(*self),
    {
        match self {
            Direction::Up => 0,
            Direction::TopRight => 1,
            Direction::Right => 2,
            Direction::BottomRight => 3,
            Direction::Down => 4,
            Direction::BottomLeft => 5,
            Direction::Left => 6,
            Direction::TopLeft => 7,
        }
    }

    fn int_to_direction(i: i32) -> (r: Direction)
        requires
            0 <= i < 8,
        ensures
            r == index_dir(i as int),
            dir_index(r) == i,
    {
        match i {
            0 => Direction::Up,
            1 => Direction::TopRight,
            2 => Direction::Right,
            3 => Direction::BottomRight,
            4 => Direction::Down,
            5 => Direction::BottomLeft,
            6 => Direction::Left,
            _ => Direction::TopLeft,
        }
    }

    /// A quarter turn counter-clockwise.
    pub fn left_90_dir(&self) -> (r: Direction)
        ensures
            dir_index(r) == (dir_index(*self) + 6) % 8,
            dir_dx(r) == -dir_dy(*self),
            dir_dy(r) == dir_dx(*self),
    {
        Direction::int_to_direction((self.direction_to_int() + 6) % 8)
    }

    /// A quarter turn clockwise.
    pub fn right_90_dir(&self) -> (r: Direction)
        ensures
            dir_index(r) == (dir_index(*self) + 2) % 8,
            dir_dx(r) == dir_dy(*self),
            dir_dy(r) == -dir_dx(*self),
    {
        Direction::int_to_direction((self.direction_to_int() + 2) % 8)
    }

    /// An eighth of a turn counter-clockwise.
    pub fn left_45_dir(&self) -> (r: Direction)
        ensures
            dir_index(r) == (dir_index(*self) + 7) % 8,
    {
        Direction::int_to_direction((self.direction_to_int() + 7) % 8)
    }

    /// An eighth of a turn clockwise.
    pub fn right_45_dir(&self) -> (r: Direction)
        ensures
            dir_index(r) == (dir_index(*self) + 1) % 8,
    {
        Direction::int_to_direction((self.direction_to_int() + 1) % 8)
    }

    pub fn all_directions() -> (r: Vec<Direction>)
        ensures
            r@ == seq![
                Direction::Up,
                Direction::Down,
                Direction::Left,
                Direction::Right,
                Direction::TopRight,
                Direction::TopLeft,
                Direction::BottomRight,
                Direction::BottomLeft,
            ],
            forall|d: Direction| r@.contains(d),
    {
        let r = vec![
            Direction::Up,
            Direction::Down,
            Direction::Left,
            Direction::Right,
            Direction::TopRight,
            Direction::TopLeft,
            Direction::BottomRight,
            Direction::BottomLeft,
        ];
        proof {
            assert forall|d: Direction| r@.contains(d) by {
                let i: int = match d {
                    Direction::Up => 0,
                    Direction::Down => 1,
                    Direction::Left => 2,
                    Direction::Right => 3,
                    Direction::TopRight => 4,
                    Direction::TopLeft => 5,
                    Direction::BottomRight => 6,
                    Direction::BottomLeft => 7,
                };
                assert(r@[i] == d);
            }
        }
        r
    }

    pub fn to_int_vec2(&self) -> (r: (i32, i32))
        ensures
            r.0 == dir_dx(*self),
            r.1 == dir_dy(*self),
    {
        match self {
            Direction::Up => (0, 1),
            Direction::Down => (0, -1),
            Direction::Left => (-1, 0),
            Direction::Right => (1, 0),
            Direction::TopRight => (1, 1),
            Direction::TopLeft => (-1, 1),
            Direction::BottomRight => (1, -1),
            Direction::BottomLeft => (-1, -1),
        }
    }

    /// The step of this direction scaled by `scale` grid units.
    pub fn to_fixed_vec2(&self, scale: i64) -> (r: FixedVec2)
        requires
            scale != i64::MIN,
        ensures
            r.x == dir_dx(*self) * scale,
            r.y == dir_dy(*self) * scale,
            abs(r.x as int) <= abs(scale as int),
            abs(r.y as int) <= abs(scale as int),
    {
        let (dx, dy) = self.to_int_vec2();
        let x: i64 = if dx == 1 { scale } else if dx == -1 { -scale } else { 0 };
        let y: i64 = if dy == 1 { scale } else if dy == -1 { -scale } else { 0 };
        FixedVec2 { x, y }
    }

    pub fn is_two_points_valid_direction(start: FixedVec2, end: FixedVec2) -> (r: bool)
        requires
            point_ok(start),
            point_ok(end),
        ensures
            r == valid_step(start, end),
    {
        match Self::from_points(start, end) {
            Ok(_) => true,
            Err(_) => false,
        }
    }

    /// The direction from `start` to `end`; an error where the two points are
    /// equal or not on one horizontal, vertical or diagonal line.
    pub fn from_points(start: FixedVec2, end: FixedVec2) -> (r: Result<Direction, String>)
        requires
            point_ok(start),
            point_ok(end),
        ensures
            r is Ok <==> valid_step(start, end),
            r matches Ok(d) ==> d == step_dir(start, end),
    {
        let dx = end.x - start.x;
        let dy = end.y - start.y;
        let adx = if dx < 0 { -dx } else { dx };
        let ady = if dy < 0 { -dy } else { dy };
        let diff = ady - adx;
        if dx == 0 && dy > 0 && diff > 0 {
            Ok(Direction::Up)
        } else if dx == 0 && dy < 0 && diff > 0 {
            Ok(Direction::Down)
        } else if dx > 0 && dy == 0 && diff != 0 {
            Ok(Direction::Right)
        } else if dx < 0 && dy == 0 && diff != 0 {
            Ok(Direction::Left)
        } else if dx > 0 && dy > 0 && diff == 0 {
            Ok(Direction::TopRight)
        } else if dx < 0 && dy > 0 && diff == 0 {
            Ok(Direction::TopLeft)
        } else if dx > 0 && dy < 0 && diff == 0 {
            Ok(Direction::BottomRight)
        } else if dx < 0 && dy < 0 && diff == 0 {
            Ok(Direction::BottomLeft)
        } else {
            Err("Invalid points for direction calculation".to_owned())
        }
    }
}

} // verus!
