//! Tile coordinates and the four cardinal rotations.
//!
//! A `Position` names a tile on the board; the distance between two
//! positions is the Chebyshev distance, which is what power-wire reach
//! checks use.  The four orthogonal directions are indexed
//! `0 = west, 1 = north, 2 = east, 3 = south` throughout the crate,
//! matching the layout of a fluid container's neighbor links.

use vstd::prelude::*;

verus! {

#[derive(PartialEq, Eq, Structural, Clone, Copy, Debug, Hash)]
pub struct Position {
    pub x: i32,
    pub y: i32,
}

/// The tile offset of direction `dir` (0 = west, 1 = north, 2 = east, 3 = south).
pub open spec fn dir_delta(dir: int) -> (int, int) {
    if dir == 0 {
        (-1, 0)
    } else if dir == 1 {
        (0, -1)
    } else if dir == 2 {
        (1, 0)
    } else {
        (0, 1)
    }
}

/// The direction slot on the other side of a link: west pairs with east,
/// north with south.
pub open spec fn opposite_dir(dir: int) -> int {
    if dir < 2 {
        dir + 2
    } else {
        dir - 2
    }
}

pub open spec fn abs_diff(a: int, b: int) -> int {
    if a < b {
        b - a
    } else {
        a - b
    }
}

/// Chebyshev distance between two positions.
pub open spec fn chebyshev_dist(a: Position, b: Position) -> int {
    if abs_diff(a.x as int, b.x as int) < abs_diff(a.y as int, b.y as int) {
        abs_diff(a.y as int, b.y as int)
    } else {
        abs_diff(a.x as int, b.x as int)
    }
}

/// Where `a` stands relative to `b`: `Some(i)` exactly when
/// `a == b + dir_delta(i)`, `None` when the two positions are not
/// orthogonally adjacent.
pub open spec fn spec_neighbor_index(a: Position, b: Position) -> Option<u32> {
    if a.x == b.x - 1 && a.y == b.y {
        Some(0u32)
    } else if a.x == b.x && a.y == b.y - 1 {
        Some(1u32)
    } else if a.x == b.x + 1 && a.y == b.y {
        Some(2u32)
    } else if a.x == b.x && a.y == b.y + 1 {
        Some(3u32)
    } else {
        None
    }
}

/// Adjacency is symmetric, through opposite direction slots.
pub proof fn lemma_neighbor_index_sym(a: Position, b: Position)
    ensures
        match spec_neighbor_index(a, b) {
            Some(idx) => spec_neighbor_index(b, a) == Some(opposite_dir(idx as int) as u32),
            None => spec_neighbor_index(b, a) is None,
        },
{
}

impl Position {
    pub fn new(x: i32, y: i32) -> (r: Self)
        ensures
            r == (Position { x, y }),
    {
        Self { x, y }
    }

    /// The position shifted by a tile offset.
    pub fn translate(&self, o: (i32, i32)) -> (r: Position)
        requires
            i32::MIN <= self.x + o.0 <= i32::MAX,
            i32::MIN <= self.y + o.1 <= i32::MAX,
        ensures
            r.x == self.x + o.0,
            r.y == self.y + o.1,
    {
        Self { x: self.x + o.0, y: self.y + o.1 }
    }

    /// Chebyshev distance to `position`.
    pub fn distance(&self, position: &Position) -> (r: i32)
        requires
            chebyshev_dist(*self, *position) <= i32::MAX,
        ensures
            r == chebyshev_dist(*self, *position),
    {
        let dx: i64 = abs_diff_i64(self.x as i64, position.x as i64);
        let dy: i64 = abs_diff_i64(self.y as i64, position.y as i64);
        if dx < dy {
            dy as i32
        } else {
            dx as i32
        }
    }

    /// Whether the positions are orthogonally adjacent.  Returns false when
    /// they are exactly the same.
    pub fn is_neighbor(&self, pos2: &Position) -> (r: bool)
        ensures
            r == (abs_diff(self.x as int, pos2.x as int) + abs_diff(self.y as int, pos2.y as int)
                == 1),
    {
        let dx: i64 = abs_diff_i64(self.x as i64, pos2.x as i64);
        let dy: i64 = abs_diff_i64(self.y as i64, pos2.y as i64);
        dx + dy == 1
    }

    /// The direction slot of `self` relative to `pos2`: `Some(i)` when
    /// `self == pos2 + dir_delta(i)`, `None` when the two positions are not
    /// orthogonally adjacent.
    pub fn neighbor_index(&self, pos2: &Position) -> (r: Option<u32>)
        ensures
            r == spec_neighbor_index(*self, *pos2),
    {
        let dx: i64 = self.x as i64 - pos2.x as i64;
        let dy: i64 = self.y as i64 - pos2.y as i64;
        if dx == -1 && dy == 0 {
            Some(0)
        } else if dx == 0 && dy == -1 {
            Some(1)
        } else if dx == 1 && dy == 0 {
            Some(2)
        } else if dx == 0 && dy == 1 {
            Some(3)
        } else {
            None
        }
    }
}

fn abs_diff_i64(a: i64, b: i64) -> (r: i64)
    requires
        i64::MIN / 2 < a < i64::MAX / 2,
        i64::MIN / 2 < b < i64::MAX / 2,
    ensures
        r == abs_diff(a as int, b as int),
{
    if a < b {
        b - a
    } else {
        a - b
    }
}

#[derive(PartialEq, Eq, Structural, Clone, Copy, Debug)]
pub enum Rotation {
    Left,
    Top,
    Right,
    Bottom,
}

impl Rotation {
    /// The unit tile offset this rotation points at.
    pub fn delta(&self) -> (r: (i32, i32))
        ensures
            r == self.spec_delta(),
    {
        match self {
            Rotation::Left => (-1, 0),
            Rotation::Top => (0, -1),
            Rotation::Right => (1, 0),
            Rotation::Bottom => (0, 1),
        }
    }

    pub open spec fn spec_delta(self) -> (i32, i32) {
        match self {
            Rotation::Left => (-1i32, 0i32),
            Rotation::Top => (0i32, -1i32),
            Rotation::Right => (1i32, 0i32),
            Rotation::Bottom => (0i32, 1i32),
        }
    }

    /// The offset opposite to `delta`.
    pub fn delta_inv(&self) -> (r: (i32, i32))
        ensures
            r.0 == -self.spec_delta().0,
            r.1 == -self.spec_delta().1,
    {
        let delta = self.delta();
        (-delta.0, -delta.1)
    }

    /// Quarter turns counted from `Right`, in `0..4`.
    pub fn angle_4(&self) -> (r: i32)
        ensures
            r == self.spec_angle_4(),
    {
        match self {
            Rotation::Left => 2,
            Rotation::Top => 3,
            Rotation::Right => 0,
            Rotation::Bottom => 1,
        }
    }

    pub open spec fn spec_angle_4(self) -> int {
        match self {
            Rotation::Left => 2,
            Rotation::Top => 3,
            Rotation::Right => 0,
            Rotation::Bottom => 1,
        }
    }

    pub fn angle_deg(&self) -> (r: i32)
        ensures
            r == self.spec_angle_4() * 90,
    {
        self.angle_4() * 90
    }

    pub fn is_horizontal(&self) -> (r: bool)
        ensures
            r == (self == Rotation::Left || self == Rotation::Right),
    {
        matches!(self, Rotation::Left | Rotation::Right)
    }

    pub fn is_vertial(&self) -> (r: bool)
        ensures
            r == !(self == Rotation::Left || self == Rotation::Right),
    {
        !self.is_horizontal()
    }

    /// The next rotation a quarter turn clockwise; cycles
    /// `Left -> Top -> Right -> Bottom -> Left`.
    pub fn next(&self) -> (r: Rotation)
        ensures
            r == self.spec_next(),
    {
        match self {
            Rotation::Left => Rotation::Top,
            Rotation::Top => Rotation::Right,
            Rotation::Right => Rotation::Bottom,
            Rotation::Bottom => Rotation::Left,
        }
    }

    pub open spec fn spec_next(self) -> Rotation {
        match self {
            Rotation::Left => Rotation::Top,
            Rotation::Top => Rotation::Right,
            Rotation::Right => Rotation::Bottom,
            Rotation::Bottom => Rotation::Left,
        }
    }
}

} // verus!
