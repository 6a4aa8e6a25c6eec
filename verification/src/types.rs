//! Directions, teams, cell kinds, items, energy and grid positions.
use vstd::prelude::*;

verus! {

/// One of the four grid directions. `Up` increases `y`, `Right` increases `x`.
#[derive(Debug, Copy, Clone, PartialEq, Eq, Structural)]
pub enum Dir {
    Up,
    Down,
    Left,
    Right,
}

#[derive(Debug, Clone, Copy, PartialEq, Eq, Structural)]
pub enum Team {
    Player,
    Enemy,
}

#[derive(Debug, Copy, Clone, PartialEq, Eq, Structural)]
pub enum CellKind {
    Unknown,
    Empty,
    Blocked,
}

#[derive(Debug, Copy, Clone, PartialEq, Eq, Hash, Structural)]
pub enum Item {
    Crumb,
    Fent,
    Truffle,
    Metal,
}

/// The x offset of one step in direction `d`.
pub open spec fn dir_dx(d: Dir) -> int {
    match d {
        Dir::Up => 0,
        Dir::Down => 0,
        Dir::Left => -1,
        Dir::Right => 1,
    }
}

/// The y offset of one step in direction `d`.
pub open spec fn dir_dy(d: Dir) -> int {
    match d {
        Dir::Up => 1,
        Dir::Down => -1,
        Dir::Left => 0,
        Dir::Right => 0,
    }
}

/// The direction whose one step is the offset `(dx, dy)`, if any.
pub open spec fn spec_dir_from_deltas(dx: int, dy: int) -> Option<Dir> {
    if dx == 0 && dy == 1 {
        Some(Dir::Up)
    } else if dx == 0 && dy == -1 {
        Some(Dir::Down)
    } else if dx == -1 && dy == 0 {
        Some(Dir::Left)
    } else if dx == 1 && dy == 0 {
        Some(Dir::Right)
    } else {
        None
    }
}

/// The direction with the given discriminant (`Up` = 0 .. `Right` = 3).
pub open spec fn spec_dir_from_repr(v: u8) -> Option<Dir> {
    if v == 0 {
        Some(Dir::Up)
    } else if v == 1 {
        Some(Dir::Down)
    } else if v == 2 {
        Some(Dir::Left)
    } else if v == 3 {
        Some(Dir::Right)
    } else {
        None
    }
}

impl Default for CellKind {
    fn default() -> (r: CellKind)
        ensures
            r == CellKind::Unknown,
    {
        CellKind::Unknown
    }
}

impl Dir {
    pub fn to_deltas(&self) -> (r: (isize, isize))
        ensures
            r.0 == dir_dx(*self),
            r.1 == dir_dy(*self),
    {
        match self {
            Dir::Up => (0, 1),
            Dir::Down => (0, -1),
            Dir::Left => (-1, 0),
            Dir::Right => (1, 0),
        }
    }

    pub fn from_deltas(deltas: (isize, isize)) -> (r: Option<Self>)
        ensures
            r == spec_dir_from_deltas(deltas.0 as int, deltas.1 as int),
    {
        match deltas {
            (0, 1) => Some(Dir::Up),
            (0, -1) => Some(Dir::Down),
            (-1, 0) => Some(Dir::Left),
            (1, 0) => Some(Dir::Right),
            _ => None,
        }
    }

    /// Same as `from_deltas`, for a pair of `i32` offsets.
    pub fn from_deltas_ivec(deltas: (i32, i32)) -> (r: Option<Self>)
        ensures
            r == spec_dir_from_deltas(deltas.0 as int, deltas.1 as int),
    {
        Dir::from_deltas((deltas.0 as isize, deltas.1 as isize))
    }

    /// The direction with the given discriminant.
    pub fn from_repr(v: u8) -> (r: Option<Self>)
        ensures
            r == spec_dir_from_repr(v),
    {
        match v {
            0 => Some(Dir::Up),
            1 => Some(Dir::Down),
            2 => Some(Dir::Left),
            3 => Some(Dir::Right),
            _ => None,
        }
    }

    /// All four directions in declaration order.
    pub fn all() -> (r: [Dir; 4])
        ensures
            r@ == seq![Dir::Up, Dir::Down, Dir::Left, Dir::Right],
    {
        [Dir::Up, Dir::Down, Dir::Left, Dir::Right]
    }
}

/// Turning a direction into its offset and back gives the direction.
pub proof fn lemma_dir_deltas_roundtrip(d: Dir)
    ensures
        spec_dir_from_deltas(dir_dx(d), dir_dy(d)) == Some(d),
{
}

/// An offset that names a direction is exactly that direction's offset.
pub proof fn lemma_dir_from_deltas_inverse(dx: int, dy: int)
    ensures
        spec_dir_from_deltas(dx, dy) matches Some(d) ==> dir_dx(d) == dx && dir_dy(d) == dy,
        spec_dir_from_deltas(dx, dy) is Some <==> (abs_int(dx) + abs_int(dy) == 1),
{
}

pub open spec fn abs_int(v: int) -> int {
    if v < 0 {
        -v
    } else {
        v
    }
}

////////////////////////////
///////// Energy ///////////
////////////////////////////
#[derive(Debug, Copy, Clone, PartialEq, Eq, Structural)]
pub struct Energy(pub u32);

impl Energy {
    /// Adds a signed amount; a negative amount takes away at most what there is.
    pub fn add_i32(self, rhs: i32) -> (r: Energy)
        requires
            rhs >= 0 ==> self.0 + rhs <= u32::MAX,
        ensures
            rhs >= 0 ==> r.0 == self.0 + rhs,
            rhs < 0 ==> r.0 == (if self.0 + rhs >= 0 {
                self.0 + rhs
            } else {
                0
            }),
    {
        if rhs < 0 {
            let rhs_u32: u32 = (0 - (rhs as i64)) as u32;
            if self.0 >= rhs_u32 {
                Energy(self.0 - rhs_u32)
            } else {
                Energy(0)
            }
        } else {
            Energy(self.0 + rhs as u32)
        }
    }

    /// Subtracts a signed amount; `None` when a positive amount is more than there is.
    pub fn sub_i32(self, rhs: i32) -> (r: Option<Energy>)
        requires
            rhs < 0 ==> self.0 - rhs <= u32::MAX,
        ensures
            r is Some <==> self.0 - rhs >= 0,
            r matches Some(e) ==> e.0 == self.0 - rhs,
    {
        if rhs < 0 {
            let rhs_u32: u32 = (0 - (rhs as i64)) as u32;
            return Some(Energy(self.0 + rhs_u32));
        }
        let rhs_u32: u32 = rhs as u32;
        if self.0 >= rhs_u32 {
            Some(Energy(self.0 - rhs_u32))
        } else {
            None
        }
    }

    pub fn add_energy(self, rhs: Energy) -> (r: Energy)
        requires
            self.0 + rhs.0 <= u32::MAX,
        ensures
            r.0 == self.0 + rhs.0,
    {
        Energy(self.0 + rhs.0)
    }

    /// `None` when `rhs` is more than there is.
    pub fn sub_energy(self, rhs: Energy) -> (r: Option<Energy>)
        ensures
            r is Some <==> self.0 >= rhs.0,
            r matches Some(e) ==> e.0 == self.0 - rhs.0,
    {
        if self.0 >= rhs.0 {
            Some(Energy(self.0 - rhs.0))
        } else {
            None
        }
    }

    pub fn min(self, other: Energy) -> (r: Energy)
        ensures
            r.0 == (if self.0 <= other.0 {
                self.0
            } else {
                other.0
            }),
    {
        if self.0 <= other.0 {
            self
        } else {
            other
        }
    }

    pub fn less_than(&self, other: &Energy) -> (r: bool)
        ensures
            r == (self.0 < other.0),
    {
        self.0 < other.0
    }
}

////////////////////////////
/////////// Pos ////////////
////////////////////////////
/// A cell position: `(x, y)`.
#[derive(Debug, Copy, Clone, Eq)]
pub struct Pos(pub (usize, usize));

impl PartialEq for Pos {
    fn eq(&self, other: &Pos) -> (r: bool) {
        self.0.0 == other.0.0 && self.0.1 == other.0.1
    }
}

impl vstd::std_specs::cmp::PartialEqSpecImpl for Pos {
    open spec fn obeys_eq_spec() -> bool {
        true
    }

    open spec fn eq_spec(&self, other: &Pos) -> bool {
        self.0.0 == other.0.0 && self.0.1 == other.0.1
    }
}

/// Positions whose coordinates fit in `isize`, with room for one step.
pub open spec fn pos_fits(p: Pos) -> bool {
    p.0.0 < isize::MAX && p.0.1 < isize::MAX
}

/// The Manhattan distance between two positions.
pub open spec fn pos_dist(a: Pos, b: Pos) -> int {
    abs_int(a.0.0 - b.0.0) + abs_int(a.0.1 - b.0.1)
}

/// The position one step from `p` in direction `d`, if it has no negative coordinate.
pub open spec fn spec_step(p: Pos, d: Dir) -> Option<Pos> {
    let nx = p.0.0 + dir_dx(d);
    let ny = p.0.1 + dir_dy(d);
    if nx < 0 || ny < 0 {
        None
    } else {
        Some(Pos((nx as usize, ny as usize)))
    }
}

impl Pos {
    pub open spec fn spec_x(&self) -> int {
        self.0.0 as int
    }

    pub open spec fn spec_y(&self) -> int {
        self.0.1 as int
    }

    pub fn x(&self) -> (r: usize)
        ensures
            r == self.0.0,
    {
        self.0.0
    }

    pub fn y(&self) -> (r: usize)
        ensures
            r == self.0.1,
    {
        self.0.1
    }

    /// The coordinates as a pair of `u32`.
    pub fn uvec2(&self) -> (r: (u32, u32))
        requires
            self.0.0 <= u32::MAX,
            self.0.1 <= u32::MAX,
        ensures
            r.0 == self.0.0,
            r.1 == self.0.1,
    {
        (self.0.0 as u32, self.0.1 as u32)
    }

    pub fn as_isize(&self) -> (r: (isize, isize))
        requires
            self.0.0 <= isize::MAX,
            self.0.1 <= isize::MAX,
        ensures
            r.0 == self.0.0,
            r.1 == self.0.1,
    {
        (self.0.0 as isize, self.0.1 as isize)
    }

    pub fn from_u32(value: (u32, u32)) -> (r: Pos)
        ensures
            r.0.0 == value.0,
            r.0.1 == value.1,
    {
        Pos((value.0 as usize, value.1 as usize))
    }

    /// Defined for non-negative coordinates.
    pub fn from_isize(value: (isize, isize)) -> (r: Pos)
        requires
            value.0 >= 0,
            value.1 >= 0,
        ensures
            r.0.0 == value.0,
            r.0.1 == value.1,
    {
        Pos((value.0 as usize, value.1 as usize))
    }

    /// The position one step away in `dir`; `None` if a coordinate would be negative.
    pub fn add_dir(self, dir: Dir) -> (r: Option<Pos>)
        requires
            pos_fits(self),
        ensures
            r == spec_step(self, dir),
    {
        let (x, y) = self.as_isize();
        let (dx, dy) = dir.to_deltas();
        let new_x = x + dx;
        let new_y = y + dy;
        if new_x < 0 || new_y < 0 {
            None
        } else {
            Some(Pos((new_x as usize, new_y as usize)))
        }
    }

    /// The coordinate-wise difference `self - rhs`.
    pub fn sub_pos(self, rhs: Pos) -> (r: (isize, isize))
        requires
            self.0.0 <= isize::MAX,
            self.0.1 <= isize::MAX,
            rhs.0.0 <= isize::MAX,
            rhs.0.1 <= isize::MAX,
        ensures
            r.0 == self.0.0 - rhs.0.0,
            r.1 == self.0.1 - rhs.0.1,
    {
        let (sx, sy) = self.as_isize();
        let (rx, ry) = rhs.as_isize();
        (sx - rx, sy - ry)
    }

    /// The coordinate-wise sum with an offset.
    pub fn add_offset(self, rhs: (isize, isize)) -> (r: (isize, isize))
        requires
            self.0.0 <= isize::MAX,
            self.0.1 <= isize::MAX,
            isize::MIN <= self.0.0 + rhs.0 <= isize::MAX,
            isize::MIN <= self.0.1 + rhs.1 <= isize::MAX,
        ensures
            r.0 == self.0.0 + rhs.0,
            r.1 == self.0.1 + rhs.1,
    {
        let (sx, sy) = self.as_isize();
        (sx + rhs.0, sy + rhs.1)
    }

    pub fn manhattan_distance(&self, other: &Pos) -> (r: usize)
        requires
            pos_dist(*self, *other) <= usize::MAX,
        ensures
            r == pos_dist(*self, *other),
    {
        let dx = if self.0.0 >= other.0.0 {
            self.0.0 - other.0.0
        } else {
            other.0.0 - self.0.0
        };
        let dy = if self.0.1 >= other.0.1 {
            self.0.1 - other.0.1
        } else {
            other.0.1 - self.0.1
        };
        dx + dy
    }

    /// Whether the two positions are one step apart.
    pub fn is_adjacent(&self, other: &Pos) -> (r: bool)
        ensures
            r == (pos_dist(*self, *other) == 1),
    {
        let dx = if self.0.0 >= other.0.0 {
            self.0.0 - other.0.0
        } else {
            other.0.0 - self.0.0
        };
        let dy = if self.0.1 >= other.0.1 {
            self.0.1 - other.0.1
        } else {
            other.0.1 - self.0.1
        };
        (dx == 1 && dy == 0) || (dx == 0 && dy == 1)
    }

    /// The direction of one step from `self` to `other`, if they are adjacent.
    pub fn dir_to(&self, other: &Pos) -> (r: Option<Dir>)
        ensures
            r == spec_dir_from_deltas(other.0.0 - self.0.0, other.0.1 - self.0.1),
    {
        if other.0.0 == self.0.0 {
            if self.0.1 < usize::MAX && other.0.1 == self.0.1 + 1 {
                Some(Dir::Up)
            } else if self.0.1 > 0 && other.0.1 == self.0.1 - 1 {
                Some(Dir::Down)
            } else {
                None
            }
        } else if other.0.1 == self.0.1 {
            if self.0.0 < usize::MAX && other.0.0 == self.0.0 + 1 {
                Some(Dir::Right)
            } else if self.0.0 > 0 && other.0.0 == self.0.0 - 1 {
                Some(Dir::Left)
            } else {
                None
            }
        } else {
            None
        }
    }
}

/// The direction from a position to an adjacent one leads there in one step.
pub proof fn lemma_dir_to_step(a: Pos, b: Pos)
    requires
        pos_dist(a, b) == 1,
    ensures
        spec_dir_from_deltas(b.0.0 - a.0.0, b.0.1 - a.0.1) matches Some(d) && spec_step(a, d)
            == Some(b),
{
}

/// A step in a direction reaches an adjacent position, and the direction to it is that direction.
pub proof fn lemma_step_adjacent(p: Pos, d: Dir)
    requires
        pos_fits(p),
    ensures
        spec_step(p, d) matches Some(q) ==> pos_dist(p, q) == 1 && spec_dir_from_deltas(
            q.0.0 - p.0.0,
            q.0.1 - p.0.1,
        ) == Some(d),
{
}

} // verus!
