use vstd::prelude::*;
use crate::board::Dimension;

verus! {

/// A cell coordinate on the board. Plain value type: equality and hashing
/// go by the coordinates alone.
#[derive(Debug, PartialEq, Eq, Structural, Hash, Copy, Clone)]
pub struct Position {
    pub x: i32,
    pub y: i32,
}

impl Default for Position {
    fn default() -> (r: Self)
        ensures
            r.x == 0,
            r.y == 0,
    {
        Position { x: 0, y: 0 }
    }
}

/// |i| as a mathematical integer.
pub open spec fn abs_int(i: int) -> int {
    if i < 0 { -i } else { i }
}

/// Manhattan (taxicab) distance between two positions.
pub open spec fn spec_manhattan(a: Position, b: Position) -> int {
    abs_int(a.x - b.x) + abs_int(a.y - b.y)
}

/// One axis of a clamp: raised to `lo` first, then capped at `hi`.
pub open spec fn spec_clamp_axis(v: int, lo: int, hi: int) -> int {
    if (if v < lo { lo } else { v }) > hi {
        hi
    } else {
        if v < lo { lo } else { v }
    }
}

impl Position {
    pub fn new(x: i32, y: i32) -> (r: Self)
        ensures
            r.x == x,
            r.y == y,
    {
        Position { x, y }
    }

    /// Component-wise vector addition.
    pub fn plus(self, rhs: Self) -> (r: Self)
        requires
            i32::MIN <= self.x + rhs.x <= i32::MAX,
            i32::MIN <= self.y + rhs.y <= i32::MAX,
        ensures
            r.x == self.x + rhs.x,
            r.y == self.y + rhs.y,
    {
        Position { x: self.x + rhs.x, y: self.y + rhs.y }
    }

    /// Component-wise vector subtraction.
    pub fn minus(self, rhs: Self) -> (r: Self)
        requires
            i32::MIN <= self.x - rhs.x <= i32::MAX,
            i32::MIN <= self.y - rhs.y <= i32::MAX,
        ensures
            r.x == self.x - rhs.x,
            r.y == self.y - rhs.y,
    {
        Position { x: self.x - rhs.x, y: self.y - rhs.y }
    }

    /// Scaling by an integer factor.
    pub fn scaled(self, scalar: i32) -> (r: Self)
        requires
            i32::MIN <= self.x * scalar <= i32::MAX,
            i32::MIN <= self.y * scalar <= i32::MAX,
        ensures
            r.x == self.x * scalar,
            r.y == self.y * scalar,
    {
        Position { x: self.x * scalar, y: self.y * scalar }
    }

    /// The number of orthogonal steps between the two cells, ignoring
    /// terrain: |dx| + |dy|.
    pub fn manhatten_distance(&self, other: &Self) -> (r: u32)
        requires
            -0x7fff_ffff <= self.x - other.x <= 0x7fff_ffff,
            -0x7fff_ffff <= self.y - other.y <= 0x7fff_ffff,
            spec_manhattan(*self, *other) <= 0x7fff_ffff,
        ensures
            r == spec_manhattan(*self, *other),
    {
        let dx: i32 = if self.x >= other.x { self.x - other.x } else { other.x - self.x };
        let dy: i32 = if self.y >= other.y { self.y - other.y } else { other.y - self.y };
        (dx + dy) as u32
    }

    /// Clamps the position into the rectangle whose corners are (x, y) and
    /// (x + w, y + h), both inclusive: raise to the lower corner first,
    /// then cap at the upper one, so with a negative extent the upper
    /// corner wins.
    pub fn clamp_inside(&self, x: i32, y: i32, w: i32, h: i32) -> (r: Self)
        requires
            i32::MIN <= x + w <= i32::MAX,
            i32::MIN <= y + h <= i32::MAX,
        ensures
            r.x == spec_clamp_axis(self.x as int, x as int, x + w),
            r.y == spec_clamp_axis(self.y as int, y as int, y + h),
    {
        let hx: i32 = x + w;
        let hy: i32 = y + h;
        let lx: i32 = if self.x < x { x } else { self.x };
        let ly: i32 = if self.y < y { y } else { self.y };
        let cx: i32 = if lx > hx { hx } else { lx };
        let cy: i32 = if ly > hy { hy } else { ly };
        Position { x: cx, y: cy }
    }

    /// Every cell whose Manhattan distance to this one lies in [1, radius];
    /// the cell itself is excluded. No cell appears twice.
    pub fn radius(&self, radius: i32) -> (r: Vec<Position>)
        requires
            radius < 0x4000_0000,
            radius >= 0 ==> i32::MIN <= self.x - radius && self.x + radius <= i32::MAX,
            radius >= 0 ==> i32::MIN <= self.y - radius && self.y + radius <= i32::MAX,
        ensures
            forall|q: Position| r@.contains(q) <==> 1 <= spec_manhattan(*self, q) <= radius,
            forall|i: int, j: int| 0 <= i < j < r@.len() ==> r@[i] != r@[j],
    {
        let mut positions: Vec<Position> = Vec::new();
        if radius < 0 {
            return positions;
        }
        let mut dy: i32 = -radius;
        while dy <= radius
            invariant
                radius >= 0,
                radius < 0x4000_0000,
                i32::MIN <= self.x - radius,
                self.x + radius <= i32::MAX,
                i32::MIN <= self.y - radius,
                self.y + radius <= i32::MAX,
                -radius <= dy <= radius + 1,
                forall|q: Position| positions@.contains(q) <==>
                    (1 <= spec_manhattan(*self, q) <= radius && q.y - self.y < dy),
                forall|i: int, j: int| 0 <= i < j < positions@.len() ==> positions@[i] != positions@[j],
            decreases radius + 1 - dy,
        {
            let mut dx: i32 = -radius;
            while dx <= radius
                invariant
                    radius >= 0,
                    radius < 0x4000_0000,
                    i32::MIN <= self.x - radius,
                    self.x + radius <= i32::MAX,
                    i32::MIN <= self.y - radius,
                    self.y + radius <= i32::MAX,
                    -radius <= dy <= radius,
                    -radius <= dx <= radius + 1,
                    forall|q: Position| positions@.contains(q) <==>
                        (1 <= spec_manhattan(*self, q) <= radius
                            && (q.y - self.y < dy || (q.y - self.y == dy && q.x - self.x < dx))),
                    forall|i: int, j: int| 0 <= i < j < positions@.len() ==> positions@[i] != positions@[j],
                decreases radius + 1 - dx,
            {
                let q = Position { x: self.x + dx, y: self.y + dy };
                let adx: i32 = if dx >= 0 { dx } else { -dx };
                let ady: i32 = if dy >= 0 { dy } else { -dy };
                proof {
                    assert(spec_manhattan(*self, q) == adx + ady);
                }
                if !(dx == 0 && dy == 0) && adx + ady <= radius {
                    let ghost before = positions@;
                    positions.push(q);
                    proof {
                        broadcast use vstd::seq_lib::lemma_seq_contains_after_push;

                        assert(positions@ == before.push(q));
                        assert forall|p: Position| positions@.contains(p) <==>
                            (1 <= spec_manhattan(*self, p) <= radius
                                && (p.y - self.y < dy
                                    || (p.y - self.y == dy && p.x - self.x < dx + 1))) by {
                            assert(before.push(q).contains(p) <==> q == p || before.contains(p));
                            if p.y - self.y == dy && p.x - self.x == dx {
                                assert(p == q);
                            }
                        }
                        assert(!before.contains(q));
                        assert forall|i: int, j: int| 0 <= i < j < positions@.len()
                            implies positions@[i] != positions@[j] by {
                            if j == positions@.len() - 1 {
                                assert(positions@[j] == q);
                                assert(positions@[i] == before[i]);
                                if before[i] == q {
                                    assert(before.contains(q));
                                }
                            } else {
                                assert(positions@[i] == before[i]);
                                assert(positions@[j] == before[j]);
                            }
                        }
                    }
                } else {
                    proof {
                        assert(forall|p: Position| positions@.contains(p) <==>
                            (1 <= spec_manhattan(*self, p) <= radius
                                && (p.y - self.y < dy
                                    || (p.y - self.y == dy && p.x - self.x < dx + 1)))) by {
                            assert(forall|p: Position|
                                (p.y - self.y == dy && p.x - self.x == dx) ==> p == q);
                            assert(spec_manhattan(*self, q) == adx + ady);
                            assert(!(1 <= spec_manhattan(*self, q) <= radius));
                        }
                    }
                }
                dx = dx + 1;
            }
            dy = dy + 1;
        }
        positions
    }
}


impl Position {
    /// Where this console cell lands on the board: shifted by the board's
    /// drawing offset, then clamped inside the board.
    pub open spec fn spec_into_world_pos(self, world_size: Dimension,
        world_offset: Position) -> Position {
        Position {
            x: (if self.x - world_offset.x < 0 {
                0
            } else if self.x - world_offset.x > world_size.width - 1 {
                world_size.width - 1
            } else {
                self.x - world_offset.x
            }) as i32,
            y: (if self.y - world_offset.y < 0 {
                0
            } else if self.y - world_offset.y > world_size.height - 1 {
                world_size.height - 1
            } else {
                self.y - world_offset.y
            }) as i32,
        }
    }

    pub fn into_world_pos(&self, world_size: Dimension, world_offset: Position) -> (r: Self)
        requires
            i32::MIN <= self.x - world_offset.x <= i32::MAX,
            i32::MIN <= self.y - world_offset.y <= i32::MAX,
            1 <= world_size.width <= 0x4000_0000,
            1 <= world_size.height <= 0x4000_0000,
        ensures
            r == self.spec_into_world_pos(world_size, world_offset),
    {
        let world_pos = self.minus(world_offset);
        world_pos.clamp_inside(
            0,
            0,
            (world_size.width as i32) - 1,
            (world_size.height as i32) - 1,
        )
    }
}

} // verus!
