use vstd::prelude::*;
use crate::position::Position;
use crate::entity::{Space, spec_can_traverse};
use crate::store::EntityIndex;

verus! {

/// Width and height of a board, in cells.
#[derive(Debug, PartialEq, Eq, Structural, Copy, Clone)]
pub struct Dimension {
    pub width: u32,
    pub height: u32,
}

impl Dimension {
    /// Both sides positive, and the cell count small enough that every
    /// cell index fits comfortably in the machine's integer types.
    pub open spec fn valid(self) -> bool {
        1 <= self.width && 1 <= self.height && self.width * self.height <= 0x4000_0000
    }

    pub fn new(width: u32, height: u32) -> (r: Self)
        ensures
            r.width == width,
            r.height == height,
    {
        Dimension { width, height }
    }

    pub fn area(&self) -> (r: u32)
        requires
            self.width * self.height <= u32::MAX,
        ensures
            r == self.width * self.height,
    {
        self.width * self.height
    }
}

/// Whether `p` lies on a board of size `dim`: inside [0, width) x [0, height).
pub open spec fn spec_in_bounds(dim: Dimension, p: Position) -> bool {
    0 <= p.x < dim.width && 0 <= p.y < dim.height
}

/// The row-major cell index of an in-bounds position.
pub open spec fn spec_index(dim: Dimension, p: Position) -> int {
    p.y * dim.width + p.x
}

/// Distinct in-bounds positions have distinct row-major indices.
pub proof fn lemma_index_injective(dim: Dimension, p: Position, q: Position)
    requires
        spec_in_bounds(dim, p),
        spec_in_bounds(dim, q),
        spec_index(dim, p) == spec_index(dim, q),
    ensures
        p == q,
{
    assert(p.x == q.x && p.y == q.y) by (nonlinear_arith)
        requires
            0 <= p.x < dim.width,
            0 <= q.x < dim.width,
            p.y * dim.width + p.x == q.y * dim.width + q.x,
            0 <= p.y,
            0 <= q.y,
    {
    }
}

/// An in-bounds position's index lies inside the cell vector.
pub proof fn lemma_index_in_range(dim: Dimension, p: Position)
    requires
        spec_in_bounds(dim, p),
    ensures
        0 <= spec_index(dim, p) < dim.width * dim.height,
{
    assert(0 <= p.y * dim.width + p.x < dim.width * dim.height) by (nonlinear_arith)
        requires
            0 <= p.x < dim.width,
            0 <= p.y < dim.height,
    {
    }
}

/// A tile's terrain class, which governs which unit Spaces may cross it.
#[derive(Debug, PartialEq, Eq, Structural, Copy, Clone)]
pub enum Traverse {
    Ground,
    Water,
    Wall,
}

#[derive(Debug, PartialEq, Eq, Structural, Copy, Clone)]
pub enum TileKind {
    Floor,
    Wall,
    Ocean,
}

/// One cell of terrain: its traverse class and the glyph it is drawn with.
/// Colours are presentation and are left to the caller that draws.
#[derive(Debug, PartialEq, Eq, Structural, Copy, Clone)]
pub struct Tile {
    pub traverse: Traverse,
    pub glyph: char,
}

/// The tile each `TileKind` stands for.
pub open spec fn spec_tile(kind: TileKind) -> Tile {
    match kind {
        TileKind::Floor => Tile { traverse: Traverse::Ground, glyph: '.' },
        TileKind::Wall => Tile { traverse: Traverse::Wall, glyph: ' ' },
        TileKind::Ocean => Tile { traverse: Traverse::Water, glyph: '~' },
    }
}

impl Tile {
    pub fn new(kind: TileKind) -> (r: Self)
        ensures
            r == spec_tile(kind),
    {
        match kind {
            TileKind::Floor => Tile { traverse: Traverse::Ground, glyph: '.' },
            TileKind::Wall => Tile { traverse: Traverse::Wall, glyph: ' ' },
            TileKind::Ocean => Tile { traverse: Traverse::Water, glyph: '~' },
        }
    }

    pub fn traverse(&self) -> (r: Traverse)
        ensures
            r == self.traverse,
    {
        self.traverse
    }

    pub fn glyph(&self) -> (r: char)
        ensures
            r == self.glyph,
    {
        self.glyph
    }

    pub fn is_ground(&self) -> (r: bool)
        ensures
            r == (self.traverse == Traverse::Ground),
    {
        match self.traverse {
            Traverse::Ground => true,
            _ => false,
        }
    }

    pub fn is_water(&self) -> (r: bool)
        ensures
            r == (self.traverse == Traverse::Water),
    {
        match self.traverse {
            Traverse::Water => true,
            _ => false,
        }
    }

    pub fn is_wall(&self) -> (r: bool)
        ensures
            r == (self.traverse == Traverse::Wall),
    {
        match self.traverse {
            Traverse::Wall => true,
            _ => false,
        }
    }
}

/// The tile a fresh board holds at `p`: Wall on the outer perimeter,
/// Floor everywhere else.
pub open spec fn spec_initial_tile(dim: Dimension, p: Position) -> Tile {
    if p.x == 0 || p.y == 0 || p.x == dim.width - 1 || p.y == dim.height - 1 {
        spec_tile(TileKind::Wall)
    } else {
        spec_tile(TileKind::Floor)
    }
}

/// Whether a tile of class `traverse` may be crossed under the given Space
/// filter: with no filter only Wall blocks; with a filter, the Space /
/// Traverse compatibility matrix decides.
pub open spec fn spec_traversable(space: Option<Space>, traverse: Traverse) -> bool {
    match space {
        Some(s) => spec_can_traverse(s, traverse),
        None => traverse != Traverse::Wall,
    }
}

/// A traversability mask over a whole board, derived from a Space filter:
/// one flag per cell, row-major.
pub struct NavMask {
    pub dim: Dimension,
    pub cells: Vec<bool>,
}

impl NavMask {
    pub open spec fn wf(self) -> bool {
        self.dim.valid() && self.cells@.len() == self.dim.width * self.dim.height
    }
}

/// The tile grid and the occupancy map from cell to at most one entity
/// handle. The occupancy entries are maintained by the command engine;
/// the board itself only stores them.
#[derive(Debug)]
pub struct Board {
    pub size: Dimension,
    pub tiles: Vec<Tile>,
    pub entities: Vec<Option<EntityIndex>>,
}

impl Board {
    /// Shape invariant: one tile and one occupancy entry per cell.
    pub open spec fn wf(self) -> bool {
        &&& self.size.valid()
        &&& self.tiles@.len() == self.size.width * self.size.height
        &&& self.entities@.len() == self.size.width * self.size.height
    }

    pub open spec fn spec_size(self) -> Dimension {
        self.size
    }

    pub open spec fn spec_tiles(self) -> Seq<Tile> {
        self.tiles@
    }

    pub open spec fn spec_entities(self) -> Seq<Option<EntityIndex>> {
        self.entities@
    }

    /// The tile at an in-bounds position.
    pub open spec fn spec_tile_at(self, p: Position) -> Tile {
        self.tiles@[spec_index(self.size, p)]
    }

    /// The occupancy entry at an in-bounds position.
    pub open spec fn spec_entity_at(self, p: Position) -> Option<EntityIndex> {
        self.entities@[spec_index(self.size, p)]
    }

    /// A fresh board: Wall tiles on the outer perimeter, Floor inside,
    /// and every cell unoccupied.
    pub fn new(size: Dimension) -> (r: Self)
        requires
            size.valid(),
        ensures
            r.wf(),
            r.spec_size() == size,
            forall|p: Position| spec_in_bounds(size, p)
                ==> r.spec_tile_at(p) == spec_initial_tile(size, p),
            forall|i: int| 0 <= i < r.spec_entities().len() ==> r.spec_entities()[i] is None,
    {
        proof {
            assert(size.width <= 0x4000_0000 && size.height <= 0x4000_0000)
                by (nonlinear_arith)
                requires
                    1 <= size.width,
                    1 <= size.height,
                    size.width * size.height <= 0x4000_0000,
            {
            }
        }
        let mut tiles: Vec<Tile> = Vec::new();
        let mut entities: Vec<Option<EntityIndex>> = Vec::new();
        let mut y: u32 = 0;
        while y < size.height
            invariant
                size.valid(),
                size.width <= 0x4000_0000,
                size.height <= 0x4000_0000,
                y <= size.height,
                tiles@.len() == y * size.width,
                entities@.len() == y * size.width,
                forall|p: Position| spec_in_bounds(size, p) && p.y < y
                    ==> {
                        &&& 0 <= spec_index(size, p) < tiles@.len()
                        &&& tiles@[spec_index(size, p)] == spec_initial_tile(size, p)
                    },
                forall|i: int| 0 <= i < entities@.len() ==> entities@[i] is None,
            decreases size.height - y,
        {
            let mut x: u32 = 0;
            proof {
                assert((y + 1) * size.width == y * size.width + size.width) by (nonlinear_arith);
                assert(y * size.width + size.width <= size.height * size.width) by (nonlinear_arith)
                    requires
                        y + 1 <= size.height,
                        size.width >= 0,
                {
                }
                assert(size.height * size.width == size.width * size.height) by (nonlinear_arith);
            }
            while x < size.width
                invariant
                    size.valid(),
                    size.width <= 0x4000_0000,
                    size.height <= 0x4000_0000,
                    y < size.height,
                    x <= size.width,
                    tiles@.len() == y * size.width + x,
                    entities@.len() == y * size.width + x,
                    y * size.width + size.width <= size.width * size.height,
                    forall|p: Position| spec_in_bounds(size, p)
                        && (p.y < y || (p.y == y && p.x < x))
                        ==> {
                            &&& 0 <= spec_index(size, p) < tiles@.len()
                            &&& tiles@[spec_index(size, p)] == spec_initial_tile(size, p)
                        },
                    forall|i: int| 0 <= i < entities@.len() ==> entities@[i] is None,
                decreases size.width - x,
            {
                let on_edge = x == 0 || y == 0 || x == size.width - 1 || y == size.height - 1;
                let tile = if on_edge {
                    Tile::new(TileKind::Wall)
                } else {
                    Tile::new(TileKind::Floor)
                };
                let ghost before = tiles@;
                tiles.push(tile);
                entities.push(None);
                proof {
                    let cur = Position { x: x as i32, y: y as i32 };
                    assert(spec_index(size, cur) == before.len());
                    assert(tiles@[spec_index(size, cur)] == spec_initial_tile(size, cur));
                    assert forall|p: Position| spec_in_bounds(size, p)
                        && (p.y < y || (p.y == y && p.x < x + 1))
                        implies {
                            &&& 0 <= spec_index(size, p) < tiles@.len()
                            &&& tiles@[spec_index(size, p)] == spec_initial_tile(size, p)
                        } by {
                        if p.y < y || (p.y == y && p.x < x) {
                            assert(tiles@[spec_index(size, p)] == before[spec_index(size, p)]);
                        } else {
                            assert(p == cur);
                        }
                    }
                }
                x = x + 1;
            }
            y = y + 1;
        }
        proof {
            assert(size.height * size.width == size.width * size.height) by (nonlinear_arith);
        }
        Board { size, tiles, entities }
    }

    pub fn size(&self) -> (r: Dimension)
        ensures
            r == self.size,
    {
        self.size
    }

    pub fn width(&self) -> (r: u32)
        ensures
            r == self.size.width,
    {
        self.size.width
    }

    pub fn height(&self) -> (r: u32)
        ensures
            r == self.size.height,
    {
        self.size.height
    }

    pub fn in_bounds(&self, position: Position) -> (r: bool)
        ensures
            r == spec_in_bounds(self.size, position),
    {
        position.x >= 0 && (position.x as u32) < self.size.width
            && position.y >= 0 && (position.y as u32) < self.size.height
    }

    /// The row-major cell index of the position, or None when it lies
    /// outside the board.
    pub fn to_index(&self, position: Position) -> (r: Option<usize>)
        requires
            self.wf(),
        ensures
            r == if spec_in_bounds(self.size, position) {
                Some(spec_index(self.size, position) as usize)
            } else {
                None::<usize>
            },
            spec_in_bounds(self.size, position)
                ==> 0 <= spec_index(self.size, position) < self.size.width * self.size.height,
    {
        if self.in_bounds(position) {
            proof {
                lemma_index_in_range(self.size, position);
            }
            Some((position.y as usize) * (self.size.width as usize) + (position.x as usize))
        } else {
            None
        }
    }

    /// The row-major cell index, for positions already known in bounds.
    pub fn to_index_unchecked(&self, position: Position) -> (r: usize)
        requires
            self.wf(),
            spec_in_bounds(self.size, position),
        ensures
            r == spec_index(self.size, position),
            0 <= spec_index(self.size, position) < self.size.width * self.size.height,
    {
        proof {
            lemma_index_in_range(self.size, position);
        }
        (position.y as usize) * (self.size.width as usize) + (position.x as usize)
    }

    pub fn tile_at(&self, position: Position) -> (r: Option<Tile>)
        requires
            self.wf(),
        ensures
            r == if spec_in_bounds(self.size, position) {
                Some(self.spec_tile_at(position))
            } else {
                None::<Tile>
            },
    {
        match self.to_index(position) {
            Some(index) => Some(self.tiles[index]),
            None => None,
        }
    }

    pub fn entity_at(&self, position: Position) -> (r: Option<EntityIndex>)
        requires
            self.wf(),
        ensures
            r == if spec_in_bounds(self.size, position) {
                self.spec_entity_at(position)
            } else {
                None::<EntityIndex>
            },
    {
        match self.to_index(position) {
            Some(index) => self.entities[index],
            None => None,
        }
    }

    /// Marks the cell as occupied by the handle. The caller keeps the
    /// occupancy invariant: it must not place into an occupied cell.
    pub fn place(&mut self, position: Position, entity: EntityIndex)
        requires
            old(self).wf(),
            spec_in_bounds(old(self).size, position),
        ensures
            final(self).wf(),
            final(self).size == old(self).size,
            final(self).tiles == old(self).tiles,
            final(self).entities@ == old(self).entities@.update(
                spec_index(old(self).size, position), Some(entity)),
    {
        let index = self.to_index_unchecked(position);
        self.entities[index] = Some(entity);
    }

    /// Clears the cell's occupancy entry.
    pub fn clear(&mut self, position: Position)
        requires
            old(self).wf(),
            spec_in_bounds(old(self).size, position),
        ensures
            final(self).wf(),
            final(self).size == old(self).size,
            final(self).tiles == old(self).tiles,
            final(self).entities@ == old(self).entities@.update(
                spec_index(old(self).size, position), None::<EntityIndex>),
    {
        let index = self.to_index_unchecked(position);
        self.entities[index] = None;
    }

    /// Overwrites the tile at an in-bounds position; the caller lays out
    /// terrain after construction with this.
    pub fn set_tile(&mut self, position: Position, tile: Tile)
        requires
            old(self).wf(),
            spec_in_bounds(old(self).size, position),
        ensures
            final(self).wf(),
            final(self).size == old(self).size,
            final(self).entities == old(self).entities,
            final(self).tiles@ == old(self).tiles@.update(spec_index(old(self).size, position), tile),
    {
        let index = self.to_index_unchecked(position);
        self.tiles[index] = tile;
    }

    /// The traversability mask over the whole board under the Space
    /// filter: cell by cell, whether the terrain may be crossed.
    pub fn navigation_map(&self, space: Option<Space>) -> (r: NavMask)
        requires
            self.wf(),
        ensures
            r.wf(),
            r.dim == self.size,
            forall|i: int| 0 <= i < r.cells@.len()
                ==> r.cells@[i] == spec_traversable(space, self.tiles@[i].traverse),
    {
        let mut cells: Vec<bool> = Vec::new();
        let mut i: usize = 0;
        let len = self.tiles.len();
        while i < len
            invariant
                self.wf(),
                len == self.tiles@.len(),
                i <= len,
                cells@.len() == i,
                forall|j: int| 0 <= j < i
                    ==> cells@[j] == spec_traversable(space, self.tiles@[j].traverse),
            decreases len - i,
        {
            let can = match space {
                Some(s) => s.can_traverse(self.tiles[i].traverse()),
                None => !self.tiles[i].is_wall(),
            };
            cells.push(can);
            i = i + 1;
        }
        NavMask { dim: self.size, cells }
    }
}

} // verus!
