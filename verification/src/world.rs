//! The tile map: tiles, their kinds and materials, and reads and writes by cell.

use vstd::prelude::*;

verus! {

/// What a tile is made of, structurally.
#[derive(Clone, Copy, Debug, PartialEq, Eq, Structural)]
pub enum TileKind {
    Solid,
    Wall,
    Floor,
    Open,
}

/// The material a tile (or an item) consists of.
#[derive(Clone, Copy, Debug, PartialEq, Eq, Structural)]
pub enum Material {
    Stone,
    Ore,
    Wood,
    Food,
    /// No particular material.
    Empty,
}

/// A player order attached to a tile.
#[derive(Clone, Copy, Debug, PartialEq, Eq, Structural)]
pub enum DesignationKind {
    Mine,
    Haul,
}

/// One cell of the map.
#[derive(Clone, Copy, Debug, PartialEq, Eq, Structural)]
pub struct Tile {
    pub kind: TileKind,
    pub material: Material,
    pub designated: Option<DesignationKind>,
}

/// The tile every fresh map is filled with: undug rock with no material.
pub open spec fn solid_tile() -> Tile {
    Tile { kind: TileKind::Solid, material: Material::Empty, designated: None }
}

impl Default for Tile {
    fn default() -> (t: Tile)
        ensures
            t == solid_tile(),
    {
        Tile { kind: TileKind::Solid, material: Material::Empty, designated: None }
    }
}

/// Side length of the square maps that `TileMap::new` builds.
pub const MAP_SIDE: u32 = 64;

/// The abstract content of a map: its dimensions and its tiles in
/// row-major order.
#[verifier::ext_equal]
pub struct MapView {
    pub width: u32,
    pub height: u32,
    pub tiles: Seq<Tile>,
}

impl MapView {
    /// The tile sequence covers exactly `width * height` cells, and every
    /// cell index fits in a `u32`.
    pub open spec fn wf(self) -> bool {
        &&& self.tiles.len() == self.width * self.height
        &&& self.width * self.height <= u32::MAX
    }

    pub open spec fn in_bounds(self, x: u32, y: u32) -> bool {
        x < self.width && y < self.height
    }

    /// Row-major position of cell `(x, y)`.
    pub open spec fn index_of(self, x: u32, y: u32) -> int {
        y * self.width + x
    }

    /// The tile at `(x, y)`, or `None` outside the map.
    pub open spec fn tile(self, x: u32, y: u32) -> Option<Tile> {
        if self.in_bounds(x, y) {
            Some(self.tiles[self.index_of(x, y)])
        } else {
            None
        }
    }

    /// The map with cell `(x, y)` replaced by `t`; unchanged outside the map.
    pub open spec fn with_tile(self, x: u32, y: u32, t: Tile) -> MapView {
        if self.in_bounds(x, y) {
            MapView { width: self.width, height: self.height, tiles: self.tiles.update(self.index_of(x, y), t) }
        } else {
            self
        }
    }

    /// A creature can stand on floor and open tiles inside the map.
    pub open spec fn walkable(self, x: u32, y: u32) -> bool {
        match self.tile(x, y) {
            Some(t) => t.kind == TileKind::Floor || t.kind == TileKind::Open,
            None => false,
        }
    }
}

/// A map of `64 * 64` solid tiles.
pub open spec fn fresh_map() -> MapView {
    MapView {
        width: MAP_SIDE,
        height: MAP_SIDE,
        tiles: Seq::new((MAP_SIDE * MAP_SIDE) as nat, |i: int| solid_tile()),
    }
}

/// In-bounds cells have an index inside the tile sequence.
pub proof fn lemma_index_in_range(w: u32, h: u32, x: u32, y: u32)
    requires
        x < w,
        y < h,
    ensures
        0 <= y * w + x < w * h,
{
    assert(y * w + x < w * h) by (nonlinear_arith)
        requires
            x < w,
            y < h,
    ;
}

/// Distinct in-bounds cells have distinct indices.
pub proof fn lemma_index_injective(w: u32, x1: u32, y1: u32, x2: u32, y2: u32)
    requires
        x1 < w,
        x2 < w,
        y1 * w + x1 == y2 * w + x2,
    ensures
        x1 == x2,
        y1 == y2,
{
    if y1 < y2 {
        assert(y1 * w + w <= y2 * w) by (nonlinear_arith)
            requires
                y1 < y2,
        ;
    } else if y2 < y1 {
        assert(y2 * w + w <= y1 * w) by (nonlinear_arith)
            requires
                y2 < y1,
        ;
    }
}

/// A rectangular grid of tiles.
#[derive(Clone, Debug)]
pub struct TileMap {
    pub width: u32,
    pub height: u32,
    pub tiles: Vec<Tile>,
}

impl View for TileMap {
    type V = MapView;

    open spec fn view(&self) -> MapView {
        MapView { width: self.width, height: self.height, tiles: self.tiles@ }
    }
}

impl TileMap {
    /// A 64 by 64 map of solid rock.
    pub fn new() -> (m: TileMap)
        ensures
            m@ == fresh_map(),
            m@.wf(),
    {
        let width = MAP_SIDE;
        let height = MAP_SIDE;
        let n: usize = (width * height) as usize;
        let mut tiles: Vec<Tile> = Vec::new();
        let mut i: usize = 0;
        while i < n
            invariant
                n == 4096,
                i <= n,
                tiles@.len() == i,
                forall|j: int| 0 <= j < i ==> tiles@[j] == solid_tile(),
            decreases n - i,
        {
            tiles.push(Tile::default());
            i = i + 1;
        }
        let m = TileMap { width, height, tiles };
        assert(m@.tiles =~= fresh_map().tiles);
        m
    }

    fn index(&self, x: u32, y: u32) -> (r: Option<usize>)
        requires
            self@.wf(),
        ensures
            r == (if self@.in_bounds(x, y) {
                Some(self@.index_of(x, y) as usize)
            } else {
                None::<usize>
            }),
    {
        if x < self.width && y < self.height {
            proof {
                lemma_index_in_range(self.width, self.height, x, y);
            }
            Some((y * self.width + x) as usize)
        } else {
            None
        }
    }

    /// The tile at `(x, y)`, if the cell lies on the map.
    pub fn get(&self, x: u32, y: u32) -> (r: Option<&Tile>)
        requires
            self@.wf(),
        ensures
            (match r {
                Some(t) => Some(*t),
                None => None,
            }) == self@.tile(x, y),
    {
        match self.index(x, y) {
            Some(i) => {
                proof {
                    lemma_index_in_range(self.width, self.height, x, y);
                }
                Some(&self.tiles[i])
            },
            None => None,
        }
    }

    /// A mutable handle on the tile at `(x, y)`, if the cell lies on the map.
    /// Whatever is written through the handle lands in that cell and nowhere else.
    pub fn get_mut(&mut self, x: u32, y: u32) -> (r: Option<&mut Tile>)
        requires
            old(self)@.wf(),
        ensures
            match r {
                Some(t) => {
                    &&& old(self)@.in_bounds(x, y)
                    &&& Some(*t) == old(self)@.tile(x, y)
                    &&& final(self)@ == old(self)@.with_tile(x, y, *final(t))
                },
                None => {
                    &&& !old(self)@.in_bounds(x, y)
                    &&& final(self)@ == old(self)@
                },
            },
    {
        match self.index(x, y) {
            Some(i) => {
                proof {
                    lemma_index_in_range(self.width, self.height, x, y);
                }
                Some(&mut self.tiles[i])
            },
            None => None,
        }
    }

    /// Overwrites the tile at `(x, y)`; does nothing outside the map.
    pub fn set(&mut self, x: u32, y: u32, tile: Tile)
        requires
            old(self)@.wf(),
        ensures
            final(self)@ == old(self)@.with_tile(x, y, tile),
            final(self)@.wf(),
    {
        match self.index(x, y) {
            Some(i) => {
                proof {
                    lemma_index_in_range(self.width, self.height, x, y);
                }
                self.tiles.set(i, tile);
            },
            None => {},
        }
    }

    /// Whether the tiles cover exactly `width * height` cells and every cell
    /// index fits in a `u32`.
    pub fn is_well_formed(&self) -> (r: bool)
        ensures
            r == self@.wf(),
    {
        let w = self.width as u64;
        let h = self.height as u64;
        assert(w * h <= u32::MAX as u64 * u32::MAX as u64) by (nonlinear_arith)
            requires
                w <= u32::MAX,
                h <= u32::MAX,
        ;
        let cells: u64 = w * h;
        cells <= u32::MAX as u64 && self.tiles.len() as u64 == cells
    }

    /// Whether a creature may stand on `(x, y)`.
    pub fn is_walkable(&self, x: u32, y: u32) -> (r: bool)
        requires
            self@.wf(),
        ensures
            r == self@.walkable(x, y),
    {
        match self.get(x, y) {
            Some(tile) => match tile.kind {
                TileKind::Floor => true,
                TileKind::Open => true,
                _ => false,
            },
            None => false,
        }
    }
}

impl Default for TileMap {
    fn default() -> (m: TileMap)
        ensures
            m@ == fresh_map(),
    {
        TileMap::new()
    }
}

/// Law (read after write): after writing `t` at `(x, y)`, reading `(x, y)`
/// gives `t` when the cell is on the map, and every other cell reads as before.
pub proof fn law_read_after_write(m: MapView, x: u32, y: u32, t: Tile, x2: u32, y2: u32)
    requires
        m.wf(),
    ensures
        m.with_tile(x, y, t).tile(x2, y2) == (if x2 == x && y2 == y && m.in_bounds(x, y) {
            Some(t)
        } else {
            m.tile(x2, y2)
        }),
        m.with_tile(x, y, t).wf(),
        m.with_tile(x, y, t).width == m.width,
        m.with_tile(x, y, t).height == m.height,
{
    if m.in_bounds(x, y) {
        lemma_index_in_range(m.width, m.height, x, y);
        if m.in_bounds(x2, y2) {
            lemma_index_in_range(m.width, m.height, x2, y2);
            if m.index_of(x, y) == m.index_of(x2, y2) {
                lemma_index_injective(m.width, x, y, x2, y2);
            }
        }
    }
}

/// Law: writing the tile that is already there changes nothing.
pub proof fn law_write_back_is_identity(m: MapView, x: u32, y: u32)
    requires
        m.wf(),
        m.in_bounds(x, y),
    ensures
        m.with_tile(x, y, m.tile(x, y).unwrap()) == m,
{
    lemma_index_in_range(m.width, m.height, x, y);
    assert(m.with_tile(x, y, m.tile(x, y).unwrap()).tiles =~= m.tiles);
    assert(m.with_tile(x, y, m.tile(x, y).unwrap()) =~= m);
}

/// Law: a creature can stand exactly on the floor and open cells inside the
/// map; solid rock, walls and everything outside the map block it.
pub proof fn law_walkable_cells(m: MapView, x: u32, y: u32)
    ensures
        m.walkable(x, y) <==> (x < m.width && y < m.height && (m.tiles[y * m.width + x].kind == TileKind::Floor
            || m.tiles[y * m.width + x].kind == TileKind::Open)),
{
}

} // verus!
