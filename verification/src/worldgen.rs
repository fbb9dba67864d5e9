//! Building a new world from a seed.

use vstd::prelude::*;
use rand::rngs::StdRng;
use rand::{Rng, SeedableRng};
use crate::world::{MapView, Material, Tile, TileKind, TileMap, MAP_SIDE};

verus! {

#[verifier::external_type_specification]
#[verifier::external_body]
pub struct ExStdRng(StdRng);

/// Calls `rand::SeedableRng::seed_from_u64` for `rand::rngs::StdRng`. Nothing
/// is stated of the generator it returns.
#[verifier::external_body]
fn seeded_rng(seed: u64) -> StdRng {
    StdRng::seed_from_u64(seed)
}

/// Calls `rand::Rng::gen_range` with the inclusive range `lo..=hi`. The
/// value lies in that range; which one it is, is left unsaid. The crate
/// panics on an empty range, which `requires` rules out.
#[verifier::external_body]
fn random_between(rng: &mut StdRng, lo: u32, hi: u32) -> (r: u32)
    requires
        lo <= hi,
    ensures
        lo <= r <= hi,
{
    rng.gen_range(lo..=hi)
}

/// Calls `rand::Rng::gen_ratio(numerator, denominator)`: `true` with
/// probability `numerator / denominator`. As the crate documents, a ratio of
/// one always gives `true` and a zero numerator always gives `false`; which
/// value comes otherwise is left unsaid. The crate panics when the numerator
/// exceeds the denominator or the denominator is zero, which `requires` rules
/// out.
#[verifier::external_body]
fn random_ratio(rng: &mut StdRng, numerator: u32, denominator: u32) -> (r: bool)
    requires
        numerator <= denominator,
        denominator > 0,
    ensures
        numerator == denominator ==> r,
        numerator == 0 ==> !r,
{
    rng.gen_ratio(numerator, denominator)
}

/// A loose material is stone with odds `STONE_ODDS` in `STONE_ODDS_OUT_OF`,
/// else wood.
pub const STONE_ODDS: u32 = 1;

pub const STONE_ODDS_OUT_OF: u32 = 2;

/// Lowest coordinate of the open area carved into a new world.
pub const CAVE_LO: u32 = 22;

/// Highest coordinate of the open area carved into a new world.
pub const CAVE_HI: u32 = 41;

/// How many loose materials a new world scatters over its open area.
pub const SCATTER_COUNT: usize = 30;

/// One scattered material: its cell, and stone (`true`) or wood (`false`).
#[derive(Clone, Copy, Debug, PartialEq, Eq, Structural)]
pub struct Scatter {
    pub x: u32,
    pub y: u32,
    pub stone: bool,
}

/// The tile a new world has at `(x, y)` before materials are scattered:
/// a stone wall around the border, a floor over the open area, rock elsewhere.
pub open spec fn base_tile(x: u32, y: u32) -> Tile {
    if x == 0 || x == MAP_SIDE - 1 || y == 0 || y == MAP_SIDE - 1 {
        Tile { kind: TileKind::Wall, material: Material::Stone, designated: None }
    } else if CAVE_LO <= x <= CAVE_HI && CAVE_LO <= y <= CAVE_HI {
        Tile { kind: TileKind::Floor, material: Material::Empty, designated: None }
    } else {
        Tile { kind: TileKind::Solid, material: Material::Empty, designated: None }
    }
}

/// A new world before materials are scattered.
pub open spec fn base_map() -> MapView {
    MapView {
        width: MAP_SIDE,
        height: MAP_SIDE,
        tiles: Seq::new(
            (MAP_SIDE * MAP_SIDE) as nat,
            |i: int| base_tile((i % (MAP_SIDE as int)) as u32, (i / (MAP_SIDE as int)) as u32),
        ),
    }
}

/// The map after laying the scattered materials down in order (a later one
/// on the same cell wins; cells off the map are skipped).
pub open spec fn scattered(m: MapView, s: Seq<Scatter>) -> MapView
    decreases s.len(),
{
    if s.len() == 0 {
        m
    } else {
        let prev = scattered(m, s.drop_last());
        let d = s.last();
        match prev.tile(d.x, d.y) {
            Some(t) => prev.with_tile(
                d.x,
                d.y,
                Tile {
                    material: if d.stone {
                        Material::Stone
                    } else {
                        Material::Wood
                    },
                    ..t
                },
            ),
            None => prev,
        }
    }
}

/// The scattered materials all fall on the open area.
pub open spec fn scatter_in_cave(s: Seq<Scatter>) -> bool {
    forall|k: int| 0 <= k < s.len() ==> CAVE_LO <= (#[trigger] s[k]).x <= CAVE_HI && CAVE_LO <= s[k].y <= CAVE_HI
}

pub proof fn lemma_scattered_shape(m: MapView, s: Seq<Scatter>)
    requires
        m.wf(),
    ensures
        scattered(m, s).wf(),
        scattered(m, s).width == m.width,
        scattered(m, s).height == m.height,
    decreases s.len(),
{
    if s.len() > 0 {
        lemma_scattered_shape(m, s.drop_last());
        let prev = scattered(m, s.drop_last());
        let d = s.last();
        if prev.in_bounds(d.x, d.y) {
            crate::world::lemma_index_in_range(prev.width, prev.height, d.x, d.y);
        }
    }
}

/// Builds new worlds.
pub struct WorldGen;

impl WorldGen {
    /// The world for these scattered materials: `base_map` with `draws`
    /// laid down in order.
    pub fn generate_from_draws(draws: &Vec<Scatter>) -> (m: TileMap)
        ensures
            m@ == scattered(base_map(), draws@),
            m@.wf(),
    {
        let side = MAP_SIDE;
        let n: usize = (MAP_SIDE * MAP_SIDE) as usize;
        let mut tiles: Vec<Tile> = Vec::new();
        let mut i: usize = 0;
        while i < n
            invariant
                n == MAP_SIDE * MAP_SIDE,
                side == MAP_SIDE,
                i <= n,
                tiles@.len() == i,
                forall|j: int| 0 <= j < i ==> #[trigger] tiles@[j] == base_map().tiles[j],
            decreases n - i,
        {
            let x = (i % (side as usize)) as u32;
            let y = (i / (side as usize)) as u32;
            let t = if x == 0 || x == side - 1 || y == 0 || y == side - 1 {
                Tile { kind: TileKind::Wall, material: Material::Stone, designated: None }
            } else if CAVE_LO <= x && x <= CAVE_HI && CAVE_LO <= y && y <= CAVE_HI {
                Tile { kind: TileKind::Floor, material: Material::Empty, designated: None }
            } else {
                Tile { kind: TileKind::Solid, material: Material::Empty, designated: None }
            };
            tiles.push(t);
            i = i + 1;
        }
        let mut map = TileMap { width: side, height: side, tiles };
        assert(map@.tiles =~= base_map().tiles);
        assert(map@ =~= base_map());
        let count = draws.len();
        let mut k: usize = 0;
        while k < count
            invariant
                count == draws@.len(),
                k <= count,
                map@ == scattered(base_map(), draws@.take(k as int)),
                map@.wf(),
            decreases count - k,
        {
            let d = draws[k];
            proof {
                assert(draws@.take(k + 1).drop_last() == draws@.take(k as int));
                assert(draws@.take(k + 1).last() == d);
            }
            let material = if d.stone {
                Material::Stone
            } else {
                Material::Wood
            };
            match map.get_mut(d.x, d.y) {
                Some(tile) => {
                    tile.material = material;
                },
                None => {},
            }
            proof {
                lemma_scattered_shape(base_map(), draws@.take(k + 1));
            }
            k = k + 1;
        }
        assert(draws@.take(count as int) == draws@);
        map
    }

    /// A new 64 by 64 world from `seed`: stone walls around the border, an
    /// open floor over x and y from 22 to 41, rock elsewhere, and 30 loose
    /// stones or logs the seeded generator scatters over the open area.
    pub fn generate(seed: u64) -> (m: TileMap)
        ensures
            m@.wf(),
            m@.width == MAP_SIDE,
            m@.height == MAP_SIDE,
            exists|s: Seq<Scatter>|
                s.len() == SCATTER_COUNT && scatter_in_cave(s) && m@ == scattered(base_map(), s),
    {
        let mut rng = seeded_rng(seed);
        let mut draws: Vec<Scatter> = Vec::new();
        let mut k: usize = 0;
        while k < SCATTER_COUNT
            invariant
                k <= SCATTER_COUNT,
                draws@.len() == k,
                scatter_in_cave(draws@),
            decreases SCATTER_COUNT - k,
        {
            let x = random_between(&mut rng, CAVE_LO, CAVE_HI);
            let y = random_between(&mut rng, CAVE_LO, CAVE_HI);
            let stone = random_ratio(&mut rng, STONE_ODDS, STONE_ODDS_OUT_OF);
            draws.push(Scatter { x, y, stone });
            k = k + 1;
        }
        let m = Self::generate_from_draws(&draws);
        proof {
            lemma_scattered_shape(base_map(), draws@);
        }
        assert(draws@.len() == SCATTER_COUNT && scatter_in_cave(draws@) && m@ == scattered(base_map(), draws@));
        m
    }
}


/// Whether `(x, y)` lies in the open area.
pub open spec fn in_cave(x: u32, y: u32) -> bool {
    CAVE_LO <= x <= CAVE_HI && CAVE_LO <= y <= CAVE_HI
}

proof fn lemma_base_map_tile(x: u32, y: u32)
    requires
        x < MAP_SIDE,
        y < MAP_SIDE,
    ensures
        base_map().wf(),
        base_map().tile(x, y) == Some(base_tile(x, y)),
{
    let i = y * 64 + x;
    assert(0 <= i < 4096) by (nonlinear_arith)
        requires
            x < 64,
            y < 64,
            i == y * 64 + x,
    ;
    assert(i % 64 == x && i / 64 == y) by (nonlinear_arith)
        requires
            x < 64,
            y < 64,
            i == y * 64 + x,
    ;
}

/// Law: scattering only changes the material of cells in the open area.
/// Every cell keeps its kind and (absent) mark, and cells outside the open
/// area keep their tile entirely.
pub proof fn law_scatter_keeps_layout(s: Seq<Scatter>, x: u32, y: u32)
    requires
        scatter_in_cave(s),
        x < MAP_SIDE,
        y < MAP_SIDE,
    ensures
        scattered(base_map(), s).tile(x, y) is Some,
        scattered(base_map(), s).tile(x, y).unwrap().kind == base_tile(x, y).kind,
        scattered(base_map(), s).tile(x, y).unwrap().designated is None,
        !in_cave(x, y) ==> scattered(base_map(), s).tile(x, y) == Some(base_tile(x, y)),
        in_cave(x, y) ==> {
            let m = scattered(base_map(), s).tile(x, y).unwrap().material;
            m == Material::Empty || m == Material::Stone || m == Material::Wood
        },
    decreases s.len(),
{
    lemma_base_map_tile(x, y);
    lemma_scattered_shape(base_map(), s);
    if s.len() > 0 {
        let rest = s.drop_last();
        assert(scatter_in_cave(rest)) by {
            assert forall|k: int| 0 <= k < rest.len() implies CAVE_LO <= (#[trigger] rest[k]).x <= CAVE_HI && CAVE_LO
                <= rest[k].y <= CAVE_HI by {
                assert(rest[k] == s[k]);
            }
        }
        law_scatter_keeps_layout(rest, x, y);
        lemma_scattered_shape(base_map(), rest);
        let prev = scattered(base_map(), rest);
        let d = s.last();
        assert(CAVE_LO <= d.x <= CAVE_HI && CAVE_LO <= d.y <= CAVE_HI) by {
            assert(d == s[s.len() - 1]);
        }
        lemma_base_map_tile(d.x, d.y);
        law_scatter_keeps_layout(rest, d.x, d.y);
        let t = prev.tile(d.x, d.y).unwrap();
        let nt = Tile {
            material: if d.stone {
                Material::Stone
            } else {
                Material::Wood
            },
            ..t
        };
        crate::world::law_read_after_write(prev, d.x, d.y, nt, x, y);
    }
}

/// Law: in every generated world the border is stone wall and the whole
/// open area is walkable floor, wherever the materials fell.
pub proof fn law_generated_world_layout(s: Seq<Scatter>, x: u32, y: u32)
    requires
        scatter_in_cave(s),
        x < MAP_SIDE,
        y < MAP_SIDE,
    ensures
        (x == 0 || x == MAP_SIDE - 1 || y == 0 || y == MAP_SIDE - 1) ==> scattered(base_map(), s).tile(x, y)
            == Some(Tile { kind: TileKind::Wall, material: Material::Stone, designated: None }),
        in_cave(x, y) ==> scattered(base_map(), s).walkable(x, y),
{
    law_scatter_keeps_layout(s, x, y);
}


/// Law: the layout of every generated world, cell by cell. The border
/// (x or y equal to 0 or 63) is stone wall; the open area (x and y from 22 to
/// 41) is unmarked floor of no material, stone or wood; every other cell is
/// unmarked rock of no material.
pub proof fn law_generated_world_cells(s: Seq<Scatter>, x: u32, y: u32)
    requires
        scatter_in_cave(s),
        x < 64,
        y < 64,
    ensures
        ({
            let t = scattered(base_map(), s).tile(x, y);
            &&& (x == 0 || x == 63 || y == 0 || y == 63) ==> t == Some(
                Tile { kind: TileKind::Wall, material: Material::Stone, designated: None },
            )
            &&& (0 < x < 63 && 0 < y < 63 && !(22 <= x <= 41 && 22 <= y <= 41)) ==> t == Some(
                Tile { kind: TileKind::Solid, material: Material::Empty, designated: None },
            )
            &&& (22 <= x <= 41 && 22 <= y <= 41) ==> {
                &&& t is Some
                &&& t.unwrap().kind == TileKind::Floor
                &&& t.unwrap().designated is None
                &&& (t.unwrap().material == Material::Empty || t.unwrap().material == Material::Stone
                    || t.unwrap().material == Material::Wood)
            }
        }),
{
    law_scatter_keeps_layout(s, x, y);
}

/// Law: a cell of the open area carries the material of the last draw that
/// fell on it (stone or wood as the draw says), and no material when no draw
/// fell on it.
pub proof fn law_last_draw_wins(s: Seq<Scatter>, x: u32, y: u32)
    requires
        scatter_in_cave(s),
        22 <= x <= 41,
        22 <= y <= 41,
    ensures
        (forall|k: int| 0 <= k < s.len() ==> !((#[trigger] s[k]).x == x && s[k].y == y)) ==> scattered(
            base_map(),
            s,
        ).tile(x, y).unwrap().material == Material::Empty,
        forall|k: int|
            0 <= k < s.len() && (#[trigger] s[k]).x == x && s[k].y == y && (forall|j: int|
                k < j < s.len() ==> !((#[trigger] s[j]).x == x && s[j].y == y)) ==> scattered(base_map(), s).tile(
                x,
                y,
            ).unwrap().material == (if s[k].stone {
                Material::Stone
            } else {
                Material::Wood
            }),
    decreases s.len(),
{
    lemma_base_map_tile(x, y);
    lemma_scattered_shape(base_map(), s);
    if s.len() > 0 {
        let rest = s.drop_last();
        assert(scatter_in_cave(rest)) by {
            assert forall|k: int| 0 <= k < rest.len() implies CAVE_LO <= (#[trigger] rest[k]).x <= CAVE_HI && CAVE_LO
                <= rest[k].y <= CAVE_HI by {
                assert(rest[k] == s[k]);
            }
        }
        law_last_draw_wins(rest, x, y);
        law_scatter_keeps_layout(rest, x, y);
        lemma_scattered_shape(base_map(), rest);
        let prev = scattered(base_map(), rest);
        let d = s.last();
        assert(CAVE_LO <= d.x <= CAVE_HI && CAVE_LO <= d.y <= CAVE_HI) by {
            assert(d == s[s.len() - 1]);
        }
        lemma_base_map_tile(d.x, d.y);
        law_scatter_keeps_layout(rest, d.x, d.y);
        let t = prev.tile(d.x, d.y).unwrap();
        let nt = Tile {
            material: if d.stone {
                Material::Stone
            } else {
                Material::Wood
            },
            ..t
        };
        crate::world::law_read_after_write(prev, d.x, d.y, nt, x, y);
        assert forall|k: int|
            0 <= k < s.len() && (#[trigger] s[k]).x == x && s[k].y == y && (forall|j: int|
                k < j < s.len() ==> !((#[trigger] s[j]).x == x && s[j].y == y)) implies scattered(base_map(), s).tile(
            x,
            y,
        ).unwrap().material == (if s[k].stone {
            Material::Stone
        } else {
            Material::Wood
        }) by {
            if k < s.len() - 1 {
                assert(rest[k] == s[k]);
                assert(!(s[s.len() - 1].x == x && s[s.len() - 1].y == y));
                assert forall|j: int| k < j < rest.len() implies !((#[trigger] rest[j]).x == x && rest[j].y == y) by {
                    assert(rest[j] == s[j]);
                }
            }
        }
        if forall|k: int| 0 <= k < s.len() ==> !((#[trigger] s[k]).x == x && s[k].y == y) {
            assert(!(s[s.len() - 1].x == x && s[s.len() - 1].y == y));
            assert forall|k: int| 0 <= k < rest.len() implies !((#[trigger] rest[k]).x == x && rest[k].y == y) by {
                assert(rest[k] == s[k]);
            }
        }
    }
}

} // verus!
