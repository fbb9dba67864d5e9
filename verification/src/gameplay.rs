//! Stockpiles, workshops and recipes, mining, and marking cells for mining.

use vstd::prelude::*;
use crate::world::{DesignationKind, MapView, Material, Tile, TileKind, TileMap};
use crate::jobs::{push_spec, Item, ItemId, ItemKind, JobKind, JobPriority, JobQueue};

verus! {

/// A rectangular storage zone that takes items of some materials.
#[derive(Clone, Debug)]
pub struct Stockpile {
    pub id: u32,
    pub x: u32,
    pub y: u32,
    pub w: u32,
    pub h: u32,
    pub accepted: Vec<Material>,
    pub items: Vec<ItemId>,
}

impl Stockpile {
    /// Whether `(px, py)` lies inside the zone.
    pub fn contains(&self, px: u32, py: u32) -> (r: bool)
        requires
            px >= self.x ==> self.x + self.w <= u32::MAX,
            px >= self.x && px < self.x + self.w && py >= self.y ==> self.y + self.h <= u32::MAX,
        ensures
            r == (self.x <= px < self.x + self.w && self.y <= py < self.y + self.h),
    {
        px >= self.x && px < self.x + self.w && py >= self.y && py < self.y + self.h
    }

    /// Whether the zone takes items of this material.
    pub fn accepts(&self, mat: Material) -> (r: bool)
        ensures
            r == self.accepted@.contains(mat),
    {
        let n = self.accepted.len();
        let mut i: usize = 0;
        while i < n
            invariant
                n == self.accepted@.len(),
                i <= n,
                forall|j: int| 0 <= j < i ==> self.accepted@[j] != mat,
            decreases n - i,
        {
            if self.accepted[i] == mat {
                assert(self.accepted@[i as int] == mat);
                return true;
            }
            i = i + 1;
        }
        false
    }
}

/// A workshop transformation: consumes `inputs` (material and count) and
/// produces `output_count` items of `output_kind` made of `output_material`.
#[derive(Clone, Debug)]
pub struct Recipe {
    pub inputs: Vec<(Material, u32)>,
    pub output_material: Material,
    pub output_kind: ItemKind,
    pub output_count: u32,
}

pub open spec fn recipe_is(
    r: Recipe,
    inputs: Seq<(Material, u32)>,
    output_material: Material,
    output_kind: ItemKind,
    output_count: u32,
) -> bool {
    &&& r.inputs@ == inputs
    &&& r.output_material == output_material
    &&& r.output_kind == output_kind
    &&& r.output_count == output_count
}

#[derive(Debug)]
pub struct Workshop {
    pub id: u32,
    pub pos: (u32, u32),
    pub recipes: Vec<Recipe>,
}

/// The player's buildings: stockpiles and workshops.
pub struct GameplayState {
    pub stockpiles: Vec<Stockpile>,
    pub workshops: Vec<Workshop>,
}

/// Whether `(x, y)` is on the map and marked for mining.
pub open spec fn mine_pending(map: MapView, x: u32, y: u32) -> bool {
    match map.tile(x, y) {
        Some(t) => t.designated == Some(DesignationKind::Mine),
        None => false,
    }
}

/// Mining a marked tile: it becomes a stone floor without a mark, and a rock
/// of the tile's former material appears there under the next item id.
/// Anything else leaves map, items and counter as they were.
pub open spec fn mine_spec(map: MapView, x: u32, y: u32, items: Seq<Item>, next_item_id: u32) -> (
    MapView,
    Seq<Item>,
    u32,
) {
    if mine_pending(map, x, y) {
        let t = map.tile(x, y).unwrap();
        (
            map.with_tile(x, y, Tile { kind: TileKind::Floor, material: Material::Stone, designated: None }),
            items.push(Item { id: ItemId(next_item_id), pos: (x, y), material: t.material, kind: ItemKind::Rock }),
            (next_item_id + 1) as u32,
        )
    } else {
        (map, items, next_item_id)
    }
}

impl GameplayState {
    pub fn new() -> (g: GameplayState)
        ensures
            g.stockpiles@.len() == 0,
            g.workshops@.len() == 0,
    {
        GameplayState { stockpiles: Vec::new(), workshops: Vec::new() }
    }

    /// The built-in recipes: two wood make four planks, three stone make
    /// four blocks, two food make one meal.
    pub fn standard_recipes() -> (r: Vec<Recipe>)
        ensures
            r@.len() == 3,
            recipe_is(r@[0], seq![(Material::Wood, 2u32)], Material::Wood, ItemKind::Plank, 4),
            recipe_is(r@[1], seq![(Material::Stone, 3u32)], Material::Stone, ItemKind::Block, 4),
            recipe_is(r@[2], seq![(Material::Food, 2u32)], Material::Food, ItemKind::Meal, 1),
    {
        let mut planks: Vec<(Material, u32)> = Vec::new();
        planks.push((Material::Wood, 2));
        let mut blocks: Vec<(Material, u32)> = Vec::new();
        blocks.push((Material::Stone, 3));
        let mut meals: Vec<(Material, u32)> = Vec::new();
        meals.push((Material::Food, 2));
        assert(planks@ == seq![(Material::Wood, 2u32)]);
        assert(blocks@ == seq![(Material::Stone, 3u32)]);
        assert(meals@ == seq![(Material::Food, 2u32)]);
        let mut r: Vec<Recipe> = Vec::new();
        r.push(
            Recipe { inputs: planks, output_material: Material::Wood, output_kind: ItemKind::Plank, output_count: 4 },
        );
        r.push(
            Recipe { inputs: blocks, output_material: Material::Stone, output_kind: ItemKind::Block, output_count: 4 },
        );
        r.push(Recipe { inputs: meals, output_material: Material::Food, output_kind: ItemKind::Meal, output_count: 1 });
        r
    }

    /// Mines `(x, y)` if it is marked for mining (see `mine_spec`).
    pub fn process_mine_designation(
        map: &mut TileMap,
        x: u32,
        y: u32,
        items: &mut Vec<Item>,
        next_item_id: &mut u32,
    )
        requires
            old(map)@.wf(),
            mine_pending(old(map)@, x, y) ==> *old(next_item_id) < u32::MAX,
        ensures
            (final(map)@, final(items)@, *final(next_item_id)) == mine_spec(
                old(map)@,
                x,
                y,
                old(items)@,
                *old(next_item_id),
            ),
            final(map)@.wf(),
            crate::jobs::item_ids_fresh(old(items)@, *old(next_item_id)) ==> crate::jobs::item_ids_fresh(
                final(items)@,
                *final(next_item_id),
            ),
    {
        let should_mine = match map.get(x, y) {
            Some(t) => match t.designated {
                Some(DesignationKind::Mine) => true,
                _ => false,
            },
            None => false,
        };
        if should_mine {
            let mat = match map.get(x, y) {
                Some(t) => t.material,
                None => Material::Stone,
            };
            map.set(x, y, Tile { kind: TileKind::Floor, material: Material::Stone, designated: None });
            let item_id = ItemId(*next_item_id);
            *next_item_id = *next_item_id + 1;
            proof {
                if crate::jobs::item_ids_fresh(old(items)@, *old(next_item_id)) {
                    crate::jobs::lemma_push_fresh_item(
                        old(items)@,
                        *old(next_item_id),
                        Item { id: item_id, pos: (x, y), material: mat, kind: ItemKind::Rock },
                    );
                }
            }
            items.push(Item { id: item_id, pos: (x, y), material: mat, kind: ItemKind::Rock });
        }
    }
}

impl Default for GameplayState {
    fn default() -> (g: GameplayState)
        ensures
            g.stockpiles@.len() == 0,
            g.workshops@.len() == 0,
    {
        GameplayState::new()
    }
}

/// Law: mining is done once. Processing the same cell again right after
/// changes nothing, because mining clears the mark.
pub proof fn law_mining_clears_the_mark(map: MapView, x: u32, y: u32, items: Seq<Item>, next_item_id: u32)
    requires
        map.wf(),
    ensures
        ({
            let r = mine_spec(map, x, y, items, next_item_id);
            mine_spec(r.0, x, y, r.1, r.2) == r
        }),
{
    if mine_pending(map, x, y) {
        crate::world::lemma_index_in_range(map.width, map.height, x, y);
    }
}

/// Law: a mined cell is walkable afterwards, and exactly one item (a rock
/// with a fresh id) appears.
pub proof fn law_mined_cell_is_walkable(map: MapView, x: u32, y: u32, items: Seq<Item>, next_item_id: u32)
    requires
        map.wf(),
        mine_pending(map, x, y),
    ensures
        ({
            let r = mine_spec(map, x, y, items, next_item_id);
            &&& r.0.walkable(x, y)
            &&& r.1.len() == items.len() + 1
            &&& r.1.last().id == ItemId(next_item_id)
            &&& r.1.last().kind == ItemKind::Rock
        }),
{
    crate::world::lemma_index_in_range(map.width, map.height, x, y);
}


/// Whether the player may mark the cell `(tx, ty)` for mining: it is on the
/// map, is rock or wall, and is not marked already.
pub open spec fn can_designate(map: MapView, tx: i32, ty: i32) -> bool {
    &&& tx >= 0
    &&& ty >= 0
    &&& match map.tile(tx as u32, ty as u32) {
        Some(t) => (t.kind == TileKind::Solid || t.kind == TileKind::Wall) && t.designated != Some(
            DesignationKind::Mine,
        ),
        None => false,
    }
}

/// Marks the clicked cell `(tx, ty)` for mining and files a basic dig job
/// for it, when `can_designate` allows; reports whether it did.
pub fn designate_mine(map: &mut TileMap, queue: &mut JobQueue, tx: i32, ty: i32) -> (r: bool)
    requires
        old(map)@.wf(),
        can_designate(old(map)@, tx, ty) ==> old(queue).next_id < u32::MAX,
    ensures
        r == can_designate(old(map)@, tx, ty),
        r ==> {
            let (x, y) = (tx as u32, ty as u32);
            &&& final(map)@ == old(map)@.with_tile(
                x,
                y,
                Tile { designated: Some(DesignationKind::Mine), ..old(map)@.tile(x, y).unwrap() },
            )
            &&& final(queue).jobs@ == push_spec(
                old(queue).jobs@,
                old(queue).next_id,
                JobKind::Dig { pos: (x, y) },
                JobPriority::Basic,
            )
            &&& final(queue).next_id == old(queue).next_id + 1
        },
        !r ==> final(map)@ == old(map)@ && final(queue).jobs@ == old(queue).jobs@ && final(queue).next_id
            == old(queue).next_id,
        final(map)@.wf(),
{
    if tx < 0 || ty < 0 {
        return false;
    }
    let x = tx as u32;
    let y = ty as u32;
    let allowed = match map.get(x, y) {
        Some(tile) => {
            let minable = match tile.kind {
                TileKind::Solid => true,
                TileKind::Wall => true,
                _ => false,
            };
            let marked = match tile.designated {
                Some(DesignationKind::Mine) => true,
                _ => false,
            };
            minable && !marked
        },
        None => false,
    };
    if !allowed {
        return false;
    }
    match map.get_mut(x, y) {
        Some(t) => {
            t.designated = Some(DesignationKind::Mine);
        },
        None => {},
    }
    proof {
        crate::world::lemma_index_in_range(old(map)@.width, old(map)@.height, x, y);
    }
    let _ = queue.push(JobKind::Dig { pos: (x, y) }, JobPriority::Basic);
    true
}


/// Law: the player may mark a cell for mining exactly when it lies on the map
/// (non-negative coordinates inside the sides), is rock or wall, and is not
/// already marked for mining.
pub proof fn law_designation_rule(map: MapView, tx: i32, ty: i32)
    requires
        map.wf(),
    ensures
        can_designate(map, tx, ty) <==> {
            &&& 0 <= tx
            &&& 0 <= ty
            &&& (tx as u32) < map.width
            &&& (ty as u32) < map.height
            &&& ({
                let t = map.tiles[(ty as u32) * map.width + (tx as u32)];
                &&& (t.kind == TileKind::Solid || t.kind == TileKind::Wall)
                &&& t.designated != Some(DesignationKind::Mine)
            })
        },
{
}

/// Law: marking is done once. After a cell has been marked, marking it again
/// is refused.
pub proof fn law_designation_is_once(map: MapView, tx: i32, ty: i32)
    requires
        map.wf(),
        can_designate(map, tx, ty),
    ensures
        !can_designate(
            map.with_tile(
                tx as u32,
                ty as u32,
                Tile { designated: Some(DesignationKind::Mine), ..map.tile(tx as u32, ty as u32).unwrap() },
            ),
            tx,
            ty,
        ),
{
    crate::world::lemma_index_in_range(map.width, map.height, tx as u32, ty as u32);
}

/// Law: any cell on the map that is marked for mining is mined, whatever its
/// kind: it becomes an unmarked stone floor, a rock of its former material
/// appears on it under the next item id, and the counter moves on by one.
/// A cell that is not marked (or off the map) is left alone.
pub proof fn law_marked_cell_is_mined(map: MapView, x: u32, y: u32, items: Seq<Item>, next_item_id: u32)
    requires
        map.wf(),
    ensures
        ({
            let r = mine_spec(map, x, y, items, next_item_id);
            match map.tile(x, y) {
                Some(t) => if t.designated == Some(DesignationKind::Mine) {
                    &&& r.0 == map.with_tile(
                        x,
                        y,
                        Tile { kind: TileKind::Floor, material: Material::Stone, designated: None },
                    )
                    &&& r.1 == items.push(
                        Item { id: ItemId(next_item_id), pos: (x, y), material: t.material, kind: ItemKind::Rock },
                    )
                    &&& r.2 == (next_item_id + 1) as u32
                } else {
                    r == (map, items, next_item_id)
                },
                None => r == (map, items, next_item_id),
            }
        }),
{
}

} // verus!
