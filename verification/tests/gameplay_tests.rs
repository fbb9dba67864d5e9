use fortress_sim::gameplay::designate_mine;
use fortress_sim::jobs::{JobKind, JobPriority, JobQueue};
use fortress_sim::sim::SimState;
use fortress_sim::ui::hud_info;
use fortress_sim::gameplay::{GameplayState, Stockpile};
use fortress_sim::jobs::{ItemId, ItemKind};
use fortress_sim::persistence::{SaveError, SaveMeta, CURRENT_VERSION};
use fortress_sim::jobs::SimTime;
use fortress_sim::world::{DesignationKind, Material, Tile, TileKind, TileMap};

fn pile() -> Stockpile {
    Stockpile { id: 1, x: 10, y: 20, w: 3, h: 2, accepted: vec![Material::Wood, Material::Stone], items: vec![] }
}

#[test]
fn stockpile_area() {
    let p = pile();
    assert!(p.contains(10, 20));
    assert!(p.contains(12, 21));
    assert!(!p.contains(13, 20));
    assert!(!p.contains(10, 22));
    assert!(!p.contains(9, 20));
    assert!(!p.contains(10, 19));
}

#[test]
fn stockpile_materials() {
    let p = pile();
    assert!(p.accepts(Material::Wood));
    assert!(p.accepts(Material::Stone));
    assert!(!p.accepts(Material::Food));
}

#[test]
fn standard_recipes_table() {
    let r = GameplayState::standard_recipes();
    assert_eq!(r.len(), 3);
    assert_eq!(r[0].inputs, vec![(Material::Wood, 2)]);
    assert_eq!(r[0].output_kind, ItemKind::Plank);
    assert_eq!(r[0].output_count, 4);
    assert_eq!(r[1].inputs, vec![(Material::Stone, 3)]);
    assert_eq!(r[1].output_kind, ItemKind::Block);
    assert_eq!(r[1].output_count, 4);
    assert_eq!(r[2].inputs, vec![(Material::Food, 2)]);
    assert_eq!(r[2].output_material, Material::Food);
    assert_eq!(r[2].output_kind, ItemKind::Meal);
    assert_eq!(r[2].output_count, 1);
}

#[test]
fn mining_a_marked_tile_once() {
    let mut map = TileMap::new();
    map.set(4, 4, Tile { kind: TileKind::Solid, material: Material::Ore, designated: Some(DesignationKind::Mine) });
    let mut items = Vec::new();
    let mut next = 5u32;
    GameplayState::process_mine_designation(&mut map, 4, 4, &mut items, &mut next);
    assert_eq!(next, 6);
    assert_eq!(items.len(), 1);
    assert_eq!(items[0].id, ItemId(5));
    assert_eq!(items[0].material, Material::Ore);
    assert_eq!(items[0].kind, ItemKind::Rock);
    assert_eq!(items[0].pos, (4, 4));
    assert_eq!(*map.get(4, 4).unwrap(), Tile { kind: TileKind::Floor, material: Material::Stone, designated: None });
    assert!(map.is_walkable(4, 4));
    GameplayState::process_mine_designation(&mut map, 4, 4, &mut items, &mut next);
    assert_eq!(next, 6);
    assert_eq!(items.len(), 1);
}

#[test]
fn unmarked_or_off_map_tiles_are_not_mined() {
    let mut map = TileMap::new();
    map.set(2, 2, Tile { kind: TileKind::Solid, material: Material::Ore, designated: Some(DesignationKind::Haul) });
    let mut items = Vec::new();
    let mut next = 0u32;
    GameplayState::process_mine_designation(&mut map, 2, 2, &mut items, &mut next);
    GameplayState::process_mine_designation(&mut map, 3, 3, &mut items, &mut next);
    GameplayState::process_mine_designation(&mut map, 300, 3, &mut items, &mut next);
    assert!(items.is_empty());
    assert_eq!(next, 0);
    assert_eq!(map.get(2, 2).unwrap().kind, TileKind::Solid);
}

#[test]
fn new_gameplay_state_is_empty() {
    let g = GameplayState::new();
    assert!(g.stockpiles.is_empty());
    assert!(g.workshops.is_empty());
}

#[test]
fn save_meta_and_version_check() {
    let mut t = SimTime::new();
    t.advance();
    let m = SaveMeta::for_save(12345, &t);
    assert_eq!(m.version, CURRENT_VERSION);
    assert_eq!(m.seed, 12345);
    assert_eq!(m.tick, 1);
    assert_eq!(m.created_at, "2024-01-01T00:00:00Z");
    assert_eq!(m.check_version(), Ok(()));
    let old = SaveMeta { version: 7, ..m };
    assert_eq!(old.check_version(), Err(SaveError::IncompatibleVersion { found: 7, expected: 1 }));
}

#[test]
fn designating_rock_for_mining_files_a_dig_job() {
    let mut map = TileMap::new();
    let mut q = JobQueue::new();
    assert!(designate_mine(&mut map, &mut q, 3, 4));
    assert_eq!(map.get(3, 4).unwrap().designated, Some(DesignationKind::Mine));
    assert_eq!(q.jobs.len(), 1);
    assert_eq!(q.jobs[0].kind, JobKind::Dig { pos: (3, 4) });
    assert_eq!(q.jobs[0].priority, JobPriority::Basic);
    // a second click on the same cell does nothing
    assert!(!designate_mine(&mut map, &mut q, 3, 4));
    assert_eq!(q.jobs.len(), 1);
    // floor, negative and off-map cells are refused
    map.set(5, 5, Tile { kind: TileKind::Floor, material: Material::Empty, designated: None });
    assert!(!designate_mine(&mut map, &mut q, 5, 5));
    assert!(!designate_mine(&mut map, &mut q, -1, 5));
    assert!(!designate_mine(&mut map, &mut q, 5, 64));
    assert_eq!(q.jobs.len(), 1);
    assert_eq!(q.next_id, 1);
}

#[test]
fn hud_reports_the_colony() {
    let mut s = SimState::new();
    s.time.tick = 2500;
    s.job_queue.push(JobKind::Sleep, JobPriority::Low);
    let h = hud_info(&s);
    assert_eq!(h.tick, 2500);
    assert_eq!(h.day, 2);
    assert_eq!(h.dwarf_count, 3);
    assert_eq!(h.job_count, 1);
}
