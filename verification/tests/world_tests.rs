use fortress_sim::world::{DesignationKind, Material, Tile, TileKind, TileMap};
use fortress_sim::worldgen::{Scatter, WorldGen};

#[test]
fn test_tilemap_get_set() {
    let mut map = TileMap::new();
    let tile = Tile { kind: TileKind::Floor, material: Material::Stone, designated: None };
    map.set(5, 5, tile.clone());
    let got = map.get(5, 5).unwrap();
    assert_eq!(got.kind, TileKind::Floor);
    assert_eq!(got.material, Material::Stone);
}

#[test]
fn test_is_walkable() {
    let mut map = TileMap::new();
    assert!(!map.is_walkable(5, 5)); // Solid by default
    map.set(5, 5, Tile { kind: TileKind::Floor, material: Material::Empty, designated: None });
    assert!(map.is_walkable(5, 5));
}

#[test]
fn new_map_is_solid_64_by_64() {
    let map = TileMap::new();
    assert_eq!(map.width, 64);
    assert_eq!(map.height, 64);
    assert_eq!(map.tiles.len(), 4096);
    assert_eq!(*map.get(63, 63).unwrap(), Tile::default());
    assert_eq!(Tile::default().kind, TileKind::Solid);
    assert_eq!(Tile::default().material, Material::Empty);
    assert!(map.get(64, 0).is_none());
    assert!(map.get(0, 64).is_none());
}

#[test]
fn set_outside_the_map_changes_nothing() {
    let mut map = TileMap::new();
    let before = map.tiles.clone();
    map.set(64, 3, Tile { kind: TileKind::Floor, material: Material::Wood, designated: None });
    assert_eq!(map.tiles, before);
}

#[test]
fn read_after_write_touches_only_that_cell() {
    let mut map = TileMap::new();
    let t = Tile { kind: TileKind::Open, material: Material::Ore, designated: Some(DesignationKind::Haul) };
    map.set(10, 20, t);
    assert_eq!(*map.get(10, 20).unwrap(), t);
    assert_eq!(map.tiles[20 * 64 + 10], t);
    assert_eq!(*map.get(20, 10).unwrap(), Tile::default());
    assert_eq!(map.tiles.iter().filter(|x| **x != Tile::default()).count(), 1);
}

#[test]
fn get_mut_writes_through() {
    let mut map = TileMap::new();
    if let Some(t) = map.get_mut(3, 4) {
        t.kind = TileKind::Open;
    }
    assert_eq!(map.get(3, 4).unwrap().kind, TileKind::Open);
    assert!(map.is_walkable(3, 4));
    assert!(map.get_mut(70, 4).is_none());
}

#[test]
fn walls_are_not_walkable_and_off_map_is_not() {
    let mut map = TileMap::new();
    map.set(1, 1, Tile { kind: TileKind::Wall, material: Material::Stone, designated: None });
    assert!(!map.is_walkable(1, 1));
    assert!(!map.is_walkable(100, 1));
}

#[test]
fn generated_world_layout() {
    for seed in [0u64, 42, 12345] {
        let map = WorldGen::generate(seed);
        assert_eq!(map.width, 64);
        assert_eq!(map.height, 64);
        for i in 0..64u32 {
            for (x, y) in [(i, 0), (i, 63), (0, i), (63, i)] {
                let t = map.get(x, y).unwrap();
                assert_eq!(t.kind, TileKind::Wall);
                assert_eq!(t.material, Material::Stone);
            }
        }
        let mut stones = 0;
        let mut logs = 0;
        for y in 22..=41u32 {
            for x in 22..=41u32 {
                assert!(map.is_walkable(x, y));
                let m = map.get(x, y).unwrap().material;
                assert!(m == Material::Empty || m == Material::Stone || m == Material::Wood);
                if m == Material::Stone {
                    stones += 1;
                }
                if m == Material::Wood {
                    logs += 1;
                }
            }
        }
        // 30 draws over 400 cells: a few may land on the same cell
        assert!(stones + logs >= 20 && stones + logs <= 30);
        assert!(stones >= 1 && logs >= 1);
        let outside = map.tiles.iter().enumerate().filter(|(i, t)| {
            let (x, y) = ((*i % 64) as u32, (*i / 64) as u32);
            !(22..=41).contains(&x) || !(22..=41).contains(&y) || t.material == Material::Empty
        }).count();
        assert_eq!(outside, 4096 - (stones + logs));
        assert_eq!(map.get(10, 10).unwrap().kind, TileKind::Solid);
    }
}

#[test]
fn generation_is_repeatable_for_a_seed() {
    let a = WorldGen::generate(7);
    let b = WorldGen::generate(7);
    assert_eq!(a.tiles, b.tiles);
    let c = WorldGen::generate(8);
    assert_ne!(a.tiles, c.tiles);
}

#[test]
fn scattered_materials_land_in_order() {
    let draws = vec![
        Scatter { x: 25, y: 30, stone: true },
        Scatter { x: 25, y: 30, stone: false },
        Scatter { x: 40, y: 22, stone: true },
        Scatter { x: 100, y: 22, stone: true },
    ];
    let map = WorldGen::generate_from_draws(&draws);
    assert_eq!(map.get(25, 30).unwrap().material, Material::Wood);
    assert_eq!(map.get(40, 22).unwrap().material, Material::Stone);
    assert_eq!(map.get(40, 22).unwrap().kind, TileKind::Floor);
    assert_eq!(map.get(30, 30).unwrap().material, Material::Empty);
}

#[test]
fn well_formedness_check() {
    let mut map = TileMap::new();
    assert!(map.is_well_formed());
    map.tiles.push(Tile::default());
    assert!(!map.is_well_formed());
    let huge = TileMap { width: 70000, height: 70000, tiles: Vec::new() };
    assert!(!huge.is_well_formed());
}
