use fortress_sim::path::{coord_ok_exec, searchable_exec};
use fortress_sim::path::{find_path, is_goal, manhattan, route_of, successors};
use fortress_sim::world::{Material, Tile, TileKind, TileMap};

fn floor() -> Tile {
    Tile { kind: TileKind::Floor, material: Material::Empty, designated: None }
}

#[test]
fn test_pathfinding_blocked() {
    let map = TileMap::new();
    let result = find_path(&map, (1, 1), (5, 5));
    assert!(result.is_none());
}

#[test]
fn test_pathfinding_clear() {
    let mut map = TileMap::new();
    for x in 0..10 {
        map.set(x, 5, Tile { kind: TileKind::Floor, material: Material::Empty, designated: None });
    }
    let result = find_path(&map, (0, 5), (9, 5));
    assert!(result.is_some());
    assert!(!result.unwrap().is_empty());
}

#[test]
fn straight_corridor_route_is_every_cell() {
    let mut map = TileMap::new();
    for x in 0..10 {
        map.set(x, 5, floor());
    }
    let p = find_path(&map, (0, 5), (9, 5)).unwrap();
    let expected: Vec<(u32, u32)> = (0..10).map(|x| (x, 5)).collect();
    assert_eq!(p, expected);
}

#[test]
fn same_start_and_goal_is_one_cell() {
    let map = TileMap::new();
    assert_eq!(find_path(&map, (7, 7), (7, 7)), Some(vec![(7, 7)]));
}

#[test]
fn goal_may_be_solid_rock() {
    let mut map = TileMap::new();
    for x in 2..6 {
        map.set(x, 3, floor());
    }
    let p = find_path(&map, (2, 3), (6, 3)).unwrap();
    assert_eq!(p.first(), Some(&(2, 3)));
    assert_eq!(p.last(), Some(&(6, 3)));
    assert_eq!(p.len(), 5);
}

#[test]
fn routes_go_round_corners_one_cell_at_a_time() {
    let mut map = TileMap::new();
    for x in 1..8 {
        map.set(x, 1, floor());
    }
    for y in 1..8 {
        map.set(7, y, floor());
    }
    let p = find_path(&map, (1, 1), (7, 7)).unwrap();
    assert_eq!(p[0], (1, 1));
    assert_eq!(*p.last().unwrap(), (7, 7));
    for w in p.windows(2) {
        let d = (w[0].0 as i64 - w[1].0 as i64).abs() + (w[0].1 as i64 - w[1].1 as i64).abs();
        assert_eq!(d, 1);
        assert!(map.is_walkable(w[1].0, w[1].1) || w[1] == (7, 7));
    }
    assert_eq!(p.len(), 13);
}

#[test]
fn successors_offer_walkable_neighbours_and_the_goal() {
    let mut map = TileMap::new();
    map.set(5, 6, floor());
    map.set(6, 5, floor());
    let s = successors(&map, (5, 5), (4, 5));
    assert_eq!(s, vec![((5, 6), 1), ((6, 5), 1), ((4, 5), 1)]);
    let edge = successors(&map, (0, 0), (9, 9));
    assert!(edge.is_empty());
}

#[test]
fn manhattan_and_goal_test() {
    assert_eq!(manhattan((3, 10), (7, 4)), 10);
    assert_eq!(manhattan((7, 4), (3, 10)), 10);
    assert!(is_goal((2, 2), (2, 2)));
    assert!(!is_goal((2, 2), (2, 3)));
}

#[test]
fn route_of_drops_the_cost() {
    assert_eq!(route_of(Some((vec![(1, 1), (1, 2)], 1))), Some(vec![(1, 1), (1, 2)]));
    assert_eq!(route_of(None), None);
}

#[test]
fn range_checks() {
    assert!(coord_ok_exec((0, (1 << 30) - 1)));
    assert!(!coord_ok_exec((1 << 30, 0)));
    let mut map = TileMap::new();
    assert!(searchable_exec(&map));
    map.tiles.pop();
    assert!(!searchable_exec(&map));
}

#[test]
fn shortest_route_is_found_among_several() {
    let mut map = TileMap::new();
    for y in 1..10 {
        for x in 1..10 {
            map.set(x, y, floor());
        }
    }
    let p = find_path(&map, (1, 1), (9, 9)).unwrap();
    assert_eq!(p.len(), 17);
}

#[test]
fn same_cell_needs_no_search_even_on_odd_maps() {
    let odd = TileMap { width: 100000, height: 100000, tiles: Vec::new() };
    assert_eq!(find_path(&odd, (5, 5), (5, 5)), Some(vec![(5, 5)]));
    assert_eq!(find_path(&odd, (3_000_000_000, 7), (3_000_000_000, 7)), Some(vec![(3_000_000_000, 7)]));
}
