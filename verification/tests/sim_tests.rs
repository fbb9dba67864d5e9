use fortress_sim::jobs::{EntityId, Item, ItemId, ItemKind, JobKind, JobPriority};
use fortress_sim::sim::{NeedEffects, NeedSignals, SimState};
use fortress_sim::world::{DesignationKind, Material, Tile, TileKind, TileMap};
use fortress_sim::worldgen::WorldGen;

fn quiet(n: usize) -> Vec<NeedSignals> {
    vec![NeedSignals { hungry: false, thirsty: false, sleepy: false, rested_after_nap: false }; n]
}

fn no_effects() -> NeedEffects {
    NeedEffects { ate: false, drank: false, napped: false }
}

#[test]
fn test_determinism() {
    let seed = 42u64;

    let mut map1 = WorldGen::generate(seed);
    let mut state1 = SimState::new();
    for _ in 0..100 {
        state1.step(&mut map1, &quiet(3));
    }

    let mut map2 = WorldGen::generate(seed);
    let mut state2 = SimState::new();
    for _ in 0..100 {
        state2.step(&mut map2, &quiet(3));
    }

    for (d1, d2) in state1.dwarves.iter().zip(state2.dwarves.iter()) {
        assert_eq!(d1.pos, d2.pos);
    }
}

#[test]
fn new_colony() {
    let s = SimState::new();
    let names: Vec<&str> = s.dwarves.iter().map(|d| d.name.as_str()).collect();
    assert_eq!(names, vec!["Urist", "Bomrek", "Fikod"]);
    for (i, d) in s.dwarves.iter().enumerate() {
        assert_eq!(d.id, EntityId(i as u32));
        assert_eq!(d.pos, (31 + i as u32, 31));
        assert!(d.job.is_none());
        assert!(d.inventory.is_empty());
    }
    assert!(s.items.is_empty());
    assert!(s.job_queue.jobs.is_empty());
    assert_eq!(s.time.tick, 0);
    assert!(s.paths.is_empty());
}

#[test]
fn idle_colony_only_ticks() {
    let mut map = WorldGen::generate(1);
    let mut s = SimState::new();
    let effects = s.step(&mut map, &quiet(3));
    assert_eq!(effects, vec![no_effects(); 3]);
    assert_eq!(s.time.tick, 1);
    assert_eq!(s.dwarves[0].pos, (31, 31));
}

#[test]
fn a_dwarf_walks_to_a_dig_and_digs() {
    let mut map = WorldGen::generate(5);
    map.set(31, 21, Tile { kind: TileKind::Solid, material: Material::Ore, designated: Some(DesignationKind::Mine) });
    let before = map.tiles.clone();
    let mut s = SimState::new();
    let job = s.job_queue.push(JobKind::Dig { pos: (31, 21) }, JobPriority::Basic);
    // first tick: dwarf 0 claims the dig and steps one cell towards it
    s.step(&mut map, &quiet(3));
    assert_eq!(s.dwarves[0].job, Some(job));
    assert_eq!(s.dwarves[0].pos, (31, 30));
    assert!(s.dwarves[1].job.is_none());
    let mut ticks = 1;
    while s.dwarves[0].job.is_some() && ticks < 50 {
        let before = s.dwarves[0].pos;
        s.step(&mut map, &quiet(3));
        let after = s.dwarves[0].pos;
        let d = (before.0 as i64 - after.0 as i64).abs() + (before.1 as i64 - after.1 as i64).abs();
        assert!(d <= 1);
        ticks += 1;
    }
    assert!(s.dwarves[0].job.is_none());
    assert_eq!(s.dwarves[0].pos, (31, 22));
    let t = map.get(31, 21).unwrap();
    assert_eq!(t.kind, TileKind::Floor);
    assert_eq!(t.material, Material::Ore);
    assert!(t.designated.is_none());
    assert_eq!(s.items.len(), 1);
    assert_eq!(s.items[0].id, ItemId(0));
    assert_eq!(s.items[0].material, Material::Ore);
    assert_eq!(s.items[0].kind, ItemKind::Rock);
    assert_eq!(s.items[0].pos, (31, 21));
    assert_eq!(s.next_item_id, 1);
    assert!(s.job_queue.jobs.is_empty());
    assert!(!s.paths.contains_key(&0));
    let changed: Vec<usize> = (0..before.len()).filter(|k| map.tiles[*k] != before[*k]).collect();
    assert_eq!(changed, vec![21 * 64 + 31]);
    let names: Vec<&str> = s.dwarves.iter().map(|d| d.name.as_str()).collect();
    assert_eq!(names, vec!["Urist", "Bomrek", "Fikod"]);
}

#[test]
fn held_jobs_stay_queued_and_claimed() {
    let mut map = WorldGen::generate(5);
    let mut s = SimState::new();
    s.job_queue.push(JobKind::Dig { pos: (31, 21) }, JobPriority::Basic);
    s.job_queue.push(JobKind::Dig { pos: (40, 21) }, JobPriority::Low);
    for _ in 0..5 {
        s.step(&mut map, &quiet(3));
        for d in &s.dwarves {
            if let Some(j) = d.job {
                let held: Vec<_> = s.job_queue.jobs.iter().filter(|x| x.id == j).collect();
                assert_eq!(held.len(), 1);
                assert_eq!(held[0].claimed_by, Some(d.id));
            }
        }
    }
    assert!(s.dwarves[0].job.is_some() && s.dwarves[1].job.is_some());
    assert_ne!(s.dwarves[0].job, s.dwarves[1].job);
}

#[test]
fn hungry_dwarf_eats_food_next_to_it() {
    let mut map = WorldGen::generate(5);
    let mut s = SimState::new();
    s.items.push(Item { id: ItemId(9), pos: (31, 32), material: Material::Food, kind: ItemKind::Meal });
    let mut sig = quiet(3);
    sig[0].hungry = true;
    let effects = s.step(&mut map, &sig);
    assert_eq!(effects[0], NeedEffects { ate: true, drank: false, napped: false });
    assert_eq!(effects[1], no_effects());
    assert!(s.items.is_empty());
    assert!(s.dwarves[0].job.is_none());
    assert!(s.job_queue.jobs.is_empty());
    assert_eq!(s.job_queue.next_id, 1);
}

#[test]
fn hungry_dwarf_without_food_stays_idle() {
    let mut map = WorldGen::generate(5);
    let mut s = SimState::new();
    s.items.push(Item { id: ItemId(1), pos: (31, 32), material: Material::Food, kind: ItemKind::Drink });
    let mut sig = quiet(3);
    sig[0].hungry = true;
    sig[0].thirsty = true;
    let effects = s.step(&mut map, &sig);
    assert_eq!(effects[0], no_effects());
    assert_eq!(s.items.len(), 1);
    assert!(s.job_queue.jobs.is_empty());
}

#[test]
fn thirsty_dwarf_drinks() {
    let mut map = WorldGen::generate(5);
    let mut s = SimState::new();
    s.items.push(Item { id: ItemId(4), pos: (33, 32), material: Material::Food, kind: ItemKind::Drink });
    let mut sig = quiet(3);
    sig[2].thirsty = true;
    let effects = s.step(&mut map, &sig);
    assert_eq!(effects[2], NeedEffects { ate: false, drank: true, napped: false });
    assert!(s.items.is_empty());
}

#[test]
fn tired_dwarf_naps_until_rested() {
    let mut map = WorldGen::generate(5);
    let mut s = SimState::new();
    let mut sig = quiet(3);
    sig[1].sleepy = true;
    let effects = s.step(&mut map, &sig);
    assert_eq!(effects[1], NeedEffects { ate: false, drank: false, napped: true });
    assert!(s.dwarves[1].job.is_some());
    assert_eq!(s.job_queue.jobs.len(), 1);
    assert_eq!(s.job_queue.jobs[0].claimed_by, Some(EntityId(1)));
    let mut sig2 = quiet(3);
    sig2[1].rested_after_nap = true;
    let effects = s.step(&mut map, &sig2);
    assert_eq!(effects[1], NeedEffects { ate: false, drank: false, napped: true });
    assert!(s.dwarves[1].job.is_none());
    assert!(s.job_queue.jobs.is_empty());
}

#[test]
fn haul_moves_the_item() {
    let mut map = WorldGen::generate(5);
    let mut s = SimState::new();
    s.items.push(Item { id: ItemId(2), pos: (25, 25), material: Material::Wood, kind: ItemKind::Log });
    s.job_queue.push(JobKind::Haul { item: ItemId(2), dest: (31, 30) }, JobPriority::Basic);
    s.step(&mut map, &quiet(3));
    assert_eq!(s.items[0].pos, (31, 30));
    assert!(s.dwarves[0].job.is_none());
    assert!(s.job_queue.jobs.is_empty());
}

#[test]
fn critical_jobs_are_taken_first() {
    let mut map = WorldGen::generate(5);
    let mut s = SimState::new();
    let low = s.job_queue.push(JobKind::Haul { item: ItemId(50), dest: (31, 31) }, JobPriority::Low);
    let crit = s.job_queue.push(JobKind::Haul { item: ItemId(51), dest: (31, 31) }, JobPriority::Critical);
    s.step(&mut map, &quiet(3));
    // dwarf 0 takes the critical haul (and finishes it on the spot), dwarf 1 the low one
    assert!(s.job_queue.jobs.iter().all(|j| j.id != crit));
    assert!(s.job_queue.jobs.iter().all(|j| j.id != low));
}

#[test]
fn vanished_job_leaves_dwarf_idle() {
    let mut map = WorldGen::generate(5);
    let mut s = SimState::new();
    let j = s.job_queue.push(JobKind::Dig { pos: (31, 21) }, JobPriority::Basic);
    s.step(&mut map, &quiet(3));
    assert_eq!(s.dwarves[0].job, Some(j));
    s.job_queue.complete(j);
    s.step(&mut map, &quiet(3));
    assert!(s.dwarves[0].job.is_none());
    assert!(!s.paths.contains_key(&0));
}
