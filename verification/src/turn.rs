//! What one tick does, stated as functions from state to state: the
//! phases of a dwarf's turn and the tick as a whole.

use vstd::prelude::*;
use crate::seqs::find_first;
use crate::world::{MapView, Material, Tile, TileKind};
use crate::jobs::{
    claim_spec, complete_spec, has_id, push_spec, unclaimed_spec, Item, ItemId, ItemKind, Job, JobId, JobKind,
    JobPriority,
};
use crate::path::{coord_ok, find_path_spec, manhattan_spec};
use crate::sim::{item_lacks_id, item_matches, move_item_spec, no_effects, Dwarf, ItemQuery, NeedEffects, NeedSignals, SimModel};

verus! {

/// The positions a job sends a dwarf to.
pub open spec fn job_spots_ok(j: Job) -> bool {
    match j.kind {
        JobKind::Dig { pos } => coord_ok(pos),
        JobKind::Haul { dest, .. } => coord_ok(dest),
        _ => true,
    }
}

/// Every position the state mentions lies below `COORD_LIMIT`.
pub open spec fn positions_ok(s: SimModel) -> bool {
    &&& forall|k: int| 0 <= k < s.dwarves.len() ==> coord_ok((#[trigger] s.dwarves[k]).pos)
    &&& forall|k: int| 0 <= k < s.items.len() ==> coord_ok((#[trigger] s.items[k]).pos)
    &&& forall|k: int| 0 <= k < s.jobs.len() ==> job_spots_ok(#[trigger] s.jobs[k])
    &&& forall|key: u32, k: int|
        s.paths.contains_key(key) && 0 <= k < s.paths[key].len() ==> coord_ok(#[trigger] s.paths[key][k])
}

/// Dwarf `i` files a critical job of this kind and takes it on at once.
pub open spec fn take_critical_job(s: SimModel, i: int, kind: JobKind) -> SimModel {
    let jid = JobId(s.next_job_id);
    let jobs = push_spec(s.jobs, s.next_job_id, kind, JobPriority::Critical);
    SimModel {
        jobs: claim_spec(jobs, jid, s.dwarves[i].id).0,
        next_job_id: (s.next_job_id + 1) as u32,
        dwarves: s.dwarves.update(i, Dwarf { job: Some(jid), ..s.dwarves[i] }),
        ..s
    }
}

/// An idle dwarf with a pressing need files a job for it: eating the first
/// edible item when hungry, else drinking the first drink when thirsty,
/// else sleeping when tired. Without a matching item nothing happens.
pub open spec fn needs_phase(s: SimModel, i: int, sig: NeedSignals) -> SimModel {
    if s.dwarves[i].job is None {
        if sig.hungry {
            match find_first(s.items, item_matches(ItemQuery::Edible)) {
                Some(food) => take_critical_job(s, i, JobKind::Eat(food.id)),
                None => s,
            }
        } else if sig.thirsty {
            match find_first(s.items, item_matches(ItemQuery::Drinkable)) {
                Some(drink) => take_critical_job(s, i, JobKind::Drink(drink.id)),
                None => s,
            }
        } else if sig.sleepy {
            take_critical_job(s, i, JobKind::Sleep)
        } else {
            s
        }
    } else {
        s
    }
}

/// A dwarf still idle tries to claim the most urgent open job; on success it
/// forgets any old route.
pub open spec fn claim_phase(s: SimModel, i: int) -> SimModel {
    let d = s.dwarves[i];
    let open = unclaimed_spec(s.jobs);
    if d.job is None && open.len() > 0 {
        let jid = open[0].id;
        let claimed = claim_spec(s.jobs, jid, d.id);
        if claimed.1 {
            SimModel {
                jobs: claimed.0,
                dwarves: s.dwarves.update(i, Dwarf { job: Some(jid), ..d }),
                paths: s.paths.remove(d.id.0),
                ..s
            }
        } else {
            SimModel { jobs: claimed.0, ..s }
        }
    } else {
        s
    }
}

/// Where dwarf `i` has to be to carry out a job of this kind; `None` when
/// the item it concerns is gone.
pub open spec fn job_dest(s: SimModel, i: int, kind: JobKind) -> Option<(u32, u32)> {
    match kind {
        JobKind::Dig { pos } => Some(pos),
        JobKind::Haul { dest, .. } => Some(dest),
        JobKind::Eat(it) => match find_first(s.items, item_matches(ItemQuery::WithId(it))) {
            Some(x) => Some(x.pos),
            None => None,
        },
        JobKind::Drink(it) => match find_first(s.items, item_matches(ItemQuery::WithId(it))) {
            Some(x) => Some(x.pos),
            None => None,
        },
        JobKind::Sleep => Some(s.dwarves[i].pos),
    }
}

/// Close enough to work: on the spot or orthogonally next to it.
pub open spec fn near(a: (u32, u32), b: (u32, u32)) -> bool {
    a == b || manhattan_spec(a, b) <= 1
}

/// The routes after dwarf `i` has planned one towards `dest`: it plans only
/// when it has none (or an empty one), and keeps its old routes when the
/// search finds nothing.
pub open spec fn planned_paths(s: SimModel, map: MapView, i: int, dest: (u32, u32)) -> Map<u32, Seq<(u32, u32)>> {
    let d = s.dwarves[i];
    let key = d.id.0;
    if !s.paths.contains_key(key) || s.paths[key].len() == 0 {
        match find_path_spec(map, d.pos, dest) {
            Some(p) => s.paths.insert(key, p),
            None => s.paths,
        }
    } else {
        s.paths
    }
}

/// Dwarf `i` follows its route in `paths`: it skips the route's first cell
/// when it already stands there, then steps onto the next cell and crosses
/// it off.
pub open spec fn follow_route(s: SimModel, i: int, paths: Map<u32, Seq<(u32, u32)>>) -> SimModel {
    let d = s.dwarves[i];
    let key = d.id.0;
    let cur = d.pos;
    if paths.contains_key(key) {
        let p = paths[key];
        let p2 = if p.len() > 0 && p[0] == cur {
            p.drop_first()
        } else {
            p
        };
        if p2.len() > 0 {
            SimModel {
                dwarves: s.dwarves.update(i, Dwarf { pos: p2[0], ..d }),
                paths: paths.insert(key, p2.drop_first()),
                ..s
            }
        } else {
            SimModel { paths: paths.insert(key, p2), ..s }
        }
    } else {
        SimModel { paths, ..s }
    }
}

/// Dwarf `i` walks one cell towards `dest`.
pub open spec fn walk(s: SimModel, map: MapView, i: int, dest: (u32, u32)) -> SimModel {
    follow_route(s, i, planned_paths(s, map, i, dest))
}

/// A tile after digging: floor without a mark, of the same material.
pub open spec fn dug(t: Tile) -> Tile {
    Tile { kind: TileKind::Floor, designated: None, ..t }
}

/// Dwarf `i`, at its work place, carries out job `jid`:
/// digging turns the tile into floor and leaves a rock of its material;
/// sleeping takes a nap and ends the job once rested; eating and drinking
/// consume the item; hauling moves the item to its destination. Every job
/// but an unfinished nap is then removed and the dwarf is idle again; all
/// but sleeping also drop the dwarf's route.
pub open spec fn finish_job(
    s: SimModel,
    map: MapView,
    i: int,
    jid: JobId,
    kind: JobKind,
    sig: NeedSignals,
) -> (SimModel, MapView, NeedEffects) {
    let d = s.dwarves[i];
    let key = d.id.0;
    let done = SimModel {
        jobs: complete_spec(s.jobs, jid),
        dwarves: s.dwarves.update(i, Dwarf { job: None, ..d }),
        ..s
    };
    match kind {
        JobKind::Dig { pos } => {
            let mat = match map.tile(pos.0, pos.1) {
                Some(t) => t.material,
                None => Material::Empty,
            };
            let map2 = match map.tile(pos.0, pos.1) {
                Some(t) => map.with_tile(pos.0, pos.1, dug(t)),
                None => map,
            };
            (
                SimModel {
                    items: s.items.push(
                        Item { id: ItemId(s.next_item_id), pos, material: mat, kind: ItemKind::Rock },
                    ),
                    next_item_id: (s.next_item_id + 1) as u32,
                    paths: s.paths.remove(key),
                    ..done
                },
                map2,
                no_effects(),
            )
        },
        JobKind::Sleep => (
            if sig.rested_after_nap {
                done
            } else {
                s
            },
            map,
            NeedEffects { ate: false, drank: false, napped: true },
        ),
        JobKind::Eat(it) => (
            SimModel { items: s.items.filter(item_lacks_id(it)), paths: s.paths.remove(key), ..done },
            map,
            NeedEffects { ate: true, drank: false, napped: false },
        ),
        JobKind::Drink(it) => (
            SimModel { items: s.items.filter(item_lacks_id(it)), paths: s.paths.remove(key), ..done },
            map,
            NeedEffects { ate: false, drank: true, napped: false },
        ),
        JobKind::Haul { item, dest } => (
            SimModel { items: move_item_spec(s.items, item, dest), paths: s.paths.remove(key), ..done },
            map,
            no_effects(),
        ),
    }
}

/// A dwarf with a job goes to work on it: it walks towards the job's place
/// or, once there, carries it out. A job that has vanished from the queue
/// leaves the dwarf idle and without a route.
pub open spec fn advance_phase(s: SimModel, map: MapView, i: int, sig: NeedSignals) -> (
    SimModel,
    MapView,
    NeedEffects,
) {
    let d = s.dwarves[i];
    match d.job {
        None => (s, map, no_effects()),
        Some(jid) => match find_first(s.jobs, has_id(jid)) {
            None => (
                SimModel {
                    dwarves: s.dwarves.update(i, Dwarf { job: None, ..d }),
                    paths: s.paths.remove(d.id.0),
                    ..s
                },
                map,
                no_effects(),
            ),
            Some(job) => match job_dest(s, i, job.kind) {
                None => (s, map, no_effects()),
                Some(dest) => if near(d.pos, dest) {
                    finish_job(s, map, i, jid, job.kind, sig)
                } else {
                    (walk(s, map, i, dest), map, no_effects())
                },
            },
        },
    }
}

/// Dwarf `i`'s turn within a tick.
pub open spec fn dwarf_turn(s: SimModel, map: MapView, i: int, sig: NeedSignals) -> (SimModel, MapView, NeedEffects) {
    advance_phase(claim_phase(needs_phase(s, i, sig), i), map, i, sig)
}

/// The first `n` dwarves take their turns, in order.
pub open spec fn turns(s: SimModel, map: MapView, sigs: Seq<NeedSignals>, n: nat) -> (
    SimModel,
    MapView,
    Seq<NeedEffects>,
)
    decreases n,
{
    if n == 0 {
        (s, map, Seq::empty())
    } else {
        let prev = turns(s, map, sigs, (n - 1) as nat);
        let next = dwarf_turn(prev.0, prev.1, n - 1, sigs[n - 1]);
        (next.0, next.1, prev.2.push(next.2))
    }
}

/// One tick: the clock advances, then every dwarf takes its turn.
pub open spec fn step_spec(s: SimModel, map: MapView, sigs: Seq<NeedSignals>) -> (SimModel, MapView, Seq<NeedEffects>) {
    turns(SimModel { tick: (s.tick + 1) as u64, ..s }, map, sigs, s.dwarves.len())
}

} // verus!
