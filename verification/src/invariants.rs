//! What every tick keeps: positions in range, routes a dwarf can follow one
//! cell at a time, and consistent job claims.

use vstd::prelude::*;
use crate::seqs::{find_first, find_index, lemma_find_index};
use crate::world::{MapView, Tile, TileKind};
use crate::jobs::{ids_fresh_and_unique, open_at, priority_rank, item_ids_fresh, lemma_filter_fresh_items, lemma_push_fresh_item, ItemKind, claim_spec, complete_spec, has_id, push_spec, unclaimed_spec, EntityId, Item, ItemId, Job, JobId, JobKind, JobPriority};
use crate::path::{coord_ok, is_route, manhattan_spec, searchable};
use crate::sim::{item_lacks_id, item_matches, move_item_spec, no_effects, Dwarf, ItemQuery, NeedEffects, NeedSignals, SimModel};
use crate::turn::{
    dug, advance_phase, claim_phase, dwarf_turn, finish_job, follow_route, job_dest, job_spots_ok, near, needs_phase,
    planned_paths, positions_ok, take_critical_job,
};

verus! {

broadcast use vstd::seq_lib::group_seq_properties;

/// A filter keeps any property that every element had.
pub proof fn lemma_filter_all<A>(s: Seq<A>, p: spec_fn(A) -> bool, q: spec_fn(A) -> bool)
    requires
        forall|k: int| 0 <= k < s.len() ==> q(#[trigger] s[k]),
    ensures
        forall|k: int| 0 <= k < s.filter(p).len() ==> q(#[trigger] s.filter(p)[k]),
{
    assert forall|k: int| 0 <= k < s.filter(p).len() implies q(#[trigger] s.filter(p)[k]) by {
        s.lemma_filter_contains_rev(p, s.filter(p)[k]);
        assert(s.filter(p).contains(s.filter(p)[k]));
    }
}

proof fn lemma_claim_keeps_spots(jobs: Seq<Job>, id: JobId, e: EntityId)
    requires
        forall|k: int| 0 <= k < jobs.len() ==> job_spots_ok(#[trigger] jobs[k]),
    ensures
        claim_spec(jobs, id, e).0.len() == jobs.len(),
        forall|k: int| 0 <= k < jobs.len() ==> job_spots_ok(#[trigger] claim_spec(jobs, id, e).0[k]),
{
    lemma_find_index(jobs, crate::jobs::claimable(id));
}

proof fn lemma_take_job_ok(s: SimModel, i: int, kind: JobKind)
    requires
        positions_ok(s),
        0 <= i < s.dwarves.len(),
        job_spots_ok(Job { id: JobId(s.next_job_id), kind, priority: JobPriority::Critical, claimed_by: None }),
    ensures
        positions_ok(take_critical_job(s, i, kind)),
        take_critical_job(s, i, kind).dwarves.len() == s.dwarves.len(),
{
    let jobs = push_spec(s.jobs, s.next_job_id, kind, JobPriority::Critical);
    assert forall|k: int| 0 <= k < jobs.len() implies job_spots_ok(#[trigger] jobs[k]) by {
        if k < s.jobs.len() {
            assert(jobs[k] == s.jobs[k]);
        }
    }
    lemma_claim_keeps_spots(jobs, JobId(s.next_job_id), s.dwarves[i].id);
    let t = take_critical_job(s, i, kind);
    assert forall|k: int| 0 <= k < t.dwarves.len() implies coord_ok((#[trigger] t.dwarves[k]).pos) by {
        if k != i {
            assert(t.dwarves[k] == s.dwarves[k]);
        }
    }
}

/// The needs phase keeps positions in range, the dwarf count, and files at
/// most one job.
pub proof fn lemma_needs_phase_ok(s: SimModel, i: int, sig: NeedSignals)
    requires
        positions_ok(s),
        0 <= i < s.dwarves.len(),
        s.next_job_id < u32::MAX,
    ensures
        positions_ok(needs_phase(s, i, sig)),
        needs_phase(s, i, sig).dwarves.len() == s.dwarves.len(),
        needs_phase(s, i, sig).next_job_id == s.next_job_id || needs_phase(s, i, sig).next_job_id == s.next_job_id + 1,
        needs_phase(s, i, sig).next_item_id == s.next_item_id,
        needs_phase(s, i, sig).tick == s.tick,
{
    if s.dwarves[i].job is None {
        if sig.hungry {
            match find_first(s.items, item_matches(ItemQuery::Edible)) {
                Some(food) => lemma_take_job_ok(s, i, JobKind::Eat(food.id)),
                None => {},
            }
        } else if sig.thirsty {
            match find_first(s.items, item_matches(ItemQuery::Drinkable)) {
                Some(drink) => lemma_take_job_ok(s, i, JobKind::Drink(drink.id)),
                None => {},
            }
        } else if sig.sleepy {
            lemma_take_job_ok(s, i, JobKind::Sleep);
        }
    }
}

/// The claim phase keeps positions in range and the counters.
pub proof fn lemma_claim_phase_ok(s: SimModel, i: int)
    requires
        positions_ok(s),
        0 <= i < s.dwarves.len(),
    ensures
        positions_ok(claim_phase(s, i)),
        claim_phase(s, i).dwarves.len() == s.dwarves.len(),
        claim_phase(s, i).next_job_id == s.next_job_id,
        claim_phase(s, i).next_item_id == s.next_item_id,
        claim_phase(s, i).tick == s.tick,
{
    let d = s.dwarves[i];
    let open = unclaimed_spec(s.jobs);
    if d.job is None && open.len() > 0 {
        lemma_claim_keeps_spots(s.jobs, open[0].id, d.id);
        let t = claim_phase(s, i);
        assert forall|k: int| 0 <= k < t.dwarves.len() implies coord_ok((#[trigger] t.dwarves[k]).pos) by {
            if k != i {
                assert(t.dwarves[k] == s.dwarves[k]);
            }
        }
        assert forall|key: u32, k: int| t.paths.contains_key(key) && 0 <= k < t.paths[key].len() implies coord_ok(
            #[trigger] t.paths[key][k],
        ) by {
            assert(s.paths.contains_key(key));
        }
    }
}

/// Consecutive cells of a route are orthogonal neighbours.
pub open spec fn chain(p: Seq<(u32, u32)>) -> bool {
    forall|k: int| 0 <= k < p.len() - 1 ==> manhattan_spec(#[trigger] p[k], p[k + 1]) == 1
}

/// A route a dwarf standing at `pos` can follow one cell at a time.
pub open spec fn route_fits(p: Seq<(u32, u32)>, pos: (u32, u32)) -> bool {
    &&& chain(p)
    &&& p.len() > 0 ==> manhattan_spec(p[0], pos) <= 1
}

/// No two dwarves share an id.
pub open spec fn ids_unique(ds: Seq<Dwarf>) -> bool {
    forall|a: int, b: int| 0 <= a < b < ds.len() ==> (#[trigger] ds[a]).id != (#[trigger] ds[b]).id
}

/// Every dwarf's stored route fits where the dwarf stands.
pub open spec fn entries_fit(ds: Seq<Dwarf>, paths: Map<u32, Seq<(u32, u32)>>) -> bool {
    forall|k: int|
        0 <= k < ds.len() && paths.contains_key((#[trigger] ds[k]).id.0) ==> route_fits(paths[ds[k].id.0], ds[k].pos)
}

/// Dwarves have distinct ids and every stored route fits its dwarf.
pub open spec fn routes_ok(s: SimModel) -> bool {
    ids_unique(s.dwarves) && entries_fit(s.dwarves, s.paths)
}

/// `t` has the same dwarves as `s` (ids, names, belongings), standing where
/// they stood, and only routes that `s` had.
pub open spec fn calm(s: SimModel, t: SimModel) -> bool {
    &&& t.dwarves.len() == s.dwarves.len()
    &&& forall|k: int|
        0 <= k < s.dwarves.len() ==> (#[trigger] t.dwarves[k]).id == s.dwarves[k].id && t.dwarves[k].pos
            == s.dwarves[k].pos && t.dwarves[k].name == s.dwarves[k].name && t.dwarves[k].inventory
            == s.dwarves[k].inventory
    &&& forall|key: u32| #[trigger] t.paths.contains_key(key) ==> s.paths.contains_key(key) && t.paths[key] == s.paths[key]
}

/// Dwarves keep their ids, names and belongings; all but dwarf `i` stand still.
pub open spec fn only_walker(s: SimModel, t: SimModel, i: int) -> bool {
    &&& t.dwarves.len() == s.dwarves.len()
    &&& forall|k: int|
        0 <= k < s.dwarves.len() ==> (#[trigger] t.dwarves[k]).id == s.dwarves[k].id && t.dwarves[k].name
            == s.dwarves[k].name && t.dwarves[k].inventory == s.dwarves[k].inventory
    &&& forall|k: int| 0 <= k < s.dwarves.len() && k != i ==> (#[trigger] t.dwarves[k]).pos == s.dwarves[k].pos
}

pub proof fn lemma_calm_keeps_routes(s: SimModel, t: SimModel)
    requires
        routes_ok(s),
        calm(s, t),
    ensures
        routes_ok(t),
{
    assert forall|a: int, b: int| 0 <= a < b < t.dwarves.len() implies (#[trigger] t.dwarves[a]).id
        != (#[trigger] t.dwarves[b]).id by {
        assert(s.dwarves[a].id != s.dwarves[b].id);
    }
    assert forall|k: int|
        0 <= k < t.dwarves.len() && t.paths.contains_key((#[trigger] t.dwarves[k]).id.0) implies route_fits(
        t.paths[t.dwarves[k].id.0],
        t.dwarves[k].pos,
    ) by {
        assert(s.dwarves[k].id == t.dwarves[k].id);
    }
}

proof fn lemma_take_job_calm(s: SimModel, i: int, kind: JobKind)
    requires
        0 <= i < s.dwarves.len(),
    ensures
        calm(s, take_critical_job(s, i, kind)),
{
    let t = take_critical_job(s, i, kind);
    assert forall|k: int| 0 <= k < s.dwarves.len() implies (#[trigger] t.dwarves[k]).id == s.dwarves[k].id
        && t.dwarves[k].pos == s.dwarves[k].pos by {
        if k != i {
            assert(t.dwarves[k] == s.dwarves[k]);
        }
    }
}

/// The needs phase moves nobody and plans no route.
pub proof fn lemma_needs_phase_calm(s: SimModel, i: int, sig: NeedSignals)
    requires
        0 <= i < s.dwarves.len(),
    ensures
        calm(s, needs_phase(s, i, sig)),
{
    if s.dwarves[i].job is None {
        if sig.hungry {
            match find_first(s.items, item_matches(ItemQuery::Edible)) {
                Some(food) => lemma_take_job_calm(s, i, JobKind::Eat(food.id)),
                None => {},
            }
        } else if sig.thirsty {
            match find_first(s.items, item_matches(ItemQuery::Drinkable)) {
                Some(drink) => lemma_take_job_calm(s, i, JobKind::Drink(drink.id)),
                None => {},
            }
        } else if sig.sleepy {
            lemma_take_job_calm(s, i, JobKind::Sleep);
        }
    }
}

/// The claim phase moves nobody and plans no route.
pub proof fn lemma_claim_phase_calm(s: SimModel, i: int)
    requires
        0 <= i < s.dwarves.len(),
    ensures
        calm(s, claim_phase(s, i)),
{
    let t = claim_phase(s, i);
    assert forall|k: int| 0 <= k < s.dwarves.len() implies (#[trigger] t.dwarves[k]).id == s.dwarves[k].id
        && t.dwarves[k].pos == s.dwarves[k].pos by {
        if k != i {
            assert(t.dwarves[k] == s.dwarves[k]);
        }
    }
}

/// Carrying out a job moves nobody and plans no route.
pub proof fn lemma_finish_calm(s: SimModel, map: MapView, i: int, jid: JobId, kind: JobKind, sig: NeedSignals)
    requires
        0 <= i < s.dwarves.len(),
    ensures
        calm(s, finish_job(s, map, i, jid, kind, sig).0),
{
    let t = finish_job(s, map, i, jid, kind, sig).0;
    assert forall|k: int| 0 <= k < s.dwarves.len() implies (#[trigger] t.dwarves[k]).id == s.dwarves[k].id
        && t.dwarves[k].pos == s.dwarves[k].pos by {
        if k != i {
            assert(t.dwarves[k] == s.dwarves[k]);
        }
    }
}

/// Following a fitting route moves the walker at most one cell, keeps every
/// other dwarf in place, and leaves every route fitting.
pub proof fn lemma_follow_route(s: SimModel, i: int, paths: Map<u32, Seq<(u32, u32)>>)
    requires
        0 <= i < s.dwarves.len(),
        ids_unique(s.dwarves),
        entries_fit(s.dwarves, paths),
    ensures
        only_walker(s, follow_route(s, i, paths), i),
        routes_ok(follow_route(s, i, paths)),
        manhattan_spec(s.dwarves[i].pos, follow_route(s, i, paths).dwarves[i].pos) <= 1,
{
    let d = s.dwarves[i];
    let key = d.id.0;
    let cur = d.pos;
    let t = follow_route(s, i, paths);
    assert forall|k: int| 0 <= k < s.dwarves.len() implies (#[trigger] t.dwarves[k]).id == s.dwarves[k].id by {
        if k != i {
            assert(t.dwarves[k] == s.dwarves[k]);
        }
    }
    assert forall|k: int| 0 <= k < s.dwarves.len() && k != i implies (#[trigger] t.dwarves[k]).pos
        == s.dwarves[k].pos by {
        assert(t.dwarves[k] == s.dwarves[k]);
    }
    if paths.contains_key(key) {
        let p = paths[key];
        assert(route_fits(p, cur)) by {
            assert(s.dwarves[i].id.0 == key);
        }
        let p2 = if p.len() > 0 && p[0] == cur {
            p.drop_first()
        } else {
            p
        };
        assert(chain(p2)) by {
            assert forall|k: int| 0 <= k < p2.len() - 1 implies manhattan_spec(#[trigger] p2[k], p2[k + 1]) == 1 by {
                if p.len() > 0 && p[0] == cur {
                    assert(p2[k] == p[k + 1] && p2[k + 1] == p[k + 2]);
                }
            }
        }
        assert(p2.len() > 0 ==> manhattan_spec(p2[0], cur) <= 1) by {
            if p2.len() > 0 && p.len() > 0 && p[0] == cur {
                assert(p2[0] == p[1]);
            }
        }
        let p3 = p2.drop_first();
        if p2.len() > 0 {
            assert(route_fits(p3, p2[0])) by {
                assert forall|k: int| 0 <= k < p3.len() - 1 implies manhattan_spec(#[trigger] p3[k], p3[k + 1]) == 1 by {
                    assert(p3[k] == p2[k + 1] && p3[k + 1] == p2[k + 2]);
                }
                if p3.len() > 0 {
                    assert(p3[0] == p2[1]);
                }
            }
        } else {
            assert(route_fits(p2, cur));
        }
    }
    assert forall|a: int, b: int| 0 <= a < b < t.dwarves.len() implies (#[trigger] t.dwarves[a]).id
        != (#[trigger] t.dwarves[b]).id by {
        assert(s.dwarves[a].id != s.dwarves[b].id);
    }
    assert forall|k: int|
        0 <= k < t.dwarves.len() && t.paths.contains_key((#[trigger] t.dwarves[k]).id.0) implies route_fits(
        t.paths[t.dwarves[k].id.0],
        t.dwarves[k].pos,
    ) by {
        if k != i {
            assert(t.dwarves[k] == s.dwarves[k]);
            assert(s.dwarves[k].id != s.dwarves[i].id) by {
                if k < i {
                    assert(s.dwarves[k].id != s.dwarves[i].id);
                } else {
                    assert(s.dwarves[i].id != s.dwarves[k].id);
                }
            }
            assert(paths.contains_key(s.dwarves[k].id.0));
        }
    }
}

/// A job with this id is in the queue.
pub open spec fn queued(jobs: Seq<Job>, id: JobId) -> bool {
    exists|j: int| 0 <= j < jobs.len() && (#[trigger] jobs[j]).id == id
}

/// The job bookkeeping is consistent: job ids are fresh and unique, dwarf
/// ids are unique, every job a dwarf holds has an id already handed out and
/// is still in the queue, and a queued job that a dwarf holds is claimed by
/// that very dwarf.
pub open spec fn claims_ok(s: SimModel) -> bool {
    &&& crate::jobs::ids_fresh_and_unique(s.jobs, s.next_job_id)
    &&& ids_unique(s.dwarves)
    &&& forall|k: int|
        0 <= k < s.dwarves.len() && (#[trigger] s.dwarves[k]).job is Some ==> s.dwarves[k].job.unwrap().0
            < s.next_job_id
    &&& forall|k: int|
        0 <= k < s.dwarves.len() && (#[trigger] s.dwarves[k]).job is Some ==> queued(
            s.jobs,
            s.dwarves[k].job.unwrap(),
        )
    &&& forall|k: int, j: int|
        0 <= k < s.dwarves.len() && 0 <= j < s.jobs.len() && (#[trigger] s.dwarves[k]).job == Some(
            (#[trigger] s.jobs[j]).id,
        ) ==> s.jobs[j].claimed_by == Some(s.dwarves[k].id)
}

proof fn lemma_take_job_claims(s: SimModel, i: int, kind: JobKind)
    requires
        claims_ok(s),
        0 <= i < s.dwarves.len(),
        s.dwarves[i].job is None,
        s.next_job_id < u32::MAX,
    ensures
        claims_ok(take_critical_job(s, i, kind)),
{
    let d = s.dwarves[i];
    crate::jobs::law_pushed_job_is_claimable(s.jobs, s.next_job_id, kind, JobPriority::Critical, d.id);
    let t = take_critical_job(s, i, kind);
    assert(t.jobs == s.jobs.push(
        Job { id: JobId(s.next_job_id), kind, priority: JobPriority::Critical, claimed_by: Some(d.id) },
    ));
    assert forall|a: int, b: int| 0 <= a < b < t.dwarves.len() implies (#[trigger] t.dwarves[a]).id
        != (#[trigger] t.dwarves[b]).id by {
        assert(t.dwarves[a].id == s.dwarves[a].id);
        assert(t.dwarves[b].id == s.dwarves[b].id);
    }
    assert forall|k: int| 0 <= k < t.dwarves.len() && (#[trigger] t.dwarves[k]).job is Some implies t.dwarves[k].job.unwrap().0
        < t.next_job_id by {
        if k != i {
            assert(t.dwarves[k] == s.dwarves[k]);
        }
    }
    assert forall|k: int| 0 <= k < t.dwarves.len() && (#[trigger] t.dwarves[k]).job is Some implies queued(
        t.jobs,
        t.dwarves[k].job.unwrap(),
    ) by {
        if k != i {
            assert(t.dwarves[k] == s.dwarves[k]);
            let j0 = choose|j: int| 0 <= j < s.jobs.len() && (#[trigger] s.jobs[j]).id == s.dwarves[k].job.unwrap();
            assert(t.jobs[j0] == s.jobs[j0]);
        } else {
            assert(t.jobs[s.jobs.len() as int].id == JobId(s.next_job_id));
        }
    }
    assert forall|k: int, j: int|
        0 <= k < t.dwarves.len() && 0 <= j < t.jobs.len() && (#[trigger] t.dwarves[k]).job == Some(
            (#[trigger] t.jobs[j]).id,
        ) implies t.jobs[j].claimed_by == Some(t.dwarves[k].id) by {
        if j < s.jobs.len() {
            assert(t.jobs[j] == s.jobs[j]);
            if k != i {
                assert(t.dwarves[k] == s.dwarves[k]);
            } else {
                assert(s.jobs[j].id.0 < s.next_job_id);
            }
        } else {
            if k != i {
                assert(t.dwarves[k] == s.dwarves[k]);
                assert(s.dwarves[k].job.unwrap().0 < s.next_job_id);
            }
        }
    }
}

/// The needs phase keeps the job bookkeeping consistent.
pub proof fn lemma_needs_phase_claims(s: SimModel, i: int, sig: NeedSignals)
    requires
        claims_ok(s),
        0 <= i < s.dwarves.len(),
        s.next_job_id < u32::MAX,
    ensures
        claims_ok(needs_phase(s, i, sig)),
{
    if s.dwarves[i].job is None {
        if sig.hungry {
            match find_first(s.items, item_matches(ItemQuery::Edible)) {
                Some(food) => lemma_take_job_claims(s, i, JobKind::Eat(food.id)),
                None => {},
            }
        } else if sig.thirsty {
            match find_first(s.items, item_matches(ItemQuery::Drinkable)) {
                Some(drink) => lemma_take_job_claims(s, i, JobKind::Drink(drink.id)),
                None => {},
            }
        } else if sig.sleepy {
            lemma_take_job_claims(s, i, JobKind::Sleep);
        }
    }
}

/// The claim phase keeps the job bookkeeping consistent.
pub proof fn lemma_claim_phase_claims(s: SimModel, i: int)
    requires
        claims_ok(s),
        0 <= i < s.dwarves.len(),
    ensures
        claims_ok(claim_phase(s, i)),
{
    let d = s.dwarves[i];
    let open = unclaimed_spec(s.jobs);
    if d.job is None && open.len() > 0 {
        let jid = open[0].id;
        lemma_find_index(s.jobs, crate::jobs::claimable(jid));
        let t = claim_phase(s, i);
        if claim_spec(s.jobs, jid, d.id).1 {
            let k0 = find_index(s.jobs, crate::jobs::claimable(jid)).unwrap();
            assert forall|a: int, b: int| 0 <= a < b < t.dwarves.len() implies (#[trigger] t.dwarves[a]).id
                != (#[trigger] t.dwarves[b]).id by {
                assert(t.dwarves[a].id == s.dwarves[a].id);
                assert(t.dwarves[b].id == s.dwarves[b].id);
            }
            assert forall|k: int| 0 <= k < t.dwarves.len() && (#[trigger] t.dwarves[k]).job is Some implies t.dwarves[k].job.unwrap().0
                < t.next_job_id by {
                if k != i {
                    assert(t.dwarves[k] == s.dwarves[k]);
                } else {
                    assert(s.jobs[k0].id.0 < s.next_job_id);
                }
            }
            assert forall|k: int| 0 <= k < t.dwarves.len() && (#[trigger] t.dwarves[k]).job is Some implies queued(
                t.jobs,
                t.dwarves[k].job.unwrap(),
            ) by {
                if k != i {
                    assert(t.dwarves[k] == s.dwarves[k]);
                    let j0 = choose|j: int|
                        0 <= j < s.jobs.len() && (#[trigger] s.jobs[j]).id == s.dwarves[k].job.unwrap();
                    assert(t.jobs[j0].id == s.jobs[j0].id);
                } else {
                    assert(t.jobs[k0].id == jid);
                }
            }
            assert forall|k: int, j: int|
                0 <= k < t.dwarves.len() && 0 <= j < t.jobs.len() && (#[trigger] t.dwarves[k]).job == Some(
                    (#[trigger] t.jobs[j]).id,
                ) implies t.jobs[j].claimed_by == Some(t.dwarves[k].id) by {
                if j == k0 {
                    if k != i {
                        assert(t.dwarves[k] == s.dwarves[k]);
                        assert(s.dwarves[k].job == Some(s.jobs[k0].id));
                    }
                } else {
                    assert(t.jobs[j] == s.jobs[j]);
                    if k != i {
                        assert(t.dwarves[k] == s.dwarves[k]);
                    } else {
                        assert(s.jobs[j].id == s.jobs[k0].id);
                        if j < k0 {
                            assert(s.jobs[j].id != s.jobs[k0].id);
                        } else {
                            assert(s.jobs[k0].id != s.jobs[j].id);
                        }
                    }
                }
            }
        }
    }
}

/// Following a route leaves the job bookkeeping alone.
proof fn lemma_follow_route_claims(s: SimModel, i: int, paths: Map<u32, Seq<(u32, u32)>>)
    requires
        claims_ok(s),
        0 <= i < s.dwarves.len(),
    ensures
        claims_ok(follow_route(s, i, paths)),
{
    let t = follow_route(s, i, paths);
    assert forall|k: int| 0 <= k < s.dwarves.len() implies (#[trigger] t.dwarves[k]).id == s.dwarves[k].id
        && t.dwarves[k].job == s.dwarves[k].job by {
        if k != i {
            assert(t.dwarves[k] == s.dwarves[k]);
        }
    }
    assert forall|a: int, b: int| 0 <= a < b < t.dwarves.len() implies (#[trigger] t.dwarves[a]).id
        != (#[trigger] t.dwarves[b]).id by {
        assert(t.dwarves[a].id == s.dwarves[a].id);
        assert(t.dwarves[b].id == s.dwarves[b].id);
    }
    assert forall|k: int| 0 <= k < t.dwarves.len() && (#[trigger] t.dwarves[k]).job is Some implies queued(
        t.jobs,
        t.dwarves[k].job.unwrap(),
    ) by {
        assert(s.dwarves[k].job == t.dwarves[k].job);
    }
    assert forall|k: int, j: int|
        0 <= k < t.dwarves.len() && 0 <= j < t.jobs.len() && (#[trigger] t.dwarves[k]).job == Some(
            (#[trigger] t.jobs[j]).id,
        ) implies t.jobs[j].claimed_by == Some(t.dwarves[k].id) by {
        assert(s.dwarves[k].job == t.dwarves[k].job);
    }
}

/// Dwarf `i` dropping its job, the job's removal from the queue (when
/// `remove` holds), and any change to items, routes and the item counter
/// keep the job bookkeeping consistent.
proof fn lemma_drop_job_claims(s: SimModel, t: SimModel, i: int, jid: JobId, remove: bool)
    requires
        claims_ok(s),
        0 <= i < s.dwarves.len(),
        t.dwarves == s.dwarves.update(i, Dwarf { job: None, ..s.dwarves[i] }),
        t.jobs == (if remove {
            complete_spec(s.jobs, jid)
        } else {
            s.jobs
        }),
        t.next_job_id == s.next_job_id,
        remove ==> s.dwarves[i].job == Some(jid),
    ensures
        claims_ok(t),
{
    if remove {
        crate::jobs::lemma_filter_keeps_fresh_unique(s.jobs, crate::jobs::lacks_id(jid), s.next_job_id);
        s.jobs.filter_lemma(crate::jobs::lacks_id(jid));
    }
    assert forall|a: int, b: int| 0 <= a < b < t.dwarves.len() implies (#[trigger] t.dwarves[a]).id
        != (#[trigger] t.dwarves[b]).id by {
        assert(t.dwarves[a].id == s.dwarves[a].id);
        assert(t.dwarves[b].id == s.dwarves[b].id);
    }
    assert forall|k: int| 0 <= k < t.dwarves.len() && (#[trigger] t.dwarves[k]).job is Some implies t.dwarves[k].job.unwrap().0
        < t.next_job_id by {
        if k != i {
            assert(t.dwarves[k] == s.dwarves[k]);
        }
    }
    assert forall|k: int| 0 <= k < t.dwarves.len() && (#[trigger] t.dwarves[k]).job is Some implies queued(
        t.jobs,
        t.dwarves[k].job.unwrap(),
    ) by {
        assert(k != i);
        assert(t.dwarves[k] == s.dwarves[k]);
        let jk = s.dwarves[k].job.unwrap();
        let j0 = choose|j: int| 0 <= j < s.jobs.len() && (#[trigger] s.jobs[j]).id == jk;
        if remove {
            if jk == jid {
                assert(s.dwarves[i].job == Some(s.jobs[j0].id));
                assert(s.dwarves[k].job == Some(s.jobs[j0].id));
                if k < i {
                    assert(s.dwarves[k].id != s.dwarves[i].id);
                } else {
                    assert(s.dwarves[i].id != s.dwarves[k].id);
                }
            }
            assert(crate::jobs::lacks_id(jid)(s.jobs[j0]));
            assert(t.jobs.contains(s.jobs[j0]));
            let w = choose|w: int| 0 <= w < t.jobs.len() && t.jobs[w] == s.jobs[j0];
            assert(t.jobs[w].id == jk);
        } else {
            assert(t.jobs[j0].id == jk);
        }
    }
    assert forall|k: int, j: int|
        0 <= k < t.dwarves.len() && 0 <= j < t.jobs.len() && (#[trigger] t.dwarves[k]).job == Some(
            (#[trigger] t.jobs[j]).id,
        ) implies t.jobs[j].claimed_by == Some(t.dwarves[k].id) by {
        assert(k != i);
        assert(t.dwarves[k] == s.dwarves[k]);
        if remove {
            s.jobs.lemma_filter_contains_rev(crate::jobs::lacks_id(jid), t.jobs[j]);
            assert(t.jobs.contains(t.jobs[j]));
            let j0 = choose|j0: int| 0 <= j0 < s.jobs.len() && s.jobs[j0] == t.jobs[j];
            assert(s.dwarves[k].job == Some(s.jobs[j0].id));
        } else {
            assert(s.dwarves[k].job == Some(s.jobs[j].id));
        }
    }
}

/// The advance phase keeps the job bookkeeping consistent.
pub proof fn lemma_advance_phase_claims(s: SimModel, map: MapView, i: int, sig: NeedSignals)
    requires
        claims_ok(s),
        0 <= i < s.dwarves.len(),
    ensures
        claims_ok(advance_phase(s, map, i, sig).0),
{
    let d = s.dwarves[i];
    match d.job {
        None => {},
        Some(jid) => match find_first(s.jobs, has_id(jid)) {
            None => {
                let t = advance_phase(s, map, i, sig).0;
                lemma_drop_job_claims(s, t, i, jid, false);
            },
            Some(job) => match job_dest(s, i, job.kind) {
                None => {},
                Some(dest) => if near(d.pos, dest) {
                    let t = finish_job(s, map, i, jid, job.kind, sig).0;
                    match job.kind {
                        JobKind::Sleep => {
                            if sig.rested_after_nap {
                                lemma_drop_job_claims(s, t, i, jid, true);
                            }
                        },
                        _ => {
                            lemma_drop_job_claims(s, t, i, jid, true);
                        },
                    }
                } else {
                    lemma_follow_route_claims(s, i, planned_paths(s, map, i, dest));
                },
            },
        },
    }
}

/// Law: a dwarf's turn keeps the job bookkeeping consistent; in particular
/// no two dwarves ever hold the same queued job.
pub proof fn law_turn_keeps_claims(s: SimModel, map: MapView, i: int, sig: NeedSignals)
    requires
        claims_ok(s),
        0 <= i < s.dwarves.len(),
        s.next_job_id < u32::MAX,
    ensures
        claims_ok(dwarf_turn(s, map, i, sig).0),
{
    lemma_needs_phase_claims(s, i, sig);
    let s1 = needs_phase(s, i, sig);
    lemma_claim_phase_claims(s1, i);
    let s2 = claim_phase(s1, i);
    lemma_advance_phase_claims(s2, map, i, sig);
}

/// Law: under consistent bookkeeping, two different dwarves never hold the
/// same queued job.
pub proof fn law_no_shared_jobs(s: SimModel, a: int, b: int, j: int)
    requires
        claims_ok(s),
        0 <= a < s.dwarves.len(),
        0 <= b < s.dwarves.len(),
        0 <= j < s.jobs.len(),
        s.dwarves[a].job == Some(s.jobs[j].id),
        s.dwarves[b].job == Some(s.jobs[j].id),
    ensures
        a == b,
{
    if a < b {
        assert(s.dwarves[a].id != s.dwarves[b].id);
    } else if b < a {
        assert(s.dwarves[b].id != s.dwarves[a].id);
    }
}

/// Every cell of a route returned by the search lies in range.
pub proof fn lemma_route_in_range(map: MapView, start: (u32, u32), goal: (u32, u32), p: Seq<(u32, u32)>)
    requires
        searchable(map),
        coord_ok(start),
        coord_ok(goal),
        is_route(map, start, goal, p),
    ensures
        forall|k: int| 0 <= k < p.len() ==> coord_ok(#[trigger] p[k]),
{
    assert forall|k: int| 0 <= k < p.len() implies coord_ok(#[trigger] p[k]) by {
        if k > 0 {
            assert(crate::path::is_move(map, goal, p[k - 1], p[(k - 1) + 1]));
            crate::path::lemma_move_is_adjacent(map, goal, p[k - 1], p[k]);
        }
    }
}

/// A route returned by the search fits the cell it starts from.
pub proof fn lemma_route_fits(map: MapView, start: (u32, u32), goal: (u32, u32), p: Seq<(u32, u32)>)
    requires
        is_route(map, start, goal, p),
    ensures
        route_fits(p, start),
{
    assert forall|k: int| 0 <= k < p.len() - 1 implies manhattan_spec(#[trigger] p[k], p[k + 1]) == 1 by {
        crate::path::lemma_move_is_adjacent(map, goal, p[k], p[k + 1]);
    }
}

/// Carrying out a job keeps positions in range, the dwarf count, the map's
/// shape, and makes at most one new item.
pub proof fn lemma_finish_ok(s: SimModel, map: MapView, i: int, jid: JobId, kind: JobKind, sig: NeedSignals)
    requires
        positions_ok(s),
        0 <= i < s.dwarves.len(),
        map.wf(),
        s.next_item_id < u32::MAX,
        job_spots_ok(Job { id: jid, kind, priority: JobPriority::Critical, claimed_by: None }),
    ensures
        ({
            let r = finish_job(s, map, i, jid, kind, sig);
            &&& positions_ok(r.0)
            &&& r.0.dwarves.len() == s.dwarves.len()
            &&& r.0.next_job_id == s.next_job_id
            &&& (r.0.next_item_id == s.next_item_id || r.0.next_item_id == s.next_item_id + 1)
            &&& r.0.tick == s.tick
            &&& r.1.wf()
            &&& r.1.width == map.width
            &&& r.1.height == map.height
        }),
{
    let r = finish_job(s, map, i, jid, kind, sig);
    lemma_filter_all(s.jobs, crate::jobs::lacks_id(jid), |j: Job| job_spots_ok(j));
    lemma_filter_all(s.items, item_lacks_id(jid_item(kind)), |it: Item| coord_ok(it.pos));
    assert forall|k: int| 0 <= k < r.0.dwarves.len() implies coord_ok((#[trigger] r.0.dwarves[k]).pos) by {
        if k != i {
            assert(r.0.dwarves[k] == s.dwarves[k]);
        }
    }
    assert forall|key: u32, k: int| r.0.paths.contains_key(key) && 0 <= k < r.0.paths[key].len() implies coord_ok(
        #[trigger] r.0.paths[key][k],
    ) by {
        assert(s.paths.contains_key(key));
    }
    match kind {
        JobKind::Dig { pos } => {
            assert(coord_ok(pos));
            assert forall|k: int| 0 <= k < r.0.items.len() implies coord_ok((#[trigger] r.0.items[k]).pos) by {
                if k < s.items.len() {
                    assert(r.0.items[k] == s.items[k]);
                } else {
                    assert(r.0.items[k].pos == pos);
                }
            }
            assert(positions_ok(r.0));
            if map.in_bounds(pos.0, pos.1) {
                crate::world::lemma_index_in_range(map.width, map.height, pos.0, pos.1);
                assert(r.1.tiles.len() == map.tiles.len());
            }
        },
        JobKind::Haul { item, dest } => {
            lemma_find_index(s.items, item_matches(ItemQuery::WithId(item)));
            assert forall|k: int| 0 <= k < r.0.items.len() implies coord_ok((#[trigger] r.0.items[k]).pos) by {
                assert(r.0.items[k].pos == dest || r.0.items[k] == s.items[k]);
            }
        },
        _ => {},
    }
}

/// The item a job consumes (any id for jobs that consume none).
pub open spec fn jid_item(kind: JobKind) -> ItemId {
    match kind {
        JobKind::Eat(it) => it,
        JobKind::Drink(it) => it,
        _ => ItemId(0),
    }
}


/// Law: a dwarf's turn keeps item ids fresh and unique: the only new item
/// (a dug rock) takes the next id, and eating, drinking and hauling only
/// remove or move items.
pub proof fn law_turn_keeps_item_ids(s: SimModel, map: MapView, i: int, sig: NeedSignals)
    requires
        item_ids_fresh(s.items, s.next_item_id),
        0 <= i < s.dwarves.len(),
        s.next_item_id < u32::MAX,
    ensures
        item_ids_fresh(dwarf_turn(s, map, i, sig).0.items, dwarf_turn(s, map, i, sig).0.next_item_id),
{
    let s1 = needs_phase(s, i, sig);
    assert(s1.items == s.items && s1.next_item_id == s.next_item_id);
    let s2 = claim_phase(s1, i);
    assert(s2.items == s.items && s2.next_item_id == s.next_item_id);
    let d = s2.dwarves[i];
    match d.job {
        None => {},
        Some(jid) => match find_first(s2.jobs, has_id(jid)) {
            None => {},
            Some(job) => match job_dest(s2, i, job.kind) {
                None => {},
                Some(dest) => if near(d.pos, dest) {
                    match job.kind {
                        JobKind::Dig { pos } => {
                            let mat = match map.tile(pos.0, pos.1) {
                                Some(t) => t.material,
                                None => crate::world::Material::Empty,
                            };
                            lemma_push_fresh_item(
                                s.items,
                                s.next_item_id,
                                Item { id: ItemId(s.next_item_id), pos, material: mat, kind: ItemKind::Rock },
                            );
                        },
                        JobKind::Eat(it) => lemma_filter_fresh_items(s.items, item_lacks_id(it), s.next_item_id),
                        JobKind::Drink(it) => lemma_filter_fresh_items(s.items, item_lacks_id(it), s.next_item_id),
                        JobKind::Haul { item, dest } => {
                            lemma_find_index(s.items, item_matches(ItemQuery::WithId(item)));
                            let t = move_item_spec(s.items, item, dest);
                            assert forall|a: int, b: int| 0 <= a < b < t.len() implies (#[trigger] t[a]).id
                                != (#[trigger] t[b]).id by {
                                assert(t[a].id == s.items[a].id && t[b].id == s.items[b].id);
                            }
                            assert forall|a: int| 0 <= a < t.len() implies (#[trigger] t[a]).id.0 < s.next_item_id by {
                                assert(t[a].id == s.items[a].id);
                            }
                        },
                        JobKind::Sleep => {},
                    }
                } else {
                },
            },
        },
    }
}


/// `m1` is `m0` with some cells dug: every cell is unchanged or is the dug
/// version of what it was.
pub open spec fn only_dug(m0: MapView, m1: MapView) -> bool {
    &&& m1.width == m0.width
    &&& m1.height == m0.height
    &&& m1.tiles.len() == m0.tiles.len()
    &&& forall|k: int|
        0 <= k < m0.tiles.len() ==> (#[trigger] m1.tiles[k]) == m0.tiles[k] || m1.tiles[k] == dug(m0.tiles[k])
}

pub proof fn lemma_only_dug_trans(m0: MapView, m1: MapView, m2: MapView)
    requires
        only_dug(m0, m1),
        only_dug(m1, m2),
    ensures
        only_dug(m0, m2),
{
    assert forall|k: int| 0 <= k < m0.tiles.len() implies (#[trigger] m2.tiles[k]) == m0.tiles[k] || m2.tiles[k]
        == dug(m0.tiles[k]) by {
        assert(m1.tiles[k] == m0.tiles[k] || m1.tiles[k] == dug(m0.tiles[k]));
    }
}

/// Law: a dwarf's turn changes the map only by digging cells: a changed
/// cell is floor without a mark and keeps its material.
pub proof fn law_turn_only_digs(s: SimModel, map: MapView, i: int, sig: NeedSignals)
    requires
        map.wf(),
        0 <= i < s.dwarves.len(),
    ensures
        only_dug(map, dwarf_turn(s, map, i, sig).1),
{
    let s2 = claim_phase(needs_phase(s, i, sig), i);
    let d = s2.dwarves[i];
    let m = dwarf_turn(s, map, i, sig).1;
    if m != map {
        match d.job {
            None => {},
            Some(jid) => match find_first(s2.jobs, has_id(jid)) {
                None => {},
                Some(job) => match job_dest(s2, i, job.kind) {
                    None => {},
                    Some(dest) => if near(d.pos, dest) {
                        match job.kind {
                            JobKind::Dig { pos } => {
                                if map.in_bounds(pos.0, pos.1) {
                                    crate::world::lemma_index_in_range(map.width, map.height, pos.0, pos.1);
                                }
                            },
                            _ => {},
                        }
                    } else {
                    },
                },
            },
        }
    }
}

/// Items with ids from `n0` on are rocks.
pub open spec fn new_items_are_rocks(items: Seq<Item>, n0: u32) -> bool {
    forall|k: int| 0 <= k < items.len() && (#[trigger] items[k]).id.0 >= n0 ==> items[k].kind == ItemKind::Rock
}

/// Law: the only items a dwarf's turn creates are rocks; eating, drinking
/// and hauling remove or move items without changing their kind.
pub proof fn law_turn_makes_only_rocks(s: SimModel, map: MapView, i: int, sig: NeedSignals, n0: u32)
    requires
        new_items_are_rocks(s.items, n0),
        0 <= i < s.dwarves.len(),
    ensures
        new_items_are_rocks(dwarf_turn(s, map, i, sig).0.items, n0),
{
    let s2 = claim_phase(needs_phase(s, i, sig), i);
    assert(s2.items == s.items);
    let d = s2.dwarves[i];
    let t = dwarf_turn(s, map, i, sig).0.items;
    match d.job {
        None => {},
        Some(jid) => match find_first(s2.jobs, has_id(jid)) {
            None => {},
            Some(job) => match job_dest(s2, i, job.kind) {
                None => {},
                Some(dest) => if near(d.pos, dest) {
                    match job.kind {
                        JobKind::Dig { pos } => {
                            assert forall|k: int| 0 <= k < t.len() && (#[trigger] t[k]).id.0 >= n0 implies t[k].kind
                                == ItemKind::Rock by {
                                if k < s.items.len() {
                                    assert(t[k] == s.items[k]);
                                }
                            }
                        },
                        JobKind::Eat(it) => {
                            lemma_filter_all(
                                s.items,
                                item_lacks_id(it),
                                |x: Item| x.id.0 >= n0 ==> x.kind == ItemKind::Rock,
                            );
                        },
                        JobKind::Drink(it) => {
                            lemma_filter_all(
                                s.items,
                                item_lacks_id(it),
                                |x: Item| x.id.0 >= n0 ==> x.kind == ItemKind::Rock,
                            );
                        },
                        JobKind::Haul { item, dest } => {
                            lemma_find_index(s.items, item_matches(ItemQuery::WithId(item)));
                            assert forall|k: int| 0 <= k < t.len() && (#[trigger] t[k]).id.0 >= n0 implies t[k].kind
                                == ItemKind::Rock by {
                                assert(t[k].id == s.items[k].id && t[k].kind == s.items[k].kind);
                            }
                        },
                        JobKind::Sleep => {},
                    }
                } else {
                },
            },
        },
    }
}


/// Whether an item is something to eat: raw food or a meal.
pub open spec fn is_edible(it: Item) -> bool {
    it.kind == ItemKind::Food || it.kind == ItemKind::Meal
}

/// Law: what each lookup is after. Something to eat is raw food or a meal,
/// something to drink is a drink, and an id lookup matches exactly that id.
pub proof fn law_item_queries(it: Item, id: ItemId)
    ensures
        item_matches(ItemQuery::Edible)(it) <==> (it.kind == ItemKind::Food || it.kind == ItemKind::Meal),
        item_matches(ItemQuery::Drinkable)(it) <==> it.kind == ItemKind::Drink,
        item_matches(ItemQuery::WithId(id))(it) <==> it.id == id,
{
}

/// Law: looking for something to eat finds the first item that is raw food
/// or a meal, and finds nothing exactly when there is no such item.
pub proof fn law_edible_lookup(items: Seq<Item>)
    ensures
        find_first(items, item_matches(ItemQuery::Edible)) is None <==> forall|k: int|
            0 <= k < items.len() ==> !is_edible(#[trigger] items[k]),
        forall|k: int|
            0 <= k < items.len() && is_edible(#[trigger] items[k]) && (forall|j: int|
                0 <= j < k ==> !is_edible(#[trigger] items[j])) ==> find_first(items, item_matches(ItemQuery::Edible))
                == Some(items[k]),
{
    let p = item_matches(ItemQuery::Edible);
    lemma_find_index(items, p);
    assert forall|k: int| 0 <= k < items.len() implies (p(items[k]) <==> is_edible(#[trigger] items[k])) by {}
    assert forall|k: int|
        0 <= k < items.len() && is_edible(#[trigger] items[k]) && (forall|j: int|
            0 <= j < k ==> !is_edible(#[trigger] items[j])) implies find_first(items, p) == Some(items[k]) by {
        match find_index(items, p) {
            Some(m) => {
                if m < k {
                    assert(is_edible(items[m]));
                } else if m > k {
                    assert(p(items[k]));
                }
            },
            None => {
                assert(p(items[k]));
            },
        }
    }
}

/// Law: an idle hungry dwarf files a critical job to eat the first item that
/// is raw food or a meal, claims it at once and takes it on; nothing else
/// changes but the id counter.
pub proof fn law_hungry_dwarf_files_eat_job(s: SimModel, i: int, sig: NeedSignals, k: int)
    requires
        0 <= i < s.dwarves.len(),
        s.dwarves[i].job is None,
        sig.hungry,
        0 <= k < s.items.len(),
        is_edible(s.items[k]),
        forall|j: int| 0 <= j < k ==> !is_edible(#[trigger] s.items[j]),
        ids_fresh_and_unique(s.jobs, s.next_job_id),
        s.next_job_id < u32::MAX,
    ensures
        needs_phase(s, i, sig).jobs == s.jobs.push(
            Job {
                id: JobId(s.next_job_id),
                kind: JobKind::Eat(s.items[k].id),
                priority: JobPriority::Critical,
                claimed_by: Some(s.dwarves[i].id),
            },
        ),
        needs_phase(s, i, sig).dwarves == s.dwarves.update(i, Dwarf { job: Some(JobId(s.next_job_id)), ..s.dwarves[i] }),
        needs_phase(s, i, sig).next_job_id == s.next_job_id + 1,
        needs_phase(s, i, sig).items == s.items,
        needs_phase(s, i, sig).paths == s.paths,
{
    law_edible_lookup(s.items);
    lemma_pushed_claim(s.jobs, s.next_job_id, JobKind::Eat(s.items[k].id), s.dwarves[i].id);
}

/// Law: an idle hungry dwarf with nothing to eat on the ground does nothing
/// in the needs phase, even when thirsty or tired.
pub proof fn law_hungry_dwarf_without_food_waits(s: SimModel, i: int, sig: NeedSignals)
    requires
        0 <= i < s.dwarves.len(),
        sig.hungry,
        forall|k: int| 0 <= k < s.items.len() ==> !is_edible(#[trigger] s.items[k]),
    ensures
        needs_phase(s, i, sig) == s,
{
    law_edible_lookup(s.items);
}

/// Law: an idle dwarf that is thirsty but not hungry files a critical job to
/// drink the first drink on the ground, claims it and takes it on.
pub proof fn law_thirsty_dwarf_files_drink_job(s: SimModel, i: int, sig: NeedSignals, k: int)
    requires
        0 <= i < s.dwarves.len(),
        s.dwarves[i].job is None,
        !sig.hungry,
        sig.thirsty,
        0 <= k < s.items.len(),
        s.items[k].kind == ItemKind::Drink,
        forall|j: int| 0 <= j < k ==> (#[trigger] s.items[j]).kind != ItemKind::Drink,
        ids_fresh_and_unique(s.jobs, s.next_job_id),
        s.next_job_id < u32::MAX,
    ensures
        needs_phase(s, i, sig).jobs == s.jobs.push(
            Job {
                id: JobId(s.next_job_id),
                kind: JobKind::Drink(s.items[k].id),
                priority: JobPriority::Critical,
                claimed_by: Some(s.dwarves[i].id),
            },
        ),
        needs_phase(s, i, sig).dwarves == s.dwarves.update(i, Dwarf { job: Some(JobId(s.next_job_id)), ..s.dwarves[i] }),
        needs_phase(s, i, sig).next_job_id == s.next_job_id + 1,
        needs_phase(s, i, sig).items == s.items,
{
    let p = item_matches(ItemQuery::Drinkable);
    lemma_find_index(s.items, p);
    assert(p(s.items[k]));
    match find_index(s.items, p) {
        Some(m) => {
            if m < k {
                assert(s.items[m].kind != ItemKind::Drink);
            }
            assert(m == k);
        },
        None => {},
    }
    lemma_pushed_claim(s.jobs, s.next_job_id, JobKind::Drink(s.items[k].id), s.dwarves[i].id);
}

/// Claiming the job just pushed under a fresh id marks that new last job,
/// and only it, as taken.
proof fn lemma_pushed_claim(jobs: Seq<Job>, next: u32, kind: JobKind, e: EntityId)
    requires
        ids_fresh_and_unique(jobs, next),
    ensures
        claim_spec(push_spec(jobs, next, kind, JobPriority::Critical), JobId(next), e) == (
            jobs.push(Job { id: JobId(next), kind, priority: JobPriority::Critical, claimed_by: Some(e) }),
            true,
        ),
{
    let pushed = push_spec(jobs, next, kind, JobPriority::Critical);
    let p = crate::jobs::claimable(JobId(next));
    assert forall|j: int| 0 <= j < jobs.len() implies !p(#[trigger] pushed[j]) by {
        assert(pushed[j] == jobs[j]);
    }
    crate::seqs::lemma_find_index_is(pushed, p, jobs.len() as int);
    assert(pushed.update(jobs.len() as int, Job { claimed_by: Some(e), ..pushed[jobs.len() as int] }) =~= jobs.push(
        Job { id: JobId(next), kind, priority: JobPriority::Critical, claimed_by: Some(e) },
    ));
}

/// Law: a dwarf is close enough to work on a spot when it stands on it or
/// on one of its four orthogonal neighbours.
pub proof fn law_near_is_on_or_next_to(a: (u32, u32), b: (u32, u32))
    ensures
        near(a, b) <==> (a == b || (a.0 == b.0 && (a.1 == b.1 + 1 || a.1 + 1 == b.1)) || (a.1 == b.1 && (a.0
            == b.0 + 1 || a.0 + 1 == b.0))),
{
}

/// Law: where each job sends a dwarf: a dig or haul to its position, a nap
/// to where the dwarf stands, eating or drinking to the first item with the
/// job's item id, and nowhere when no item has that id.
pub proof fn law_job_places(s: SimModel, i: int, pos: (u32, u32), it: ItemId, dest: (u32, u32))
    ensures
        job_dest(s, i, JobKind::Dig { pos }) == Some(pos),
        job_dest(s, i, JobKind::Haul { item: it, dest }) == Some(dest),
        job_dest(s, i, JobKind::Sleep) == Some(s.dwarves[i].pos),
        forall|k: int|
            0 <= k < s.items.len() && (#[trigger] s.items[k]).id == it && (forall|j: int|
                0 <= j < k ==> (#[trigger] s.items[j]).id != it) ==> job_dest(s, i, JobKind::Eat(it)) == Some(
                s.items[k].pos,
            ) && job_dest(s, i, JobKind::Drink(it)) == Some(s.items[k].pos),
        (forall|k: int| 0 <= k < s.items.len() ==> (#[trigger] s.items[k]).id != it) ==> job_dest(
            s,
            i,
            JobKind::Eat(it),
        ) is None && job_dest(s, i, JobKind::Drink(it)) is None,
{
    let p = item_matches(ItemQuery::WithId(it));
    lemma_find_index(s.items, p);
    assert forall|k: int|
        0 <= k < s.items.len() && (#[trigger] s.items[k]).id == it && (forall|j: int|
            0 <= j < k ==> (#[trigger] s.items[j]).id != it) implies find_index(s.items, p) == Some(k) by {
        crate::seqs::lemma_find_index_is(s.items, p, k);
    }
    if forall|k: int| 0 <= k < s.items.len() ==> (#[trigger] s.items[k]).id != it {
        crate::seqs::lemma_find_index_none(s.items, p);
    }
}

/// Law: eating or drinking at the work place consumes the item: afterwards
/// exactly the items without that id remain, the job is gone, the dwarf is
/// idle, the map is untouched and the dwarf has eaten (or drunk).
pub proof fn law_consuming_removes_the_item(s: SimModel, map: MapView, i: int, jid: JobId, it: ItemId, sig: NeedSignals)
    requires
        0 <= i < s.dwarves.len(),
    ensures
        forall|x: Item|
            finish_job(s, map, i, jid, JobKind::Eat(it), sig).0.items.contains(x) <==> (s.items.contains(x) && x.id
                != it),
        forall|x: Item|
            finish_job(s, map, i, jid, JobKind::Drink(it), sig).0.items.contains(x) <==> (s.items.contains(x) && x.id
                != it),
        finish_job(s, map, i, jid, JobKind::Eat(it), sig).2 == (NeedEffects { ate: true, drank: false, napped: false }),
        finish_job(s, map, i, jid, JobKind::Drink(it), sig).2 == (NeedEffects { ate: false, drank: true, napped: false }),
        finish_job(s, map, i, jid, JobKind::Eat(it), sig).1 == map,
        finish_job(s, map, i, jid, JobKind::Eat(it), sig).0.dwarves[i].job is None,
        forall|k: int|
            0 <= k < finish_job(s, map, i, jid, JobKind::Eat(it), sig).0.jobs.len() ==> (#[trigger] finish_job(
                s,
                map,
                i,
                jid,
                JobKind::Eat(it),
                sig,
            ).0.jobs[k]).id != jid,
{
    let t = s.items.filter(item_lacks_id(it));
    assert forall|x: Item| t.contains(x) <==> (s.items.contains(x) && x.id != it) by {
        if t.contains(x) {
            s.items.lemma_filter_contains_rev(item_lacks_id(it), x);
            let k = choose|k: int| 0 <= k < t.len() && t[k] == x;
            s.items.lemma_filter_pred(item_lacks_id(it), k);
        }
        if s.items.contains(x) && x.id != it {
            let k = choose|k: int| 0 <= k < s.items.len() && s.items[k] == x;
            s.items.lemma_filter_contains(item_lacks_id(it), k);
        }
    }
    let js = complete_spec(s.jobs, jid);
    assert forall|k: int| 0 <= k < js.len() implies (#[trigger] js[k]).id != jid by {
        s.jobs.lemma_filter_pred(crate::jobs::lacks_id(jid), k);
    }
}

/// Law: digging at the work place turns the dug cell into unmarked floor of
/// the same material, leaves every other cell as it was, and drops a rock of
/// that material on the cell under the next item id.
pub proof fn law_digging_leaves_floor_and_rock(
    s: SimModel,
    map: MapView,
    i: int,
    jid: JobId,
    pos: (u32, u32),
    sig: NeedSignals,
    t: Tile,
)
    requires
        0 <= i < s.dwarves.len(),
        map.wf(),
        map.tile(pos.0, pos.1) == Some(t),
        s.next_item_id < u32::MAX,
    ensures
        finish_job(s, map, i, jid, JobKind::Dig { pos }, sig).1.tile(pos.0, pos.1) == Some(
            Tile { kind: TileKind::Floor, material: t.material, designated: None },
        ),
        forall|x: u32, y: u32|
            !(x == pos.0 && y == pos.1) ==> #[trigger] finish_job(s, map, i, jid, JobKind::Dig { pos }, sig).1.tile(
                x,
                y,
            ) == map.tile(x, y),
        finish_job(s, map, i, jid, JobKind::Dig { pos }, sig).0.items == s.items.push(
            Item { id: ItemId(s.next_item_id), pos, material: t.material, kind: ItemKind::Rock },
        ),
        finish_job(s, map, i, jid, JobKind::Dig { pos }, sig).0.next_item_id == s.next_item_id + 1,
        finish_job(s, map, i, jid, JobKind::Dig { pos }, sig).2 == no_effects(),
{
    crate::world::law_read_after_write(map, pos.0, pos.1, dug(t), pos.0, pos.1);
    assert forall|x: u32, y: u32| !(x == pos.0 && y == pos.1) implies #[trigger] finish_job(
        s,
        map,
        i,
        jid,
        JobKind::Dig { pos },
        sig,
    ).1.tile(x, y) == map.tile(x, y) by {
        crate::world::law_read_after_write(map, pos.0, pos.1, dug(t), x, y);
    }
}

/// Law: hauling at the work place moves the first item with the hauled id to
/// the destination and leaves every other item where it was; with no such
/// item the items stay as they were.
pub proof fn law_hauling_moves_the_item(
    s: SimModel,
    map: MapView,
    i: int,
    jid: JobId,
    item: ItemId,
    dest: (u32, u32),
    sig: NeedSignals,
)
    requires
        0 <= i < s.dwarves.len(),
    ensures
        forall|k: int|
            0 <= k < s.items.len() && (#[trigger] s.items[k]).id == item && (forall|j: int|
                0 <= j < k ==> (#[trigger] s.items[j]).id != item) ==> finish_job(
                s,
                map,
                i,
                jid,
                JobKind::Haul { item, dest },
                sig,
            ).0.items == s.items.update(k, Item { pos: dest, ..s.items[k] }),
        (forall|k: int| 0 <= k < s.items.len() ==> (#[trigger] s.items[k]).id != item) ==> finish_job(
            s,
            map,
            i,
            jid,
            JobKind::Haul { item, dest },
            sig,
        ).0.items == s.items,
        finish_job(s, map, i, jid, JobKind::Haul { item, dest }, sig).2 == no_effects(),
        finish_job(s, map, i, jid, JobKind::Haul { item, dest }, sig).1 == map,
{
    let p = item_matches(ItemQuery::WithId(item));
    assert forall|k: int|
        0 <= k < s.items.len() && (#[trigger] s.items[k]).id == item && (forall|j: int|
            0 <= j < k ==> (#[trigger] s.items[j]).id != item) implies find_index(s.items, p) == Some(k) by {
        crate::seqs::lemma_find_index_is(s.items, p, k);
    }
    if forall|k: int| 0 <= k < s.items.len() ==> (#[trigger] s.items[k]).id != item {
        crate::seqs::lemma_find_index_none(s.items, p);
    }
}

/// Law: a nap always lets the dwarf rest; it ends the job, leaving the dwarf
/// idle, only once the dwarf is rested, and otherwise changes nothing.
pub proof fn law_nap_ends_only_when_rested(s: SimModel, map: MapView, i: int, jid: JobId, sig: NeedSignals)
    requires
        0 <= i < s.dwarves.len(),
    ensures
        finish_job(s, map, i, jid, JobKind::Sleep, sig).2 == (NeedEffects { ate: false, drank: false, napped: true }),
        !sig.rested_after_nap ==> finish_job(s, map, i, jid, JobKind::Sleep, sig).0 == s,
        sig.rested_after_nap ==> finish_job(s, map, i, jid, JobKind::Sleep, sig).0.dwarves[i].job is None,
        sig.rested_after_nap ==> finish_job(s, map, i, jid, JobKind::Sleep, sig).0.jobs == complete_spec(s.jobs, jid),
        finish_job(s, map, i, jid, JobKind::Sleep, sig).1 == map,
{
}

/// Law: an idle dwarf claims the most urgent unclaimed job, the earliest
/// queued among equally urgent ones: it takes that job on, the job is marked
/// as taken by it, and its old route is dropped.
pub proof fn law_idle_dwarf_claims_most_urgent_job(s: SimModel, i: int, k: int)
    requires
        0 <= i < s.dwarves.len(),
        s.dwarves[i].job is None,
        ids_fresh_and_unique(s.jobs, s.next_job_id),
        0 <= k < s.jobs.len(),
        s.jobs[k].claimed_by is None,
        forall|j: int|
            0 <= j < s.jobs.len() && (#[trigger] s.jobs[j]).claimed_by is None ==> priority_rank(s.jobs[k].priority)
                < priority_rank(s.jobs[j].priority) || (s.jobs[j].priority == s.jobs[k].priority && k <= j),
    ensures
        claim_phase(s, i).dwarves == s.dwarves.update(i, Dwarf { job: Some(s.jobs[k].id), ..s.dwarves[i] }),
        claim_phase(s, i).jobs == s.jobs.update(
            k,
            Job {
                id: s.jobs[k].id,
                kind: s.jobs[k].kind,
                priority: s.jobs[k].priority,
                claimed_by: Some(s.dwarves[i].id),
            },
        ),
        claim_phase(s, i).paths == s.paths.remove(s.dwarves[i].id.0),
        claim_phase(s, i).items == s.items,
{
    let jobs = s.jobs;
    let pr = jobs[k].priority;
    let c = jobs.filter(open_at(JobPriority::Critical));
    let b = jobs.filter(open_at(JobPriority::Basic));
    let l = jobs.filter(open_at(JobPriority::Low));
    let u = unclaimed_spec(jobs);
    assert(u == c + b + l);
    assert forall|j: int| 0 <= j < k implies !open_at(pr)(#[trigger] jobs[j]) by {
        if jobs[j].claimed_by is None && jobs[j].priority == pr {
            assert(priority_rank(jobs[k].priority) < priority_rank(jobs[j].priority) || k <= j);
        }
    }
    crate::seqs::lemma_filter_first(jobs, open_at(pr), k);
    match pr {
        JobPriority::Critical => {
            assert(u[0] == c[0]);
        },
        JobPriority::Basic => {
            assert forall|j: int| 0 <= j < jobs.len() implies !open_at(JobPriority::Critical)(#[trigger] jobs[j]) by {
                if jobs[j].claimed_by is None {
                    assert(priority_rank(jobs[k].priority) < priority_rank(jobs[j].priority) || jobs[j].priority == pr);
                }
            }
            crate::seqs::lemma_filter_none(jobs, open_at(JobPriority::Critical));
            assert(u[0] == b[0]);
        },
        JobPriority::Low => {
            assert forall|j: int| 0 <= j < jobs.len() implies !open_at(JobPriority::Critical)(#[trigger] jobs[j])
                && !open_at(JobPriority::Basic)(jobs[j]) by {
                if jobs[j].claimed_by is None {
                    assert(priority_rank(jobs[k].priority) < priority_rank(jobs[j].priority) || jobs[j].priority == pr);
                }
            }
            crate::seqs::lemma_filter_none(jobs, open_at(JobPriority::Critical));
            crate::seqs::lemma_filter_none(jobs, open_at(JobPriority::Basic));
            assert(u[0] == l[0]);
        },
    }
    assert(u[0] == jobs[k]);
    crate::jobs::law_claim_outcome(jobs, s.next_job_id, jobs[k].id, s.dwarves[i].id, k);
}

/// Law: an idle dwarf that is tired but neither hungry nor thirsty files a
/// critical job to sleep, claims it and takes it on; a dwarf that already
/// has a job, or has no pressing need, files nothing.
pub proof fn law_tired_dwarf_files_sleep_job(s: SimModel, i: int, sig: NeedSignals)
    requires
        0 <= i < s.dwarves.len(),
        ids_fresh_and_unique(s.jobs, s.next_job_id),
        s.next_job_id < u32::MAX,
    ensures
        s.dwarves[i].job is None && !sig.hungry && !sig.thirsty && sig.sleepy ==> {
            &&& needs_phase(s, i, sig).jobs == s.jobs.push(
                Job {
                    id: JobId(s.next_job_id),
                    kind: JobKind::Sleep,
                    priority: JobPriority::Critical,
                    claimed_by: Some(s.dwarves[i].id),
                },
            )
            &&& needs_phase(s, i, sig).dwarves == s.dwarves.update(
                i,
                Dwarf { job: Some(JobId(s.next_job_id)), ..s.dwarves[i] },
            )
            &&& needs_phase(s, i, sig).next_job_id == s.next_job_id + 1
        },
        s.dwarves[i].job is Some ==> needs_phase(s, i, sig) == s,
        !sig.hungry && !sig.thirsty && !sig.sleepy ==> needs_phase(s, i, sig) == s,
{
    lemma_pushed_claim(s.jobs, s.next_job_id, JobKind::Sleep, s.dwarves[i].id);
}

} // verus!
