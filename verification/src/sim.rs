//! The colony state and the executable simulation tick.

use vstd::prelude::*;
use std::collections::HashMap;
use crate::seqs::{find_index, find_first, lemma_find_index, lemma_find_index_is, lemma_find_index_none};
use crate::world::{Material, TileKind, TileMap};
use crate::jobs::{
    has_id, item_ids_fresh, unclaimed_spec, EntityId, Item, ItemId, ItemKind, Job,
    JobId, JobKind, JobPriority, JobQueue, SimTime,
};
use crate::path::{coord_ok, find_path, manhattan_spec, searchable};
use crate::turn::{
    advance_phase, claim_phase, finish_job, follow_route, job_dest, job_spots_ok, near, needs_phase, positions_ok,
    step_spec, take_critical_job, turns, walk,
};
use crate::invariants::{
    law_turn_makes_only_rocks, law_turn_only_digs, lemma_only_dug_trans, new_items_are_rocks, only_dug, calm, claims_ok, jid_item, law_turn_keeps_claims, law_turn_keeps_item_ids, lemma_calm_keeps_routes, lemma_claim_phase_calm,
    lemma_claim_phase_ok, lemma_finish_calm, lemma_finish_ok, lemma_follow_route, lemma_needs_phase_calm,
    lemma_needs_phase_ok, lemma_route_fits, lemma_route_in_range, only_walker, route_fits, routes_ok,
};

verus! {

broadcast use vstd::seq_lib::group_seq_properties, vstd::std_specs::hash::group_hash_axioms;

/// A dwarf: who it is, where it stands and which job it works on. How
/// hungry, thirsty and tired it is lives with the caller, which reports the
/// outcome of those measurements to `SimState::step` as `NeedSignals`.
#[derive(Debug)]
pub struct Dwarf {
    pub id: EntityId,
    pub name: String,
    pub pos: (u32, u32),
    pub job: Option<JobId>,
    pub inventory: Vec<ItemId>,
}

/// What a dwarf's needs say at the start of its turn in a tick.
#[derive(Clone, Copy, Debug, PartialEq, Eq, Structural)]
pub struct NeedSignals {
    /// Hunger is above the critical threshold.
    pub hungry: bool,
    /// Thirst is above the critical threshold.
    pub thirsty: bool,
    /// Tiredness is above the critical threshold.
    pub sleepy: bool,
    /// One more nap would bring tiredness below the rested threshold.
    pub rested_after_nap: bool,
}

/// What happened to a dwarf's needs during its turn: the caller applies these.
#[derive(Clone, Copy, Debug, PartialEq, Eq, Structural)]
pub struct NeedEffects {
    /// It ate: hunger drops to zero.
    pub ate: bool,
    /// It drank: thirst drops to zero.
    pub drank: bool,
    /// It napped: tiredness drops by one nap.
    pub napped: bool,
}

pub open spec fn no_effects() -> NeedEffects {
    NeedEffects { ate: false, drank: false, napped: false }
}

/// The abstract state of the simulation.
#[verifier::ext_equal]
pub struct SimModel {
    pub dwarves: Seq<Dwarf>,
    pub items: Seq<Item>,
    pub jobs: Seq<Job>,
    pub next_job_id: u32,
    pub tick: u64,
    pub paths: Map<u32, Seq<(u32, u32)>>,
    pub next_item_id: u32,
}

pub open spec fn paths_view(m: Map<u32, Vec<(u32, u32)>>) -> Map<u32, Seq<(u32, u32)>> {
    m.map_values(|v: Vec<(u32, u32)>| v@)
}

/// The colony: its dwarves, the items on the ground, the jobs, the clock
/// and each dwarf's remaining walking route (keyed by the dwarf's id number).
pub struct SimState {
    pub dwarves: Vec<Dwarf>,
    pub items: Vec<Item>,
    pub job_queue: JobQueue,
    pub time: SimTime,
    pub paths: HashMap<u32, Vec<(u32, u32)>>,
    pub next_item_id: u32,
}

impl SimState {
    pub open spec fn model(&self) -> SimModel {
        SimModel {
            dwarves: self.dwarves@,
            items: self.items@,
            jobs: self.job_queue.jobs@,
            next_job_id: self.job_queue.next_id,
            tick: self.time.tick,
            paths: paths_view(self.paths@),
            next_item_id: self.next_item_id,
        }
    }
}

/// Which items a lookup is after.
#[derive(Clone, Copy, Debug, PartialEq, Eq)]
pub enum ItemQuery {
    /// Something to eat: food or a meal.
    Edible,
    /// Something to drink.
    Drinkable,
    /// The item with this id.
    WithId(ItemId),
}

pub open spec fn item_matches(q: ItemQuery) -> spec_fn(Item) -> bool {
    |it: Item|
        match q {
            ItemQuery::Edible => it.kind == ItemKind::Food || it.kind == ItemKind::Meal,
            ItemQuery::Drinkable => it.kind == ItemKind::Drink,
            ItemQuery::WithId(id) => it.id == id,
        }
}

pub open spec fn item_lacks_id(id: ItemId) -> spec_fn(Item) -> bool {
    |it: Item| it.id != id
}

/// The first item that the query matches.
pub fn find_item(items: &Vec<Item>, q: ItemQuery) -> (r: Option<Item>)
    ensures
        r == find_first(items@, item_matches(q)),
{
    let n = items.len();
    let mut i: usize = 0;
    while i < n
        invariant
            n == items@.len(),
            i <= n,
            forall|j: int| 0 <= j < i ==> !item_matches(q)(#[trigger] items@[j]),
        decreases n - i,
    {
        let it = items[i];
        let hit = match q {
            ItemQuery::Edible => match it.kind {
                ItemKind::Food => true,
                ItemKind::Meal => true,
                _ => false,
            },
            ItemQuery::Drinkable => match it.kind {
                ItemKind::Drink => true,
                _ => false,
            },
            ItemQuery::WithId(id) => it.id == id,
        };
        if hit {
            proof {
                lemma_find_index_is(items@, item_matches(q), i as int);
            }
            return Some(it);
        }
        i = i + 1;
    }
    proof {
        lemma_find_index_none(items@, item_matches(q));
    }
    None
}

/// Drops every item with this id.
pub fn remove_items_with_id(items: &mut Vec<Item>, id: ItemId)
    ensures
        final(items)@ == old(items)@.filter(item_lacks_id(id)),
{
    let ghost orig = items@;
    let n = items.len();
    let mut kept: Vec<Item> = Vec::new();
    let mut i: usize = 0;
    while i < n
        invariant
            n == items@.len(),
            i <= n,
            items@ == orig,
            kept@ == orig.take(i as int).filter(item_lacks_id(id)),
        decreases n - i,
    {
        let it = items[i];
        proof {
            orig.take(i as int).lemma_filter_push(it, item_lacks_id(id));
            assert(orig.take(i as int).push(it) == orig.take(i + 1));
        }
        if it.id != id {
            kept.push(it);
        }
        i = i + 1;
    }
    assert(orig.take(n as int) == orig);
    *items = kept;
}

/// The items after moving the first item with this id to `dest`.
pub open spec fn move_item_spec(items: Seq<Item>, id: ItemId, dest: (u32, u32)) -> Seq<Item> {
    match find_index(items, item_matches(ItemQuery::WithId(id))) {
        Some(k) => items.update(k, Item { pos: dest, ..items[k] }),
        None => items,
    }
}

/// Moves the first item with this id to `dest`.
pub fn move_item(items: &mut Vec<Item>, id: ItemId, dest: (u32, u32))
    ensures
        final(items)@ == move_item_spec(old(items)@, id, dest),
{
    let n = items.len();
    let mut i: usize = 0;
    while i < n
        invariant
            n == items@.len(),
            i <= n,
            items@ == old(items)@,
            forall|j: int| 0 <= j < i ==> !item_matches(ItemQuery::WithId(id))(#[trigger] items@[j]),
        decreases n - i,
    {
        let it = items[i];
        if it.id == id {
            proof {
                lemma_find_index_is(items@, item_matches(ItemQuery::WithId(id)), i as int);
            }
            items.set(i, Item { pos: dest, ..it });
            return;
        }
        i = i + 1;
    }
    proof {
        lemma_find_index_none(items@, item_matches(ItemQuery::WithId(id)));
    }
}

/// The first job with this id.
pub fn find_job(jobs: &Vec<Job>, id: JobId) -> (r: Option<Job>)
    ensures
        r == find_first(jobs@, has_id(id)),
{
    let n = jobs.len();
    let mut i: usize = 0;
    while i < n
        invariant
            n == jobs@.len(),
            i <= n,
            forall|j: int| 0 <= j < i ==> !has_id(id)(#[trigger] jobs@[j]),
        decreases n - i,
    {
        let job = jobs[i];
        if job.id == id {
            proof {
                lemma_find_index_is(jobs@, has_id(id), i as int);
            }
            return Some(job);
        }
        i = i + 1;
    }
    proof {
        lemma_find_index_none(jobs@, has_id(id));
    }
    None
}

proof fn lemma_paths_insert(m: Map<u32, Vec<(u32, u32)>>, k: u32, v: Vec<(u32, u32)>)
    ensures
        paths_view(m.insert(k, v)) == paths_view(m).insert(k, v@),
{
    assert(paths_view(m.insert(k, v)) =~= paths_view(m).insert(k, v@));
}

proof fn lemma_paths_remove(m: Map<u32, Vec<(u32, u32)>>, k: u32)
    ensures
        paths_view(m.remove(k)) == paths_view(m).remove(k),
{
    assert(paths_view(m.remove(k)) =~= paths_view(m).remove(k));
}

/// Replaces dwarf `i`'s job.
fn set_dwarf_job(dwarves: &mut Vec<Dwarf>, i: usize, job: Option<JobId>)
    requires
        i < old(dwarves)@.len(),
    ensures
        final(dwarves)@ == old(dwarves)@.update(i as int, Dwarf { job, ..old(dwarves)@[i as int] }),
{
    let d = &mut dwarves[i];
    d.job = job;
}

/// Moves dwarf `i` to `pos`.
fn set_dwarf_pos(dwarves: &mut Vec<Dwarf>, i: usize, pos: (u32, u32))
    requires
        i < old(dwarves)@.len(),
    ensures
        final(dwarves)@ == old(dwarves)@.update(i as int, Dwarf { pos, ..old(dwarves)@[i as int] }),
{
    let d = &mut dwarves[i];
    d.pos = pos;
}

impl SimState {
    /// Dwarf `i` files a critical job and takes it on (see `take_critical_job`).
    fn file_critical_job(&mut self, i: usize, kind: JobKind)
        requires
            i < old(self).dwarves@.len(),
            old(self).job_queue.next_id < u32::MAX,
        ensures
            final(self).model() == take_critical_job(old(self).model(), i as int, kind),
    {
        let did = self.dwarves[i].id;
        let jid = self.job_queue.push(kind, JobPriority::Critical);
        let _ = self.job_queue.claim(jid, did);
        set_dwarf_job(&mut self.dwarves, i, Some(jid));
        assert(self.model() =~= take_critical_job(old(self).model(), i as int, kind));
    }

    /// The needs phase of dwarf `i`'s turn.
    fn needs_turn(&mut self, i: usize, sig: NeedSignals)
        requires
            i < old(self).dwarves@.len(),
            old(self).job_queue.next_id < u32::MAX,
        ensures
            final(self).model() == needs_phase(old(self).model(), i as int, sig),
            calm(old(self).model(), final(self).model()),
    {
        proof {
            lemma_needs_phase_calm(self.model(), i as int, sig);
        }
        if self.dwarves[i].job.is_none() {
            if sig.hungry {
                match find_item(&self.items, ItemQuery::Edible) {
                    Some(food) => self.file_critical_job(i, JobKind::Eat(food.id)),
                    None => {},
                }
            } else if sig.thirsty {
                match find_item(&self.items, ItemQuery::Drinkable) {
                    Some(drink) => self.file_critical_job(i, JobKind::Drink(drink.id)),
                    None => {},
                }
            } else if sig.sleepy {
                self.file_critical_job(i, JobKind::Sleep);
            }
        }
    }

    /// The claim phase of dwarf `i`'s turn.
    fn claim_turn(&mut self, i: usize)
        requires
            i < old(self).dwarves@.len(),
        ensures
            final(self).model() == claim_phase(old(self).model(), i as int),
            calm(old(self).model(), final(self).model()),
    {
        proof {
            lemma_claim_phase_calm(self.model(), i as int);
        }
        if self.dwarves[i].job.is_none() {
            let did = self.dwarves[i].id;
            let first: Option<JobId>;
            {
                let open = self.job_queue.unclaimed();
                proof {
                    assert(open@.len() == unclaimed_spec(self.job_queue.jobs@).len());
                }
                if open.len() > 0 {
                    proof {
                        assert(open@.map_values(|j: &Job| *j)[0] == *open@[0]);
                    }
                    first = Some(open[0].id);
                } else {
                    first = None;
                }
            }
            match first {
                Some(jid) => {
                    let ok = self.job_queue.claim(jid, did);
                    if ok {
                        set_dwarf_job(&mut self.dwarves, i, Some(jid));
                        let _ = self.paths.remove(&did.0);
                        proof {
                            lemma_paths_remove(old(self).paths@, did.0);
                        }
                    }
                    assert(self.model() =~= claim_phase(old(self).model(), i as int));
                },
                None => {
                    assert(self.model() =~= claim_phase(old(self).model(), i as int));
                },
            }
        }
    }
}

/// Whether a dwarf at `a` is close enough to work at `b`.
fn is_near(a: (u32, u32), b: (u32, u32)) -> (r: bool)
    requires
        coord_ok(a),
        coord_ok(b),
    ensures
        r == near(a, b),
{
    let dx = if a.0 >= b.0 { a.0 - b.0 } else { b.0 - a.0 };
    let dy = if a.1 >= b.1 { a.1 - b.1 } else { b.1 - a.1 };
    (a.0 == b.0 && a.1 == b.1) || dx + dy <= 1
}

impl SimState {
    /// Dwarf `i` walks one cell towards `dest`.
    fn walk_turn(&mut self, map: &TileMap, i: usize, dest: (u32, u32))
        requires
            i < old(self).dwarves@.len(),
            searchable(map@),
            positions_ok(old(self).model()),
            coord_ok(dest),
        ensures
            final(self).model() == walk(old(self).model(), map@, i as int, dest),
            positions_ok(final(self).model()),
            only_walker(old(self).model(), final(self).model(), i as int),
            routes_ok(old(self).model()) ==> routes_ok(final(self).model()) && manhattan_spec(
                old(self).dwarves@[i as int].pos,
                final(self).dwarves@[i as int].pos,
            ) <= 1,
    {
        let ghost s0 = self.model();
        let ghost mut fresh: Option<Seq<(u32, u32)>> = None;
        let did = self.dwarves[i].id.0;
        let cur = self.dwarves[i].pos;
        assert(coord_ok(cur));
        let need = match self.paths.get(&did) {
            Some(p) => p.len() == 0,
            None => true,
        };
        assert(need == (!s0.paths.contains_key(did) || s0.paths[did].len() == 0));
        if need {
            match find_path(map, cur, dest) {
                Some(p) => {
                    proof {
                        lemma_route_in_range(map@, cur, dest, p@);
                        lemma_route_fits(map@, cur, dest, p@);
                        lemma_paths_insert(self.paths@, did, p);
                        fresh = Some(p@);
                    }
                    let _ = self.paths.insert(did, p);
                },
                None => {},
            }
        }
        let ghost paths1 = paths_view(self.paths@);
        assert(match fresh {
            Some(q) => paths1 == s0.paths.insert(did, q) && route_fits(q, cur),
            None => paths1 == s0.paths,
        });
        proof {
            if routes_ok(s0) {
                assert forall|k: int|
                    0 <= k < s0.dwarves.len() && paths1.contains_key((#[trigger] s0.dwarves[k]).id.0) implies route_fits(
                    paths1[s0.dwarves[k].id.0],
                    s0.dwarves[k].pos,
                ) by {
                    if s0.dwarves[k].id.0 == did && k != i {
                        if k < i {
                            assert(s0.dwarves[k].id != s0.dwarves[i as int].id);
                        } else {
                            assert(s0.dwarves[i as int].id != s0.dwarves[k].id);
                        }
                    }
                }
                lemma_follow_route(s0, i as int, paths1);
            }
        }
        assert(forall|key: u32, k: int|
            paths1.contains_key(key) && 0 <= k < paths1[key].len() ==> coord_ok(#[trigger] paths1[key][k]));
        let ghost m1 = self.paths@;
        match self.paths.remove(&did) {
            Some(p) => {
                let mut p = p;
                assert(p@ == paths1[did]);
                if p.len() > 0 && p[0].0 == cur.0 && p[0].1 == cur.1 {
                    let _ = p.remove(0);
                    assert(p@ == paths1[did].drop_first());
                }
                let ghost p2 = p@;
                if p.len() > 0 {
                    let next = p[0];
                    set_dwarf_pos(&mut self.dwarves, i, next);
                    let _ = p.remove(0);
                    assert(p@ == p2.drop_first());
                }
                proof {
                    lemma_paths_remove(m1, did);
                    lemma_paths_insert(m1.remove(did), did, p);
                    assert(m1.remove(did).insert(did, p) =~= m1.insert(did, p));
                    lemma_paths_insert(m1, did, p);
                }
                let _ = self.paths.insert(did, p);
            },
            None => {
                proof {
                    lemma_paths_remove(m1, did);
                    assert(m1.remove(did) =~= m1);
                }
            },
        }
        assert(self.model() =~= walk(s0, map@, i as int, dest));
        proof {
            assert(self.model() == follow_route(s0, i as int, paths1));
            assert forall|k: int| 0 <= k < s0.dwarves.len() && k != i implies (#[trigger] self.model().dwarves[k]).pos
                == s0.dwarves[k].pos by {}
        }
    }

    /// Dwarf `i` carries out its job at the work place.
    fn finish_turn(&mut self, map: &mut TileMap, i: usize, jid: JobId, kind: JobKind, sig: NeedSignals) -> (e:
        NeedEffects)
        requires
            i < old(self).dwarves@.len(),
            old(map)@.wf(),
            old(self).next_item_id < u32::MAX,
        ensures
            (final(self).model(), final(map)@, e) == finish_job(old(self).model(), old(map)@, i as int, jid, kind, sig),
    {
        let ghost s0 = self.model();
        let did = self.dwarves[i].id.0;
        match kind {
            JobKind::Dig { pos } => {
                let mat = match map.get(pos.0, pos.1) {
                    Some(t) => t.material,
                    None => Material::Empty,
                };
                match map.get_mut(pos.0, pos.1) {
                    Some(tile) => {
                        tile.kind = TileKind::Floor;
                        tile.designated = None;
                    },
                    None => {},
                }
                let item_id = ItemId(self.next_item_id);
                self.next_item_id = self.next_item_id + 1;
                self.items.push(Item { id: item_id, pos, material: mat, kind: ItemKind::Rock });
                self.job_queue.complete(jid);
                set_dwarf_job(&mut self.dwarves, i, None);
                let ghost m = self.paths@;
                let _ = self.paths.remove(&did);
                proof {
                    lemma_paths_remove(m, did);
                }
                assert(self.model() =~= finish_job(s0, old(map)@, i as int, jid, kind, sig).0);
                NeedEffects { ate: false, drank: false, napped: false }
            },
            JobKind::Sleep => {
                if sig.rested_after_nap {
                    self.job_queue.complete(jid);
                    set_dwarf_job(&mut self.dwarves, i, None);
                }
                assert(self.model() =~= finish_job(s0, old(map)@, i as int, jid, kind, sig).0);
                NeedEffects { ate: false, drank: false, napped: true }
            },
            JobKind::Eat(item_id) => {
                remove_items_with_id(&mut self.items, item_id);
                self.job_queue.complete(jid);
                set_dwarf_job(&mut self.dwarves, i, None);
                let ghost m = self.paths@;
                let _ = self.paths.remove(&did);
                proof {
                    lemma_paths_remove(m, did);
                }
                assert(self.model() =~= finish_job(s0, old(map)@, i as int, jid, kind, sig).0);
                NeedEffects { ate: true, drank: false, napped: false }
            },
            JobKind::Drink(item_id) => {
                remove_items_with_id(&mut self.items, item_id);
                self.job_queue.complete(jid);
                set_dwarf_job(&mut self.dwarves, i, None);
                let ghost m = self.paths@;
                let _ = self.paths.remove(&did);
                proof {
                    lemma_paths_remove(m, did);
                }
                assert(self.model() =~= finish_job(s0, old(map)@, i as int, jid, kind, sig).0);
                NeedEffects { ate: false, drank: true, napped: false }
            },
            JobKind::Haul { item: item_id, dest } => {
                move_item(&mut self.items, item_id, dest);
                self.job_queue.complete(jid);
                set_dwarf_job(&mut self.dwarves, i, None);
                let ghost m = self.paths@;
                let _ = self.paths.remove(&did);
                proof {
                    lemma_paths_remove(m, did);
                }
                assert(self.model() =~= finish_job(s0, old(map)@, i as int, jid, kind, sig).0);
                NeedEffects { ate: false, drank: false, napped: false }
            },
        }
    }
}


impl SimState {
    /// The work phase of dwarf `i`'s turn.
    fn advance_turn(&mut self, map: &mut TileMap, i: usize, sig: NeedSignals) -> (e: NeedEffects)
        requires
            i < old(self).dwarves@.len(),
            searchable(old(map)@),
            positions_ok(old(self).model()),
            old(self).next_item_id < u32::MAX,
        ensures
            (final(self).model(), final(map)@, e) == advance_phase(old(self).model(), old(map)@, i as int, sig),
            positions_ok(final(self).model()),
            searchable(final(map)@),
            final(map)@.width == old(map)@.width,
            final(map)@.height == old(map)@.height,
            final(self).dwarves@.len() == old(self).dwarves@.len(),
            final(self).job_queue.next_id == old(self).job_queue.next_id,
            final(self).next_item_id == old(self).next_item_id || final(self).next_item_id == old(self).next_item_id + 1,
            final(self).time.tick == old(self).time.tick,
            only_walker(old(self).model(), final(self).model(), i as int),
            routes_ok(old(self).model()) ==> routes_ok(final(self).model()) && manhattan_spec(
                old(self).dwarves@[i as int].pos,
                final(self).dwarves@[i as int].pos,
            ) <= 1,
    {
        let ghost s0 = self.model();
        match self.dwarves[i].job {
            None => NeedEffects { ate: false, drank: false, napped: false },
            Some(jid) => {
                match find_job(&self.job_queue.jobs, jid) {
                    None => {
                        let did = self.dwarves[i].id.0;
                        set_dwarf_job(&mut self.dwarves, i, None);
                        let ghost m = self.paths@;
                        let _ = self.paths.remove(&did);
                        proof {
                            lemma_paths_remove(m, did);
                        }
                        assert(self.model() =~= advance_phase(s0, old(map)@, i as int, sig).0);
                        assert forall|key: u32, k: int|
                            self.model().paths.contains_key(key) && 0 <= k < self.model().paths[key].len() implies coord_ok(
                            #[trigger] self.model().paths[key][k],
                        ) by {
                            assert(s0.paths.contains_key(key));
                        }
                        assert forall|k: int| 0 <= k < self.dwarves@.len() implies coord_ok(
                            (#[trigger] self.dwarves@[k]).pos,
                        ) by {
                            assert(self.dwarves@[k].pos == s0.dwarves[k].pos);
                        }
                        proof {
                            let t = self.model();
                            assert forall|k: int| 0 <= k < s0.dwarves.len() implies (#[trigger] t.dwarves[k]).id
                                == s0.dwarves[k].id && t.dwarves[k].pos == s0.dwarves[k].pos by {
                                if k != i {
                                    assert(t.dwarves[k] == s0.dwarves[k]);
                                }
                            }
                            assert(calm(s0, t));
                            if routes_ok(s0) {
                                lemma_calm_keeps_routes(s0, t);
                            }
                        }
                        NeedEffects { ate: false, drank: false, napped: false }
                    },
                    Some(job) => {
                        proof {
                            lemma_find_index(s0.jobs, has_id(jid));
                        }
                        assert(job_spots_ok(job));
                        let dest: Option<(u32, u32)> = match job.kind {
                            JobKind::Dig { pos } => Some(pos),
                            JobKind::Haul { dest, .. } => Some(dest),
                            JobKind::Eat(it) => match find_item(&self.items, ItemQuery::WithId(it)) {
                                Some(x) => Some(x.pos),
                                None => None,
                            },
                            JobKind::Drink(it) => match find_item(&self.items, ItemQuery::WithId(it)) {
                                Some(x) => Some(x.pos),
                                None => None,
                            },
                            JobKind::Sleep => Some(self.dwarves[i].pos),
                        };
                        assert(dest == job_dest(s0, i as int, job.kind));
                        match dest {
                            None => NeedEffects { ate: false, drank: false, napped: false },
                            Some(dest) => {
                                proof {
                                    lemma_find_index(s0.items, item_matches(ItemQuery::WithId(jid_item(job.kind))));
                                }
                                assert(coord_ok(dest));
                                let cur = self.dwarves[i].pos;
                                assert(coord_ok(cur));
                                if is_near(cur, dest) {
                                    proof {
                                        lemma_finish_ok(s0, old(map)@, i as int, jid, job.kind, sig);
                                        lemma_finish_calm(s0, old(map)@, i as int, jid, job.kind, sig);
                                        if routes_ok(s0) {
                                            lemma_calm_keeps_routes(
                                                s0,
                                                finish_job(s0, old(map)@, i as int, jid, job.kind, sig).0,
                                            );
                                        }
                                    }
                                    self.finish_turn(map, i, jid, job.kind, sig)
                                } else {
                                    self.walk_turn(map, i, dest);
                                    NeedEffects { ate: false, drank: false, napped: false }
                                }
                            },
                        }
                    },
                }
            },
        }
    }

    /// One tick of the simulation: the clock advances, then each dwarf in
    /// turn files a job for a pressing need, claims the most urgent open job
    /// if idle, and walks to or carries out its job. `signals[i]` reports the
    /// needs of dwarf `i`; the result reports, per dwarf, which needs were
    /// met, for the caller to apply.
    pub fn step(&mut self, map: &mut TileMap, signals: &Vec<NeedSignals>) -> (effects: Vec<NeedEffects>)
        requires
            signals@.len() == old(self).dwarves@.len(),
            searchable(old(map)@),
            old(self).time.tick < u64::MAX,
            old(self).job_queue.next_id + old(self).dwarves@.len() <= u32::MAX,
            old(self).next_item_id + old(self).dwarves@.len() <= u32::MAX,
            positions_ok(old(self).model()),
        ensures
            (final(self).model(), final(map)@, effects@) == step_spec(old(self).model(), old(map)@, signals@),
            positions_ok(final(self).model()),
            searchable(final(map)@),
            final(map)@.width == old(map)@.width,
            final(map)@.height == old(map)@.height,
            final(self).dwarves@.len() == old(self).dwarves@.len(),
            final(self).time.tick == old(self).time.tick + 1,
            old(self).job_queue.next_id <= final(self).job_queue.next_id <= old(self).job_queue.next_id
                + old(self).dwarves@.len(),
            old(self).next_item_id <= final(self).next_item_id <= old(self).next_item_id + old(self).dwarves@.len(),
            forall|k: int|
                0 <= k < old(self).dwarves@.len() ==> (#[trigger] final(self).dwarves@[k]).id == old(self).dwarves@[k].id
                    && final(self).dwarves@[k].name == old(self).dwarves@[k].name && final(self).dwarves@[k].inventory
                    == old(self).dwarves@[k].inventory,
            only_dug(old(map)@, final(map)@),
            item_ids_fresh(old(self).items@, old(self).next_item_id) ==> new_items_are_rocks(
                final(self).items@,
                old(self).next_item_id,
            ),
            claims_ok(old(self).model()) ==> claims_ok(final(self).model()),
            item_ids_fresh(old(self).items@, old(self).next_item_id) ==> item_ids_fresh(
                final(self).items@,
                final(self).next_item_id,
            ),
            routes_ok(old(self).model()) ==> routes_ok(final(self).model()),
            routes_ok(old(self).model()) ==> forall|k: int|
                0 <= k < old(self).dwarves@.len() ==> manhattan_spec(
                    old(self).dwarves@[k].pos,
                    (#[trigger] final(self).dwarves@[k]).pos,
                ) <= 1,
    {
        let ghost s_old = self.model();
        let ghost map0 = map@;
        self.time.advance();
        let ghost s1 = self.model();
        assert(s1 =~= SimModel { tick: (s_old.tick + 1) as u64, ..s_old });
        let n = self.dwarves.len();
        let mut effects: Vec<NeedEffects> = Vec::new();
        let mut i: usize = 0;
        while i < n
            invariant
                n == self.dwarves@.len(),
                n == s1.dwarves.len(),
                signals@.len() == n,
                i <= n,
                (self.model(), map@, effects@) == turns(s1, map0, signals@, i as nat),
                positions_ok(self.model()),
                searchable(map@),
                map@.width == map0.width,
                map@.height == map0.height,
                self.time.tick == s1.tick,
                s1.next_job_id <= self.job_queue.next_id <= s1.next_job_id + i,
                s1.next_item_id <= self.next_item_id <= s1.next_item_id + i,
                s1.next_job_id + n <= u32::MAX,
                s1.next_item_id + n <= u32::MAX,
                forall|k: int|
                    0 <= k < n ==> (#[trigger] self.dwarves@[k]).id == s1.dwarves[k].id && self.dwarves@[k].name
                        == s1.dwarves[k].name && self.dwarves@[k].inventory == s1.dwarves[k].inventory,
                only_dug(map0, map@),
                item_ids_fresh(s1.items, s1.next_item_id) ==> new_items_are_rocks(self.items@, s1.next_item_id),
                forall|k: int| i <= k < n ==> (#[trigger] self.dwarves@[k]).pos == s1.dwarves[k].pos,
                claims_ok(s1) ==> claims_ok(self.model()),
                item_ids_fresh(s1.items, s1.next_item_id) ==> item_ids_fresh(self.items@, self.next_item_id),
                routes_ok(s1) ==> routes_ok(self.model()),
                routes_ok(s1) ==> forall|k: int|
                    0 <= k < i ==> manhattan_spec(s1.dwarves[k].pos, (#[trigger] self.dwarves@[k]).pos) <= 1,
            decreases n - i,
        {
            let sig = signals[i];
            let ghost before = self.model();
            let ghost map_before = map@;
            proof {
                if claims_ok(s1) {
                    law_turn_keeps_claims(before, map_before, i as int, sig);
                }
                if item_ids_fresh(s1.items, s1.next_item_id) {
                    law_turn_keeps_item_ids(before, map_before, i as int, sig);
                    law_turn_makes_only_rocks(before, map_before, i as int, sig, s1.next_item_id);
                }
                law_turn_only_digs(before, map_before, i as int, sig);
            }
            proof {
                lemma_needs_phase_ok(self.model(), i as int, sig);
            }
            self.needs_turn(i, sig);
            proof {
                lemma_claim_phase_ok(self.model(), i as int);
                if routes_ok(before) {
                    lemma_calm_keeps_routes(before, self.model());
                }
            }
            let ghost mid = self.model();
            self.claim_turn(i);
            proof {
                if routes_ok(mid) {
                    lemma_calm_keeps_routes(mid, self.model());
                }
            }
            let ghost pre_adv = self.model();
            let e = self.advance_turn(map, i, sig);
            proof {
                assert forall|k: int| 0 <= k < n implies (#[trigger] self.dwarves@[k]).id == s1.dwarves[k].id
                    && self.dwarves@[k].name == s1.dwarves[k].name && self.dwarves@[k].inventory
                    == s1.dwarves[k].inventory by {
                    assert(pre_adv.dwarves[k].id == mid.dwarves[k].id);
                    assert(mid.dwarves[k].id == before.dwarves[k].id);
                    assert(pre_adv.dwarves[k].name == mid.dwarves[k].name);
                    assert(mid.dwarves[k].name == before.dwarves[k].name);
                    assert(pre_adv.dwarves[k].inventory == mid.dwarves[k].inventory);
                    assert(mid.dwarves[k].inventory == before.dwarves[k].inventory);
                }
                lemma_only_dug_trans(map0, map_before, map@);
                assert forall|k: int| i < k < n implies (#[trigger] self.dwarves@[k]).pos == s1.dwarves[k].pos by {
                    assert(pre_adv.dwarves[k].pos == mid.dwarves[k].pos);
                    assert(mid.dwarves[k].pos == before.dwarves[k].pos);
                }
                if routes_ok(s1) {
                    assert(pre_adv.dwarves[i as int].pos == before.dwarves[i as int].pos);
                    assert(mid.dwarves[i as int].pos == before.dwarves[i as int].pos);
                    assert forall|k: int| 0 <= k < i + 1 implies manhattan_spec(
                        s1.dwarves[k].pos,
                        (#[trigger] self.dwarves@[k]).pos,
                    ) <= 1 by {
                        if k < i {
                            assert(pre_adv.dwarves[k].pos == mid.dwarves[k].pos);
                            assert(mid.dwarves[k].pos == before.dwarves[k].pos);
                        }
                    }
                }
            }
            effects.push(e);
            i = i + 1;
        }
        proof {
            assert(routes_ok(s_old) == routes_ok(s1));
            assert(claims_ok(s_old) == claims_ok(s1));
        }
        effects
    }
}


/// The number of dwarves a new colony starts with.
pub const STARTING_DWARVES: usize = 3;

impl SimState {
    /// A new colony: Urist, Bomrek and Fikod (ids 0, 1, 2) standing side by
    /// side from (31, 31), idle and empty-handed; no items, no jobs, no routes,
    /// and the clock at tick 0.
    pub fn new() -> (s: SimState)
        ensures
            s.dwarves@.len() == STARTING_DWARVES,
            forall|k: int|
                0 <= k < STARTING_DWARVES ==> {
                    &&& (#[trigger] s.dwarves@[k]).id == EntityId(k as u32)
                    &&& s.dwarves@[k].pos == ((31 + k) as u32, 31u32)
                    &&& s.dwarves@[k].job is None
                    &&& s.dwarves@[k].inventory@.len() == 0
                },
            s.dwarves@[0].name@ == "Urist"@,
            s.dwarves@[1].name@ == "Bomrek"@,
            s.dwarves@[2].name@ == "Fikod"@,
            s.items@.len() == 0,
            s.job_queue.jobs@.len() == 0,
            s.job_queue.next_id == 0,
            s.time.tick == 0,
            s.paths@ == Map::<u32, Vec<(u32, u32)>>::empty(),
            s.next_item_id == 0,
            positions_ok(s.model()),
            routes_ok(s.model()),
            claims_ok(s.model()),
            item_ids_fresh(s.items@, s.next_item_id),
    {
        let mut dwarves: Vec<Dwarf> = Vec::new();
        dwarves.push(
            Dwarf { id: EntityId(0), name: "Urist".to_string(), pos: (31, 31), job: None, inventory: Vec::new() },
        );
        dwarves.push(
            Dwarf { id: EntityId(1), name: "Bomrek".to_string(), pos: (32, 31), job: None, inventory: Vec::new() },
        );
        dwarves.push(
            Dwarf { id: EntityId(2), name: "Fikod".to_string(), pos: (33, 31), job: None, inventory: Vec::new() },
        );
        let s = SimState {
            dwarves,
            items: Vec::new(),
            job_queue: JobQueue::new(),
            time: SimTime::new(),
            paths: HashMap::new(),
            next_item_id: 0,
        };
        assert forall|key: u32, k: int|
            s.model().paths.contains_key(key) && 0 <= k < s.model().paths[key].len() implies coord_ok(
            #[trigger] s.model().paths[key][k],
        ) by {}
        s
    }
}

} // verus!
