//! Ids, items, the clock, and the job queue with its claim rules.

use vstd::prelude::*;
use crate::seqs::{find_index, lemma_find_index, lemma_find_index_is, lemma_find_index_none};
use crate::world::Material;

verus! {

broadcast use vstd::seq_lib::group_seq_properties;

/// Identifies a creature.
#[derive(Clone, Copy, Debug, PartialEq, Eq, Hash, Structural)]
pub struct EntityId(pub u32);

/// Identifies an item lying on the map.
#[derive(Clone, Copy, Debug, PartialEq, Eq, Hash, Structural)]
pub struct ItemId(pub u32);

/// Identifies a job in the queue.
#[derive(Clone, Copy, Debug, PartialEq, Eq, Hash, Structural)]
pub struct JobId(pub u32);

#[derive(Clone, Copy, Debug, PartialEq, Eq, Structural)]
pub enum ItemKind {
    Rock,
    Log,
    Food,
    Drink,
    Plank,
    Block,
    Meal,
}

/// An item lying on the map.
#[derive(Clone, Copy, Debug, PartialEq, Eq)]
pub struct Item {
    pub id: ItemId,
    pub pos: (u32, u32),
    pub material: Material,
    pub kind: ItemKind,
}

/// Every item id is below `next` and no id occurs twice.
pub open spec fn item_ids_fresh(items: Seq<Item>, next: u32) -> bool {
    &&& forall|i: int| 0 <= i < items.len() ==> (#[trigger] items[i]).id.0 < next
    &&& forall|i: int, j: int| 0 <= i < j < items.len() ==> (#[trigger] items[i]).id != (#[trigger] items[j]).id
}

/// Adding an item under the next fresh id keeps ids fresh and unique.
pub proof fn lemma_push_fresh_item(items: Seq<Item>, next: u32, it: Item)
    requires
        item_ids_fresh(items, next),
        it.id == ItemId(next),
        next < u32::MAX,
    ensures
        item_ids_fresh(items.push(it), (next + 1) as u32),
{
    let t = items.push(it);
    assert forall|i: int, j: int| 0 <= i < j < t.len() implies (#[trigger] t[i]).id != (#[trigger] t[j]).id by {
        assert(t[i] == items[i]);
        if j < items.len() {
            assert(t[j] == items[j]);
        }
    }
    assert forall|i: int| 0 <= i < t.len() implies (#[trigger] t[i]).id.0 < next + 1 by {
        if i < items.len() {
            assert(t[i] == items[i]);
        }
    }
}

/// Dropping items keeps ids fresh and unique.
pub proof fn lemma_filter_fresh_items(items: Seq<Item>, p: spec_fn(Item) -> bool, next: u32)
    requires
        item_ids_fresh(items, next),
    ensures
        item_ids_fresh(items.filter(p), next),
    decreases items.len(),
{
    reveal(Seq::filter);
    if items.len() > 0 {
        let rest = items.drop_last();
        assert forall|i: int, j: int| 0 <= i < j < rest.len() implies (#[trigger] rest[i]).id != (#[trigger] rest[j]).id by {
            assert(rest[i] == items[i] && rest[j] == items[j]);
        }
        assert forall|i: int| 0 <= i < rest.len() implies (#[trigger] rest[i]).id.0 < next by {
            assert(rest[i] == items[i]);
        }
        lemma_filter_fresh_items(rest, p, next);
        let f = rest.filter(p);
        if p(items.last()) {
            assert forall|k: int| 0 <= k < f.len() implies (#[trigger] f[k]).id != items.last().id by {
                rest.lemma_filter_contains_rev(p, f[k]);
                assert(f.contains(f[k]));
                let m = choose|m: int| 0 <= m < rest.len() && rest[m] == f[k];
                assert(rest[m] == items[m]);
                assert(items[m].id != items[items.len() - 1].id);
            }
        }
    }
}

/// Number of simulation ticks in one in-game day.
pub const TICKS_PER_DAY: u64 = 1000;

/// The simulation clock.
#[derive(Clone, Copy, Debug, PartialEq, Eq, Structural)]
pub struct SimTime {
    pub tick: u64,
}

impl SimTime {
    pub fn new() -> (t: SimTime)
        ensures
            t.tick == 0,
    {
        SimTime { tick: 0 }
    }

    /// Moves the clock forward by one tick.
    pub fn advance(&mut self)
        requires
            old(self).tick < u64::MAX,
        ensures
            final(self).tick == old(self).tick + 1,
    {
        self.tick = self.tick + 1;
    }

    /// The number of whole days that have passed.
    pub fn day(&self) -> (d: u64)
        ensures
            d == self.tick / TICKS_PER_DAY,
    {
        self.tick / TICKS_PER_DAY
    }

    pub fn ticks_per_day() -> (n: u64)
        ensures
            n == TICKS_PER_DAY,
    {
        TICKS_PER_DAY
    }
}

impl Default for SimTime {
    fn default() -> (t: SimTime)
        ensures
            t.tick == 0,
    {
        SimTime::new()
    }
}

/// Law: the day counter goes up by one exactly when a tick completes a day,
/// and stays put otherwise.
pub proof fn law_day_turns_every_thousand_ticks(tick: u64)
    requires
        tick < u64::MAX,
    ensures
        (tick as int + 1) / 1000 == (tick as int) / 1000 + (if (tick as int + 1) % 1000 == 0 {
            1int
        } else {
            0int
        }),
{
}

/// What a job asks a dwarf to do.
#[derive(Clone, Copy, Debug, PartialEq, Eq)]
pub enum JobKind {
    Dig { pos: (u32, u32) },
    Haul { item: ItemId, dest: (u32, u32) },
    Eat(ItemId),
    Drink(ItemId),
    Sleep,
}

/// Urgency of a job; earlier variants are served first.
#[derive(Clone, Copy, Debug, PartialEq, Eq, PartialOrd, Ord, Structural)]
pub enum JobPriority {
    Critical,
    Basic,
    Low,
}

/// Rank of a priority: `Critical` is served before `Basic`, before `Low`.
pub open spec fn priority_rank(p: JobPriority) -> int {
    match p {
        JobPriority::Critical => 0,
        JobPriority::Basic => 1,
        JobPriority::Low => 2,
    }
}

#[derive(Clone, Copy, Debug, PartialEq, Eq)]
pub struct Job {
    pub id: JobId,
    pub kind: JobKind,
    pub priority: JobPriority,
    pub claimed_by: Option<EntityId>,
}

/// Jobs that nobody has claimed and that carry the given id.
pub open spec fn claimable(id: JobId) -> spec_fn(Job) -> bool {
    |j: Job| j.id == id && j.claimed_by is None
}

/// Jobs carrying the given id.
pub open spec fn has_id(id: JobId) -> spec_fn(Job) -> bool {
    |j: Job| j.id == id
}

/// Jobs not carrying the given id.
pub open spec fn lacks_id(id: JobId) -> spec_fn(Job) -> bool {
    |j: Job| j.id != id
}

/// Unclaimed jobs of the given priority.
pub open spec fn open_at(p: JobPriority) -> spec_fn(Job) -> bool {
    |j: Job| j.claimed_by is None && j.priority == p
}

/// The queue after appending a new unclaimed job under the next fresh id.
pub open spec fn push_spec(jobs: Seq<Job>, next_id: u32, kind: JobKind, priority: JobPriority) -> Seq<Job> {
    jobs.push(Job { id: JobId(next_id), kind, priority, claimed_by: None })
}

/// Claiming marks the first unclaimed job with the id as taken by `e`;
/// the flag says whether there was one.
pub open spec fn claim_spec(jobs: Seq<Job>, id: JobId, e: EntityId) -> (Seq<Job>, bool) {
    match find_index(jobs, claimable(id)) {
        Some(k) => (jobs.update(k, Job { claimed_by: Some(e), ..jobs[k] }), true),
        None => (jobs, false),
    }
}

/// Releasing clears the claim on the first job with the id.
pub open spec fn release_spec(jobs: Seq<Job>, id: JobId) -> Seq<Job> {
    match find_index(jobs, has_id(id)) {
        Some(k) => jobs.update(k, Job { claimed_by: None, ..jobs[k] }),
        None => jobs,
    }
}

/// Completing drops every job with the id.
pub open spec fn complete_spec(jobs: Seq<Job>, id: JobId) -> Seq<Job> {
    jobs.filter(lacks_id(id))
}

/// The unclaimed jobs, most urgent first, in queue order within one priority.
pub open spec fn unclaimed_spec(jobs: Seq<Job>) -> Seq<Job> {
    jobs.filter(open_at(JobPriority::Critical)) + jobs.filter(open_at(JobPriority::Basic)) + jobs.filter(
        open_at(JobPriority::Low),
    )
}

/// Every job id in the queue is below `next_id` and no id occurs twice.
pub open spec fn ids_fresh_and_unique(jobs: Seq<Job>, next_id: u32) -> bool {
    &&& forall|i: int| 0 <= i < jobs.len() ==> (#[trigger] jobs[i]).id.0 < next_id
    &&& forall|i: int, j: int| 0 <= i < j < jobs.len() ==> (#[trigger] jobs[i]).id != (#[trigger] jobs[j]).id
}

/// The list of pending jobs and the counter that hands out job ids.
#[derive(Clone, Debug)]
pub struct JobQueue {
    pub jobs: Vec<Job>,
    pub next_id: u32,
}

impl JobQueue {
    pub open spec fn wf(&self) -> bool {
        ids_fresh_and_unique(self.jobs@, self.next_id)
    }

    pub fn new() -> (q: JobQueue)
        ensures
            q.jobs@ == Seq::<Job>::empty(),
            q.next_id == 0,
            q.wf(),
    {
        JobQueue { jobs: Vec::new(), next_id: 0 }
    }

    /// Appends an unclaimed job under a fresh id and returns that id.
    pub fn push(&mut self, kind: JobKind, priority: JobPriority) -> (id: JobId)
        requires
            old(self).next_id < u32::MAX,
        ensures
            id == JobId(old(self).next_id),
            final(self).next_id == old(self).next_id + 1,
            final(self).jobs@ == push_spec(old(self).jobs@, old(self).next_id, kind, priority),
            old(self).wf() ==> final(self).wf(),
    {
        let id = JobId(self.next_id);
        self.next_id = self.next_id + 1;
        self.jobs.push(Job { id, kind, priority, claimed_by: None });
        id
    }

    /// Gives the first unclaimed job with this id to `entity`; false when
    /// there is none.
    pub fn claim(&mut self, job_id: JobId, entity: EntityId) -> (r: bool)
        ensures
            (final(self).jobs@, r) == claim_spec(old(self).jobs@, job_id, entity),
            final(self).next_id == old(self).next_id,
            old(self).wf() ==> final(self).wf(),
    {
        let n = self.jobs.len();
        let mut i: usize = 0;
        while i < n
            invariant
                n == self.jobs@.len(),
                i <= n,
                self.jobs@ == old(self).jobs@,
                self.next_id == old(self).next_id,
                forall|j: int| 0 <= j < i ==> !claimable(job_id)(#[trigger] self.jobs@[j]),
            decreases n - i,
        {
            let job = self.jobs[i];
            if job.id == job_id && job.claimed_by.is_none() {
                proof {
                    lemma_find_index_is(self.jobs@, claimable(job_id), i as int);
                }
                self.jobs.set(i, Job { claimed_by: Some(entity), ..job });
                return true;
            }
            i = i + 1;
        }
        proof {
            lemma_find_index_none(self.jobs@, claimable(job_id));
        }
        false
    }

    /// Clears the claim on the first job with this id, if any.
    pub fn release(&mut self, job_id: JobId)
        ensures
            final(self).jobs@ == release_spec(old(self).jobs@, job_id),
            final(self).next_id == old(self).next_id,
            old(self).wf() ==> final(self).wf(),
    {
        let n = self.jobs.len();
        let mut i: usize = 0;
        while i < n
            invariant
                n == self.jobs@.len(),
                i <= n,
                self.jobs@ == old(self).jobs@,
                self.next_id == old(self).next_id,
                forall|j: int| 0 <= j < i ==> !has_id(job_id)(#[trigger] self.jobs@[j]),
            decreases n - i,
        {
            let job = self.jobs[i];
            if job.id == job_id {
                proof {
                    lemma_find_index_is(self.jobs@, has_id(job_id), i as int);
                }
                self.jobs.set(i, Job { claimed_by: None, ..job });
                return;
            }
            i = i + 1;
        }
        proof {
            lemma_find_index_none(self.jobs@, has_id(job_id));
        }
    }

    /// Removes every job with this id.
    pub fn complete(&mut self, job_id: JobId)
        ensures
            final(self).jobs@ == complete_spec(old(self).jobs@, job_id),
            final(self).next_id == old(self).next_id,
            old(self).wf() ==> final(self).wf(),
    {
        let ghost old_jobs = self.jobs@;
        let n = self.jobs.len();
        let mut kept: Vec<Job> = Vec::new();
        let mut i: usize = 0;
        while i < n
            invariant
                n == self.jobs@.len(),
                i <= n,
                self.jobs@ == old_jobs,
                kept@ == old_jobs.take(i as int).filter(lacks_id(job_id)),
            decreases n - i,
        {
            let job = self.jobs[i];
            proof {
                old_jobs.take(i as int).lemma_filter_push(job, lacks_id(job_id));
                assert(old_jobs.take(i as int).push(job) == old_jobs.take(i + 1));
            }
            if job.id != job_id {
                kept.push(job);
            }
            i = i + 1;
        }
        assert(old_jobs.take(n as int) == old_jobs);
        self.jobs = kept;
        proof {
            if old(self).wf() {
                lemma_filter_keeps_fresh_unique(old_jobs, lacks_id(job_id), self.next_id);
            }
        }
    }

    /// The unclaimed jobs, most urgent first; within one priority they keep
    /// their queue order.
    pub fn unclaimed(&self) -> (r: Vec<&Job>)
        ensures
            r@.map_values(|j: &Job| *j) == unclaimed_spec(self.jobs@),
    {
        let ghost jobs = self.jobs@;
        let n = self.jobs.len();
        let mut out: Vec<&Job> = Vec::new();
        let mut round: usize = 0;
        let ghost mut done: Seq<Job> = Seq::empty();
        while round < 3
            invariant
                jobs == self.jobs@,
                n == jobs.len(),
                round <= 3,
                out@.map_values(|j: &Job| *j) == done,
                done == (if round == 0 {
                    Seq::<Job>::empty()
                } else if round == 1 {
                    jobs.filter(open_at(JobPriority::Critical))
                } else if round == 2 {
                    jobs.filter(open_at(JobPriority::Critical)) + jobs.filter(open_at(JobPriority::Basic))
                } else {
                    unclaimed_spec(jobs)
                }),
            decreases 3 - round,
        {
            let prio = if round == 0 {
                JobPriority::Critical
            } else if round == 1 {
                JobPriority::Basic
            } else {
                JobPriority::Low
            };
            let ghost before = done;
            let mut i: usize = 0;
            while i < n
                invariant
                    jobs == self.jobs@,
                    n == jobs.len(),
                    i <= n,
                    out@.map_values(|j: &Job| *j) == before + jobs.take(i as int).filter(open_at(prio)),
                decreases n - i,
            {
                let job = &self.jobs[i];
                proof {
                    jobs.take(i as int).lemma_filter_push(*job, open_at(prio));
                    assert(jobs.take(i as int).push(*job) == jobs.take(i + 1));
                }
                let ghost prev = out@;
                if job.claimed_by.is_none() && job.priority == prio {
                    out.push(job);
                    assert(out@.map_values(|j: &Job| *j) == prev.map_values(|j: &Job| *j).push(*job));
                }
                i = i + 1;
            }
            assert(jobs.take(n as int) == jobs);
            proof {
                done = before + jobs.filter(open_at(prio));
            }
            round = round + 1;
        }
        out
    }
}

impl Default for JobQueue {
    fn default() -> (q: JobQueue)
        ensures
            q.jobs@ == Seq::<Job>::empty(),
            q.next_id == 0,
    {
        JobQueue::new()
    }
}

/// Filtering a queue keeps its ids fresh and unique.
pub proof fn lemma_filter_keeps_fresh_unique(jobs: Seq<Job>, p: spec_fn(Job) -> bool, next_id: u32)
    requires
        ids_fresh_and_unique(jobs, next_id),
    ensures
        ids_fresh_and_unique(jobs.filter(p), next_id),
    decreases jobs.len(),
{
    reveal(Seq::filter);
    if jobs.len() > 0 {
        let rest = jobs.drop_last();
        assert forall|i: int, j: int| 0 <= i < j < rest.len() implies (#[trigger] rest[i]).id != (#[trigger] rest[j]).id by {
            assert(rest[i] == jobs[i] && rest[j] == jobs[j]);
        }
        assert forall|i: int| 0 <= i < rest.len() implies (#[trigger] rest[i]).id.0 < next_id by {
            assert(rest[i] == jobs[i]);
        }
        lemma_filter_keeps_fresh_unique(rest, p, next_id);
        let f = rest.filter(p);
        if p(jobs.last()) {
            assert forall|k: int| 0 <= k < f.len() implies (#[trigger] f[k]).id != jobs.last().id by {
                rest.lemma_filter_contains_rev(p, f[k]);
                assert(f.contains(f[k]));
                let m = choose|m: int| 0 <= m < rest.len() && rest[m] == f[k];
                assert(rest[m] == jobs[m]);
                assert(jobs[m].id != jobs[jobs.len() - 1].id);
            }
            assert forall|k: int| 0 <= k < f.len() implies (#[trigger] f[k]).id.0 < next_id by {
                rest.lemma_filter_contains_rev(p, f[k]);
                assert(f.contains(f[k]));
            }
        }
    }
}


/// Law: a fresh job can be claimed. Right after a push onto a queue with
/// fresh, unique ids, claiming the returned id succeeds and gives exactly the
/// new job to the claimant.
pub proof fn law_pushed_job_is_claimable(
    jobs: Seq<Job>,
    next_id: u32,
    kind: JobKind,
    priority: JobPriority,
    e: EntityId,
)
    requires
        ids_fresh_and_unique(jobs, next_id),
    ensures
        ({
            let pushed = push_spec(jobs, next_id, kind, priority);
            let r = claim_spec(pushed, JobId(next_id), e);
            &&& r.1
            &&& r.0 == jobs.push(Job { id: JobId(next_id), kind, priority, claimed_by: Some(e) })
        }),
{
    let pushed = push_spec(jobs, next_id, kind, priority);
    assert forall|j: int| 0 <= j < jobs.len() implies !claimable(JobId(next_id))(#[trigger] pushed[j]) by {
        assert(pushed[j] == jobs[j]);
    }
    lemma_find_index_is(pushed, claimable(JobId(next_id)), jobs.len() as int);
    assert(claim_spec(pushed, JobId(next_id), e).0 =~= jobs.push(
        Job { id: JobId(next_id), kind, priority, claimed_by: Some(e) },
    ));
}

/// Law: a job is worked by one dwarf at a time. Once a claim succeeds, any
/// further claim of the same id fails and leaves the queue unchanged, as
/// long as ids are unique.
pub proof fn law_claim_is_exclusive(jobs: Seq<Job>, next_id: u32, id: JobId, e1: EntityId, e2: EntityId)
    requires
        ids_fresh_and_unique(jobs, next_id),
        claim_spec(jobs, id, e1).1,
    ensures
        !claim_spec(claim_spec(jobs, id, e1).0, id, e2).1,
        claim_spec(claim_spec(jobs, id, e1).0, id, e2).0 == claim_spec(jobs, id, e1).0,
{
    lemma_find_index(jobs, claimable(id));
    let k = find_index(jobs, claimable(id)).unwrap();
    let after = claim_spec(jobs, id, e1).0;
    assert forall|j: int| 0 <= j < after.len() implies !claimable(id)(#[trigger] after[j]) by {
        if j != k {
            assert(after[j] == jobs[j]);
            assert(jobs[j].id != jobs[k].id);
        }
    }
    lemma_find_index_none(after, claimable(id));
}

/// Law: releasing undoes claiming. On a queue with unique ids, claiming a job
/// and then releasing it gives back the original queue.
pub proof fn law_release_undoes_claim(jobs: Seq<Job>, next_id: u32, id: JobId, e: EntityId)
    requires
        ids_fresh_and_unique(jobs, next_id),
        claim_spec(jobs, id, e).1,
    ensures
        release_spec(claim_spec(jobs, id, e).0, id) == jobs,
{
    lemma_find_index(jobs, claimable(id));
    let k = find_index(jobs, claimable(id)).unwrap();
    let after = claim_spec(jobs, id, e).0;
    assert forall|j: int| 0 <= j < k implies !has_id(id)(#[trigger] after[j]) by {
        assert(after[j] == jobs[j]);
        assert(jobs[j].id != jobs[k].id);
    }
    lemma_find_index_is(after, has_id(id), k);
    assert(release_spec(after, id) =~= jobs);
}

/// Law: completing a job removes it for good and keeps every other job, in
/// order.
pub proof fn law_complete_removes_only_that_job(jobs: Seq<Job>, id: JobId)
    ensures
        forall|k: int| 0 <= k < complete_spec(jobs, id).len() ==> (#[trigger] complete_spec(jobs, id)[k]).id != id,
        forall|k: int| 0 <= k < jobs.len() && jobs[k].id != id ==> complete_spec(jobs, id).contains(#[trigger] jobs[k]),
{
    jobs.filter_lemma(lacks_id(id));
}

/// Law: the list of unclaimed jobs is ordered by urgency, holds only
/// unclaimed jobs of the queue, and holds all of them.
pub proof fn law_unclaimed_sorted_and_complete(jobs: Seq<Job>)
    ensures
        ({
            let u = unclaimed_spec(jobs);
            &&& forall|a: int, b: int| 0 <= a < b < u.len() ==> priority_rank((#[trigger] u[a]).priority) <= priority_rank(
                (#[trigger] u[b]).priority,
            )
            &&& forall|a: int| 0 <= a < u.len() ==> (#[trigger] u[a]).claimed_by is None && jobs.contains(u[a])
            &&& forall|k: int| 0 <= k < jobs.len() && (#[trigger] jobs[k]).claimed_by is None ==> u.contains(jobs[k])
        }),
{
    let c = jobs.filter(open_at(JobPriority::Critical));
    let b = jobs.filter(open_at(JobPriority::Basic));
    let l = jobs.filter(open_at(JobPriority::Low));
    jobs.filter_lemma(open_at(JobPriority::Critical));
    jobs.filter_lemma(open_at(JobPriority::Basic));
    jobs.filter_lemma(open_at(JobPriority::Low));
    let u = unclaimed_spec(jobs);
    assert(u == c + b + l);
    assert forall|a: int| 0 <= a < u.len() implies (#[trigger] u[a]).claimed_by is None && jobs.contains(u[a]) by {
        if a < c.len() {
            assert(u[a] == c[a]);
            jobs.lemma_filter_contains_rev(open_at(JobPriority::Critical), c[a]);
            assert(c.contains(c[a]));
        } else if a < c.len() + b.len() {
            assert(u[a] == b[a - c.len()]);
            jobs.lemma_filter_contains_rev(open_at(JobPriority::Basic), b[a - c.len()]);
            assert(b.contains(b[a - c.len()]));
        } else {
            assert(u[a] == l[a - c.len() - b.len()]);
            jobs.lemma_filter_contains_rev(open_at(JobPriority::Low), l[a - c.len() - b.len()]);
            assert(l.contains(l[a - c.len() - b.len()]));
        }
    }
    assert forall|a: int, bb: int| 0 <= a < bb < u.len() implies priority_rank((#[trigger] u[a]).priority)
        <= priority_rank((#[trigger] u[bb]).priority) by {
        let ra = if a < c.len() {
            assert(u[a] == c[a]);
            0int
        } else if a < c.len() + b.len() {
            assert(u[a] == b[a - c.len()]);
            1int
        } else {
            assert(u[a] == l[a - c.len() - b.len()]);
            2int
        };
        let rb = if bb < c.len() {
            assert(u[bb] == c[bb]);
            0int
        } else if bb < c.len() + b.len() {
            assert(u[bb] == b[bb - c.len()]);
            1int
        } else {
            assert(u[bb] == l[bb - c.len() - b.len()]);
            2int
        };
        assert(priority_rank(u[a].priority) == ra);
        assert(priority_rank(u[bb].priority) == rb);
    }
    assert forall|k: int| 0 <= k < jobs.len() && (#[trigger] jobs[k]).claimed_by is None implies u.contains(jobs[k]) by {
        let x = jobs[k];
        match x.priority {
            JobPriority::Critical => {
                assert(c.contains(x));
                let i = choose|i: int| 0 <= i < c.len() && c[i] == x;
                assert(u[i] == x);
            },
            JobPriority::Basic => {
                assert(b.contains(x));
                let i = choose|i: int| 0 <= i < b.len() && b[i] == x;
                assert(u[c.len() + i] == x);
            },
            JobPriority::Low => {
                assert(l.contains(x));
                let i = choose|i: int| 0 <= i < l.len() && l[i] == x;
                assert(u[c.len() + b.len() + i] == x);
            },
        }
    }
}

/// Law: claiming succeeds exactly when the job with the id is still
/// unclaimed; it then marks that job, and only it, as taken by the claimant.
/// Claiming a taken or missing job changes nothing.
pub proof fn law_claim_outcome(jobs: Seq<Job>, next_id: u32, id: JobId, e: EntityId, k: int)
    requires
        ids_fresh_and_unique(jobs, next_id),
        0 <= k < jobs.len(),
        jobs[k].id == id,
    ensures
        claim_spec(jobs, id, e).1 <==> jobs[k].claimed_by is None,
        jobs[k].claimed_by is None ==> claim_spec(jobs, id, e).0 == jobs.update(
            k,
            Job { id: jobs[k].id, kind: jobs[k].kind, priority: jobs[k].priority, claimed_by: Some(e) },
        ),
        jobs[k].claimed_by is Some ==> claim_spec(jobs, id, e).0 == jobs,
{
    assert forall|j: int| 0 <= j < jobs.len() && j != k implies !claimable(id)(#[trigger] jobs[j]) by {
        if j < k {
            assert(jobs[j].id != jobs[k].id);
        } else {
            assert(jobs[k].id != jobs[j].id);
        }
    }
    if jobs[k].claimed_by is None {
        lemma_find_index_is(jobs, claimable(id), k);
    } else {
        lemma_find_index_none(jobs, claimable(id));
    }
}

/// Law: claiming an id that no job carries fails and changes nothing.
pub proof fn law_claim_of_missing_job_fails(jobs: Seq<Job>, id: JobId, e: EntityId)
    requires
        forall|k: int| 0 <= k < jobs.len() ==> (#[trigger] jobs[k]).id != id,
    ensures
        claim_spec(jobs, id, e) == (jobs, false),
{
    lemma_find_index_none(jobs, claimable(id));
}

/// Law: releasing clears the claim on the job with the id and changes
/// nothing else; releasing an id no job carries changes nothing.
pub proof fn law_release_outcome(jobs: Seq<Job>, next_id: u32, id: JobId, k: int)
    requires
        ids_fresh_and_unique(jobs, next_id),
        0 <= k < jobs.len(),
        jobs[k].id == id,
    ensures
        release_spec(jobs, id) == jobs.update(
            k,
            Job { id: jobs[k].id, kind: jobs[k].kind, priority: jobs[k].priority, claimed_by: None },
        ),
        forall|m: Seq<Job>|
            (forall|j: int| 0 <= j < m.len() ==> (#[trigger] m[j]).id != id) ==> #[trigger] release_spec(m, id) == m,
{
    assert forall|j: int| 0 <= j < k implies !has_id(id)(#[trigger] jobs[j]) by {
        assert(jobs[j].id != jobs[k].id);
    }
    lemma_find_index_is(jobs, has_id(id), k);
    assert forall|m: Seq<Job>| (forall|j: int| 0 <= j < m.len() ==> (#[trigger] m[j]).id != id) implies #[trigger] release_spec(
        m,
        id,
    ) == m by {
        lemma_find_index_none(m, has_id(id));
    }
}

} // verus!
