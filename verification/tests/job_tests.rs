use fortress_sim::jobs::{EntityId, ItemId, JobId, JobKind, JobPriority, JobQueue, SimTime};

#[test]
fn push_hands_out_fresh_ids() {
    let mut q = JobQueue::new();
    let a = q.push(JobKind::Sleep, JobPriority::Low);
    let b = q.push(JobKind::Dig { pos: (1, 2) }, JobPriority::Basic);
    assert_eq!(a, JobId(0));
    assert_eq!(b, JobId(1));
    assert_eq!(q.next_id, 2);
    assert_eq!(q.jobs.len(), 2);
    assert!(q.jobs.iter().all(|j| j.claimed_by.is_none()));
}

#[test]
fn claim_is_exclusive_and_release_undoes_it() {
    let mut q = JobQueue::new();
    let a = q.push(JobKind::Sleep, JobPriority::Basic);
    let before = q.jobs.clone();
    assert!(q.claim(a, EntityId(7)));
    assert_eq!(q.jobs[0].claimed_by, Some(EntityId(7)));
    assert!(!q.claim(a, EntityId(8)));
    assert_eq!(q.jobs[0].claimed_by, Some(EntityId(7)));
    q.release(a);
    assert_eq!(q.jobs, before);
    assert!(!q.claim(JobId(99), EntityId(1)));
}

#[test]
fn complete_removes_the_job() {
    let mut q = JobQueue::new();
    let a = q.push(JobKind::Sleep, JobPriority::Basic);
    let b = q.push(JobKind::Eat(ItemId(3)), JobPriority::Critical);
    q.complete(a);
    assert_eq!(q.jobs.len(), 1);
    assert_eq!(q.jobs[0].id, b);
    q.complete(JobId(42));
    assert_eq!(q.jobs.len(), 1);
}

#[test]
fn unclaimed_is_most_urgent_first_and_stable() {
    let mut q = JobQueue::new();
    let l0 = q.push(JobKind::Sleep, JobPriority::Low);
    let b0 = q.push(JobKind::Dig { pos: (1, 1) }, JobPriority::Basic);
    let c0 = q.push(JobKind::Eat(ItemId(0)), JobPriority::Critical);
    let b1 = q.push(JobKind::Dig { pos: (2, 2) }, JobPriority::Basic);
    let c1 = q.push(JobKind::Drink(ItemId(1)), JobPriority::Critical);
    assert!(q.claim(b1, EntityId(0)));
    let ids: Vec<JobId> = q.unclaimed().iter().map(|j| j.id).collect();
    assert_eq!(ids, vec![c0, c1, b0, l0]);
}

#[test]
fn clock_counts_days() {
    let mut t = SimTime::new();
    assert_eq!(t.tick, 0);
    assert_eq!(t.day(), 0);
    for _ in 0..999 {
        t.advance();
    }
    assert_eq!(t.day(), 0);
    t.advance();
    assert_eq!(t.tick, 1000);
    assert_eq!(t.day(), 1);
    assert_eq!(SimTime::ticks_per_day(), 1000);
    assert_eq!(SimTime::default().tick, 0);
}
