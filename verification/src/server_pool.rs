//! The decisions of a hello server that answers each request with a worker
//! from an elastic pool: take an idle worker if one turns up in time, else
//! start a new one while the pool is below its maximum, else refuse; and
//! retire idle workers while the pool is above its minimum.
//!
//! The worker count is the one the server keeps: a new worker counts itself
//! when it starts (`worker_started`) and the pool counts it once more on
//! handing it out (`fetch_worker`), while a worker that goes away takes one
//! off (`worker_dropped`). Counters wrap around as atomic counters do.
use vstd::prelude::*;
use crate::counter::{counter_down, counter_up, next_counter, prev_counter};

verus! {

/// The state of the pool.
pub struct PoolState {
    /// The number that the next new worker gets.
    pub next_idx: usize,
    /// The worker count.
    pub num_workers: usize,
    /// Above this count, idle workers are retired.
    pub min: usize,
    /// At or above this count, no new worker is started.
    pub max: usize,
}

/// What serving a request uses.
#[derive(PartialEq, Eq, Structural, Debug, Clone, Copy)]
pub enum FetchOutcome {
    /// An idle worker that turned up.
    Reuse,
    /// A new worker with this number.
    Create(usize),
    /// None: the pool is full.
    Reject,
}

/// One request's fetch: `idle` tells whether an idle worker turned up
/// before the wait ran out.
pub open spec fn fetch_step(s: PoolState, idle: bool) -> (PoolState, FetchOutcome) {
    if idle {
        (s, FetchOutcome::Reuse)
    } else if s.num_workers >= s.max {
        (s, FetchOutcome::Reject)
    } else {
        (
            PoolState {
                next_idx: next_counter(s.next_idx),
                num_workers: next_counter(s.num_workers),
                ..s
            },
            FetchOutcome::Create(s.next_idx),
        )
    }
}

/// The pool after a new worker counts itself.
pub open spec fn start_step(s: PoolState) -> PoolState {
    PoolState { num_workers: next_counter(s.num_workers), ..s }
}

/// The pool after a worker goes away.
pub open spec fn drop_step(s: PoolState) -> PoolState {
    PoolState { num_workers: prev_counter(s.num_workers), ..s }
}

/// The pool of a hello server.
pub struct ServerPool {
    next_idx: usize,
    num_workers: usize,
    min: usize,
    max: usize,
}

impl View for ServerPool {
    type V = PoolState;

    closed spec fn view(&self) -> PoolState {
        PoolState {
            next_idx: self.next_idx,
            num_workers: self.num_workers,
            min: self.min,
            max: self.max,
        }
    }
}

impl ServerPool {
    /// An empty pool with the bounds `min` and `max`.
    pub fn new(min: usize, max: usize) -> (p: Self)
        ensures
            p@ == (PoolState { next_idx: 0, num_workers: 0, min, max }),
    {
        ServerPool { next_idx: 0, num_workers: 0, min, max }
    }

    /// The worker count.
    pub fn num_workers(&self) -> (n: usize)
        ensures
            n == self@.num_workers,
    {
        self.num_workers
    }

    /// Decides how to serve a request, as `fetch_step` says.
    pub fn fetch_worker(&mut self, idle: bool) -> (outcome: FetchOutcome)
        ensures
            (final(self)@, outcome) == fetch_step(old(self)@, idle),
    {
        if idle {
            return FetchOutcome::Reuse;
        }
        if self.num_workers >= self.max {
            return FetchOutcome::Reject;
        }
        let idx = self.next_idx;
        self.next_idx = counter_up(self.next_idx);
        self.num_workers = counter_up(self.num_workers);
        FetchOutcome::Create(idx)
    }

    /// Counts a new worker, as the worker does when it starts.
    pub fn worker_started(&mut self)
        ensures
            final(self)@ == start_step(old(self)@),
    {
        self.num_workers = counter_up(self.num_workers);
    }

    /// Counts a worker that has gone away.
    pub fn worker_dropped(&mut self)
        ensures
            final(self)@ == drop_step(old(self)@),
    {
        self.num_workers = counter_down(self.num_workers);
    }

    /// Whether the periodic check should retire an idle worker: the count
    /// is above the minimum.
    pub fn should_remove(&self) -> (r: bool)
        ensures
            r == (self@.num_workers > self@.min),
    {
        self.num_workers > self.min
    }
}

/// The message with which a request is refused when the pool is full.
pub fn reject_message() -> (s: String)
    ensures
        s@ == "not enough workers!"@,
{
    String::from_str("not enough workers!")
}

/// How long a worker of the fixed pool pauses after each reply, in
/// milliseconds: twice its number.
pub fn reply_delay_ms(idx: usize) -> (ms: u64)
    requires
        idx * 2 <= u64::MAX,
    ensures
        ms == idx * 2,
{
    idx as u64 * 2
}

/// A worker that counts itself on starting and is then dropped leaves the
/// count as it was.
pub proof fn lemma_start_then_drop(s: PoolState)
    ensures
        drop_step(start_step(s)) == s,
{
}

/// Handing out a new worker, which counts itself as it starts, counts it
/// twice; its drop takes one off, so one count remains for every worker
/// that was started and dropped.
pub proof fn lemma_started_worker_counted_twice(s: PoolState)
    requires
        !(s.num_workers >= s.max),
        s.num_workers + 2 <= usize::MAX,
    ensures
        start_step(fetch_step(s, false).0).num_workers == s.num_workers + 2,
        drop_step(start_step(fetch_step(s, false).0)).num_workers == s.num_workers + 1,
{
}

/// A worker is started only while the count is below the maximum, and a
/// request is refused only where no idle worker turned up and the count has
/// reached the maximum.
pub proof fn lemma_create_below_max(s: PoolState, idle: bool)
    ensures
        fetch_step(s, idle).1 is Create ==> s.num_workers < s.max,
        fetch_step(s, idle).1 is Reject <==> (!idle && s.num_workers >= s.max),
        fetch_step(s, idle).1 is Reuse <==> idle,
{
}

/// Workers get different numbers: two workers started one after the other
/// (with any reuses or refusals between, and before the numbers wrap) get
/// numbers that differ, the later one higher.
pub proof fn lemma_fresh_numbers(s: PoolState, idle1: bool, idle2: bool)
    requires
        s.next_idx < usize::MAX,
        fetch_step(s, idle1).1 is Create,
        fetch_step(fetch_step(s, idle1).0, idle2).1 is Create,
    ensures
        fetch_step(s, idle1).1->Create_0 < fetch_step(fetch_step(s, idle1).0, idle2).1->Create_0,
{
}

/// Refusals and reuses leave the pool as it was.
pub proof fn lemma_no_change_without_create(s: PoolState, idle: bool)
    ensures
        !(fetch_step(s, idle).1 is Create) ==> fetch_step(s, idle).0 == s,
{
}

/// Workers are numbered in order: after any fetch, the next number is the
/// old one, or one more where a worker was started (before wrapping).
pub proof fn lemma_numbers_advance(s: PoolState, idle: bool)
    requires
        s.next_idx < usize::MAX,
    ensures
        fetch_step(s, idle).0.next_idx == s.next_idx + (if fetch_step(s, idle).1 is Create {
            1int
        } else {
            0int
        }),
{
}

} // verus!
