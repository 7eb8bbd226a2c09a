//! The workers of a channel that serves each endpoint with a group of
//! request workers: one stop handle per endpoint key (dropping it stops that
//! endpoint's workers) and a count of the workers that run.
use vstd::prelude::*;
use crate::keyed::{
    find_key, has_key, key_map, lemma_key_map_dom, lemma_key_map_finite, lemma_key_map_remove_at,
    lemma_key_map_update, lemma_key_map_value, lemma_unique_push, lemma_unique_remove,
    lemma_unique_update, unique_keys,
};
use crate::counter::{
    counter_down, counter_downs, counter_up, counter_ups, lemma_counter_downs, lemma_counter_ups,
    next_counter, prev_counter,
};

verus! {

/// How many request workers an endpoint gets when it connects.
pub const WORKERS_PER_ENDPOINT: usize = 10;

/// The stop handle of each endpoint's workers, by endpoint key, and the
/// number of running workers.
pub struct WorkerRegistry<S> {
    workers: Vec<(String, S)>,
    workers_num: usize,
}

impl<S> WorkerRegistry<S> {
    /// The invariant: one record per key.
    pub closed spec fn wf(&self) -> bool {
        unique_keys(self.workers@)
    }

    /// The stop handles, by endpoint key.
    pub closed spec fn workers(&self) -> Map<Seq<char>, S> {
        key_map(self.workers@)
    }

    /// The number of running workers.
    pub closed spec fn workers_num(&self) -> usize {
        self.workers_num
    }

    /// No endpoints and no running workers.
    pub fn new() -> (r: Self)
        ensures
            r.wf(),
            r.workers() == Map::<Seq<char>, S>::empty(),
            r.workers_num() == 0,
    {
        WorkerRegistry { workers: Vec::new(), workers_num: 0 }
    }

    /// Records the stop handle of the workers just started for `key`. Where
    /// `key` had workers already, their handle is handed back (dropping it
    /// stops them), as `HashMap::insert` does.
    pub fn start_workers(&mut self, key: String, stop: S) -> (replaced: Option<S>)
        requires
            old(self).wf(),
        ensures
            final(self).wf(),
            final(self).workers() == old(self).workers().insert(key@, stop),
            final(self).workers_num() == old(self).workers_num(),
            replaced == (if old(self).workers().dom().contains(key@) {
                Some(old(self).workers()[key@])
            } else {
                None
            }),
    {
        proof {
            lemma_key_map_dom(self.workers@, key@);
        }
        match find_key(&self.workers, &key) {
            Some(i) => {
                proof {
                    lemma_key_map_value(self.workers@, i as int);
                    lemma_key_map_update(self.workers@, i as int, (key, stop));
                    lemma_unique_update(self.workers@, i as int, (key, stop));
                }
                let mut entry = (key, stop);
                self.workers.set_and_swap(i, &mut entry);
                Some(entry.1)
            },
            None => {
                proof {
                    lemma_unique_push(self.workers@, (key, stop));
                }
                self.workers.push((key, stop));
                assert(self.workers@.drop_last() =~= old(self).workers@);
                None
            },
        }
    }

    /// Drops the record of the workers of `key` and hands back their stop
    /// handle, if `key` had workers.
    pub fn remove_workers(&mut self, key: &String) -> (removed: Option<S>)
        requires
            old(self).wf(),
        ensures
            final(self).wf(),
            final(self).workers() == old(self).workers().remove(key@),
            final(self).workers_num() == old(self).workers_num(),
            removed == (if old(self).workers().dom().contains(key@) {
                Some(old(self).workers()[key@])
            } else {
                None
            }),
    {
        proof {
            lemma_key_map_dom(self.workers@, key@);
        }
        match find_key(&self.workers, key) {
            Some(i) => {
                proof {
                    lemma_key_map_value(self.workers@, i as int);
                    lemma_key_map_remove_at(self.workers@, i as int);
                    lemma_unique_remove(self.workers@, i as int);
                }
                let entry = self.workers.remove(i);
                Some(entry.1)
            },
            None => {
                assert(old(self).workers() =~= old(self).workers().remove(key@));
                None
            },
        }
    }

    /// Counts a worker that has started.
    pub fn worker_started(&mut self)
        requires
            old(self).wf(),
        ensures
            final(self).wf(),
            final(self).workers() == old(self).workers(),
            final(self).workers_num() == next_counter(old(self).workers_num()),
    {
        self.workers_num = counter_up(self.workers_num);
    }

    /// Counts a worker that has stopped.
    pub fn worker_stopped(&mut self)
        requires
            old(self).wf(),
        ensures
            final(self).wf(),
            final(self).workers() == old(self).workers(),
            final(self).workers_num() == prev_counter(old(self).workers_num()),
    {
        self.workers_num = counter_down(self.workers_num);
    }

    /// Whether a request can be taken: some worker runs. Where none does,
    /// the caller waits to be woken.
    pub fn poll_ready(&self) -> (ready: bool)
        ensures
            ready == (self.workers_num() != 0),
    {
        self.workers_num != 0
    }
}

/// The number of workers that run once every task has settled: ten for
/// each endpoint key on record.
pub open spec fn settled_count<S>(m: Map<Seq<char>, S>) -> nat {
    WORKERS_PER_ENDPOINT as nat * m.dom().len()
}

/// The record of a registry is a finite map.
pub proof fn lemma_workers_finite<S>(r: WorkerRegistry<S>)
    ensures
        r.workers().dom().finite(),
{
    lemma_key_map_finite(r.workers@);
}

/// Starting the workers of `key` keeps the count settled: from a settled
/// count, once the new workers have each counted themselves (and, where
/// `key` had workers already, those have each stopped on losing their
/// handle), the count is ten per key again.
pub proof fn lemma_start_workers_settles<S>(m: Map<Seq<char>, S>, num: usize, key: Seq<char>, stop: S)
    requires
        m.dom().finite(),
        num == settled_count(m),
        num + WORKERS_PER_ENDPOINT <= usize::MAX,
    ensures
        (if m.dom().contains(key) {
            counter_downs(
                counter_ups(num, WORKERS_PER_ENDPOINT as nat),
                WORKERS_PER_ENDPOINT as nat,
            )
        } else {
            counter_ups(num, WORKERS_PER_ENDPOINT as nat)
        }) == settled_count(m.insert(key, stop)),
{
    let w = WORKERS_PER_ENDPOINT as nat;
    lemma_counter_ups(num, w);
    let up = counter_ups(num, w);
    lemma_counter_downs(up, w);
    if m.dom().contains(key) {
        assert(m.insert(key, stop).dom() =~= m.dom());
    } else {
        assert(m.insert(key, stop).dom() =~= m.dom().insert(key));
        assert(m.dom().insert(key).len() == m.dom().len() + 1);
        assert(w * (m.dom().len() + 1) == w * m.dom().len() + w) by (nonlinear_arith);
    }
}

/// Removing the workers of `key` keeps the count settled: once the removed
/// workers have each stopped, the count is ten per key again.
pub proof fn lemma_remove_workers_settles<S>(m: Map<Seq<char>, S>, num: usize, key: Seq<char>)
    requires
        m.dom().finite(),
        num == settled_count(m),
    ensures
        (if m.dom().contains(key) {
            counter_downs(num, WORKERS_PER_ENDPOINT as nat)
        } else {
            num
        }) == settled_count(m.remove(key)),
{
    let w = WORKERS_PER_ENDPOINT as nat;
    if m.dom().contains(key) {
        assert(m.remove(key).dom() =~= m.dom().remove(key));
        assert(m.dom().remove(key).len() == m.dom().len() - 1);
        assert(m.dom().len() >= 1) by {
            if m.dom().len() == 0 {
                assert(m.dom() =~= Set::empty());
            }
        }
        assert(w * m.dom().len() == w * (m.dom().len() - 1) + w) by (nonlinear_arith)
            requires
                m.dom().len() >= 1,
        ;
        lemma_counter_downs(num, w);
    } else {
        assert(m.remove(key) =~= m);
    }
}

/// One change to the record, once its workers have settled: `(true, key,
/// stop)` starts the workers of `key` with the handle `stop` (ten workers
/// count themselves, and those that held an earlier handle of `key` stop);
/// `(false, key, _)` removes `key` (its workers stop).
pub open spec fn settle_step<S>(st: (Map<Seq<char>, S>, usize), op: (bool, Seq<char>, S)) -> (Map<Seq<char>, S>, usize) {
    let m = st.0;
    let num = st.1;
    let w = WORKERS_PER_ENDPOINT as nat;
    if op.0 {
        (
            m.insert(op.1, op.2),
            if m.dom().contains(op.1) {
                counter_downs(counter_ups(num, w), w)
            } else {
                counter_ups(num, w)
            },
        )
    } else {
        (m.remove(op.1), if m.dom().contains(op.1) {
            counter_downs(num, w)
        } else {
            num
        })
    }
}

/// The record and the worker count after a sequence of changes, each
/// settled.
pub open spec fn settle_all<S>(st: (Map<Seq<char>, S>, usize), ops: Seq<(bool, Seq<char>, S)>) -> (Map<Seq<char>, S>, usize)
    decreases ops.len(),
{
    if ops.len() == 0 {
        st
    } else {
        settle_step(settle_all(st, ops.drop_last()), ops.last())
    }
}

/// Over any sequence of starts and removals, once every task has settled,
/// the number of running workers is ten per endpoint key on record
/// (where the count cannot overflow).
pub proof fn lemma_settled_after_any_ops<S>(m: Map<Seq<char>, S>, num: usize, ops: Seq<(bool, Seq<char>, S)>)
    requires
        m.dom().finite(),
        num == settled_count(m),
        WORKERS_PER_ENDPOINT * (m.dom().len() + ops.len()) <= usize::MAX,
    ensures
        settle_all((m, num), ops).0.dom().finite(),
        settle_all((m, num), ops).1 == settled_count(settle_all((m, num), ops).0),
        settle_all((m, num), ops).0.dom().len() <= m.dom().len() + ops.len(),
    decreases ops.len(),
{
    if ops.len() > 0 {
        let rest = ops.drop_last();
        lemma_settled_after_any_ops(m, num, rest);
        let st = settle_all((m, num), rest);
        let op = ops.last();
        let w = WORKERS_PER_ENDPOINT as nat;
        let a = st.0.dom().len();
        let b = m.dom().len() + ops.len();
        assert(w * a + w <= w * b) by (nonlinear_arith)
            requires
                a + 1 <= b,
                w == 10,
        ;
        if op.0 {
            lemma_start_workers_settles(st.0, st.1, op.1, op.2);
            if st.0.dom().contains(op.1) {
                assert(st.0.insert(op.1, op.2).dom() =~= st.0.dom());
            } else {
                assert(st.0.insert(op.1, op.2).dom() =~= st.0.dom().insert(op.1));
            }
        } else {
            lemma_remove_workers_settles(st.0, st.1, op.1);
            assert(st.0.remove(op.1).dom() =~= st.0.dom().remove(op.1));
            if st.0.dom().contains(op.1) {
                assert(st.0.dom().remove(op.1).len() == a - 1);
            } else {
                assert(st.0.dom().remove(op.1) =~= st.0.dom());
            }
        }
    }
}

/// Starting workers for a key then removing that key leaves the record as
/// removing the key alone leaves it; the stop handle that was just recorded
/// is the one that removal hands back.
pub proof fn lemma_start_then_remove<S>(m: Map<Seq<char>, S>, key: Seq<char>, stop: S)
    ensures
        m.insert(key, stop).remove(key) == m.remove(key),
        m.insert(key, stop).dom().contains(key) && m.insert(key, stop)[key] == stop,
{
    assert(m.insert(key, stop).remove(key) =~= m.remove(key));
}

} // verus!
