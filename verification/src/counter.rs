//! Counters that wrap around at the ends of `usize`, as the atomic
//! `fetch_add` and `fetch_sub` of the services' shared counters do.
use vstd::prelude::*;

verus! {

/// The counter after one step up: it wraps to 0 past `usize::MAX`.
pub open spec fn next_counter(c: usize) -> usize {
    if c == usize::MAX {
        0
    } else {
        (c + 1) as usize
    }
}

/// The counter after one step down: it wraps to `usize::MAX` below 0.
pub open spec fn prev_counter(c: usize) -> usize {
    if c == 0 {
        usize::MAX
    } else {
        (c - 1) as usize
    }
}

/// One step up.
pub fn counter_up(c: usize) -> (r: usize)
    ensures
        r == next_counter(c),
{
    if c == usize::MAX {
        0
    } else {
        c + 1
    }
}

/// One step down.
pub fn counter_down(c: usize) -> (r: usize)
    ensures
        r == prev_counter(c),
{
    if c == 0 {
        usize::MAX
    } else {
        c - 1
    }
}

/// The counter after `k` steps up.
pub open spec fn counter_ups(c: usize, k: nat) -> usize
    decreases k,
{
    if k == 0 {
        c
    } else {
        next_counter(counter_ups(c, (k - 1) as nat))
    }
}

/// The counter after `k` steps down.
pub open spec fn counter_downs(c: usize, k: nat) -> usize
    decreases k,
{
    if k == 0 {
        c
    } else {
        prev_counter(counter_downs(c, (k - 1) as nat))
    }
}

/// Without wrapping, `k` steps up add `k`.
pub proof fn lemma_counter_ups(c: usize, k: nat)
    requires
        c + k <= usize::MAX,
    ensures
        counter_ups(c, k) == c + k,
    decreases k,
{
    if k > 0 {
        lemma_counter_ups(c, (k - 1) as nat);
    }
}

/// Without wrapping, `k` steps down take off `k`.
pub proof fn lemma_counter_downs(c: usize, k: nat)
    requires
        k <= c,
    ensures
        counter_downs(c, k) == c - k,
    decreases k,
{
    if k > 0 {
        lemma_counter_downs(c, (k - 1) as nat);
    }
}

/// A step down undoes a step up, and a step up undoes a step down.
pub proof fn lemma_counter_steps_undo(c: usize)
    ensures
        prev_counter(next_counter(c)) == c,
        next_counter(prev_counter(c)) == c,
{
}

} // verus!
