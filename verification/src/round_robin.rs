//! Round-robin selection over the connected endpoints of a client channel.
//!
//! Endpoints are added as they connect and removed by key; each readiness
//! poll hands out the next endpoint in turn, by a counter that wraps around
//! at `usize::MAX` as an atomic `fetch_add` does.
use vstd::prelude::*;
use crate::counter::{counter_up, next_counter};
use crate::keyed::{has_key, lemma_removed_key_absent, other_key, remove_key};

verus! {

/// Connected endpoints, each tagged by its key, and the pick counter.
pub struct RoundRobin<C> {
    entries: Vec<(String, C)>,
    counter: usize,
}

/// What one readiness poll does: from `before` to `after`, picking `pick`.
pub open spec fn poll_result<C>(before: RoundRobin<C>, after: RoundRobin<C>, pick: Option<usize>) -> bool {
    &&& after.entries() == before.entries()
    &&& before.entries().len() == 0 ==> pick is None && after.counter() == before.counter()
    &&& before.entries().len() > 0 ==> pick == Some(
        (before.counter() as nat % before.entries().len()) as usize,
    ) && after.counter() == next_counter(before.counter())
}

impl<C> RoundRobin<C> {
    /// The endpoints, in the order in which they connected.
    pub closed spec fn entries(&self) -> Seq<(String, C)> {
        self.entries@
    }

    /// How many picks have been made (modulo the counter's range).
    pub closed spec fn counter(&self) -> usize {
        self.counter
    }

    /// A selector with no endpoints whose counter starts at 0.
    pub fn new() -> (r: Self)
        ensures
            r.entries() == Seq::<(String, C)>::empty(),
            r.counter() == 0,
    {
        RoundRobin { entries: Vec::new(), counter: 0 }
    }

    /// The number of connected endpoints.
    pub fn len(&self) -> (n: usize)
        ensures
            n == self.entries().len(),
    {
        self.entries.len()
    }

    /// Adds a newly connected endpoint at the end, even where its key is
    /// already present.
    pub fn insert(&mut self, key: String, chan: C)
        ensures
            final(self).entries() == old(self).entries().push((key, chan)),
            final(self).counter() == old(self).counter(),
    {
        self.entries.push((key, chan));
    }

    /// Drops every endpoint whose key is `key`; the others keep their order.
    pub fn remove(&mut self, key: &String)
        ensures
            final(self).entries() == old(self).entries().filter(other_key::<C>(key@)),
            final(self).counter() == old(self).counter(),
    {
        remove_key(&mut self.entries, key);
    }

    /// The endpoint to try on a readiness poll: `None` where no endpoint is
    /// connected (the caller then waits to be woken), otherwise the position
    /// `counter % len`, after which the counter moves on by one.
    pub fn poll_ready(&mut self) -> (pick: Option<usize>)
        ensures
            poll_result(*old(self), *final(self), pick),
    {
        let n = self.entries.len();
        if n == 0 {
            return None;
        }
        let idx = self.counter % n;
        self.counter = counter_up(self.counter);
        Some(idx)
    }

    /// The endpoint at position `i`.
    pub fn get(&self, i: usize) -> (c: &C)
        requires
            i < self.entries().len(),
        ensures
            *c == self.entries()[i as int].1,
    {
        &self.entries[i].1
    }
}

/// Two numbers less than `n` apart leave different remainders modulo `n`.
proof fn lemma_mod_distinct(a: int, b: int, n: int)
    requires
        0 <= a < b < a + n,
        n > 0,
    ensures
        a % n != b % n,
{
    vstd::arithmetic::div_mod::lemma_fundamental_div_mod(a, n);
    vstd::arithmetic::div_mod::lemma_fundamental_div_mod(b, n);
    let qa = a / n;
    let qb = b / n;
    if a % n == b % n {
        assert(b - a == n * (qb - qa)) by (nonlinear_arith)
            requires
                a == n * qa + a % n,
                b == n * qb + b % n,
                a % n == b % n,
        ;
        assert(false) by (nonlinear_arith)
            requires
                b - a == n * (qb - qa),
                0 < b - a < n,
                n > 0,
        ;
    }
}

/// Among `c, c + 1, ..., c + n - 1` one leaves the remainder `k` modulo `n`.
proof fn lemma_mod_hit(c: int, n: int, k: int) -> (i: int)
    requires
        0 <= c,
        n > 0,
        0 <= k < n,
    ensures
        0 <= i < n,
        (c + i) % n == k,
{
    vstd::arithmetic::div_mod::lemma_fundamental_div_mod(c, n);
    vstd::arithmetic::div_mod::lemma_mod_pos_bound(c, n);
    let r = c % n;
    let q = c / n;
    if k >= r {
        let i = k - r;
        assert(c + i == q * n + k) by (nonlinear_arith)
            requires
                c == n * q + r,
                i == k - r,
        ;
        vstd::arithmetic::div_mod::lemma_fundamental_div_mod_converse(c + i, n, q, k);
        i
    } else {
        let i = k + n - r;
        assert(c + i == (q + 1) * n + k) by (nonlinear_arith)
            requires
                c == n * q + r,
                i == k + n - r,
        ;
        vstd::arithmetic::div_mod::lemma_fundamental_div_mod_converse(c + i, n, q + 1, k);
        i
    }
}

/// The position that the `i`-th poll from counter value `c` picks among `n`
/// endpoints, while the counter does not wrap.
pub open spec fn pick_after(c: nat, i: nat, n: nat) -> nat {
    (c + i) % n
}

/// Whether one of the `n` polls from counter value `c` picks position `k`.
pub open spec fn picked_within(c: nat, n: nat, k: nat) -> bool {
    exists|i: nat| i < n && #[trigger] pick_after(c, i, n) == k
}

/// Round-robin fairness: from any counter value `c`, the next `n` picks over
/// `n` endpoints (while the counter does not wrap) are `n` different
/// positions, so each endpoint is picked exactly once.
pub proof fn lemma_round_robin_fair(c: nat, n: nat)
    requires
        n > 0,
    ensures
        forall|i: nat, j: nat|
            i < j < n ==> #[trigger] pick_after(c, i, n) != #[trigger] pick_after(c, j, n),
        forall|k: nat| k < n ==> #[trigger] picked_within(c, n, k),
{
    assert forall|i: nat, j: nat| i < j < n implies #[trigger] pick_after(c, i, n) != #[trigger] pick_after(c, j, n) by {
        lemma_mod_distinct((c + i) as int, (c + j) as int, n as int);
    }
    assert forall|k: nat| k < n implies #[trigger] picked_within(c, n, k) by {
        let i = lemma_mod_hit(c as int, n as int, k as int);
        assert(pick_after(c, i as nat, n) == k);
    }
}

/// Successive polls: where `states[j + 1]` and `picks[j]` are what the
/// `j`-th of `k` polls from `states[0]` gives (with `n > 0` endpoints and no
/// change in between), and the counter `c` does not wrap, poll `j` picks
/// position `(c + j) % n`, the endpoints stay, and the counter ends at
/// `c + k`. Where `k == n`, every position is picked.
pub proof fn lemma_successive_polls<C>(states: Seq<RoundRobin<C>>, picks: Seq<Option<usize>>)
    requires
        states.len() == picks.len() + 1,
        forall|j: int| 0 <= j < picks.len() ==> poll_result(#[trigger] states[j], states[j + 1], picks[j]),
        states[0].entries().len() > 0,
        states[0].counter() + picks.len() <= usize::MAX,
    ensures
        forall|j: int|
            0 <= j < picks.len() ==> #[trigger] picks[j] == Some(
                pick_after(states[0].counter() as nat, j as nat, states[0].entries().len()) as usize,
            ),
        states.last().entries() == states[0].entries(),
        states.last().counter() == states[0].counter() + picks.len(),
        picks.len() == states[0].entries().len() ==> forall|k: nat|
            k < picks.len() ==> #[trigger] picked_within(
                states[0].counter() as nat,
                states[0].entries().len(),
                k,
            ),
{
    let c = states[0].counter();
    let n = states[0].entries().len();
    lemma_states_after_polls(states, picks, picks.len() as int);
    assert forall|j: int| 0 <= j < picks.len() implies #[trigger] picks[j] == Some(
        pick_after(c as nat, j as nat, n) as usize,
    ) by {
        lemma_states_after_polls(states, picks, j);
    }
    if picks.len() == n {
        lemma_round_robin_fair(c as nat, n);
    }
}

/// After `j` of the polls, the endpoints are unchanged and the counter has
/// moved on by `j`.
proof fn lemma_states_after_polls<C>(states: Seq<RoundRobin<C>>, picks: Seq<Option<usize>>, j: int)
    requires
        states.len() == picks.len() + 1,
        forall|i: int| 0 <= i < picks.len() ==> poll_result(#[trigger] states[i], states[i + 1], picks[i]),
        states[0].entries().len() > 0,
        states[0].counter() + picks.len() <= usize::MAX,
        0 <= j <= picks.len(),
    ensures
        states[j].entries() == states[0].entries(),
        states[j].counter() == states[0].counter() + j,
    decreases j,
{
    if j > 0 {
        lemma_states_after_polls(states, picks, j - 1);
        assert(poll_result(states[j - 1], states[j], picks[j - 1]));
    }
}

/// Removing a key leaves no endpoint with that key, and adding an endpoint
/// then removing its key gives what removing the key alone gives.
pub proof fn lemma_insert_then_remove<C>(s: Seq<(String, C)>, key: String, chan: C)
    ensures
        !has_key(s.filter(other_key::<C>(key@)), key@),
        s.push((key, chan)).filter(other_key::<C>(key@)) == s.filter(other_key::<C>(key@)),
{
    lemma_removed_key_absent(s, key@);
    s.lemma_filter_push((key, chan), other_key::<C>(key@));
}

} // verus!
