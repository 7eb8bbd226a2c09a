//! The endpoints of a channel that picks an endpoint at random, weighted by
//! how fast it answered last. The weights themselves are floating point and
//! stay with the caller; this list keeps the endpoints in the order that the
//! weights are computed in and hands out the one at a sampled position.
use vstd::prelude::*;
use crate::keyed::{other_key, remove_key};

verus! {

/// The connected endpoints, each tagged by its key.
pub struct Chans<C> {
    chans: Vec<(String, C)>,
}

impl<C> Chans<C> {
    /// The endpoints, in the order in which they connected.
    pub closed spec fn entries(&self) -> Seq<(String, C)> {
        self.chans@
    }

    /// No endpoints.
    pub fn new() -> (c: Self)
        ensures
            c.entries() == Seq::<(String, C)>::empty(),
    {
        Chans { chans: Vec::new() }
    }

    /// The number of endpoints.
    pub fn len(&self) -> (n: usize)
        ensures
            n == self.entries().len(),
    {
        self.chans.len()
    }

    /// The endpoint at position `i`.
    pub fn get(&self, i: usize) -> (c: &C)
        requires
            i < self.entries().len(),
        ensures
            *c == self.entries()[i as int].1,
    {
        &self.chans[i].1
    }

    /// Adds a newly connected endpoint at the end.
    pub fn add_chan(&mut self, key: String, chan: C)
        ensures
            final(self).entries() == old(self).entries().push((key, chan)),
    {
        self.chans.push((key, chan));
    }

    /// Drops every endpoint whose key is `key`; the others keep their order.
    pub fn remove_chan(&mut self, key: &String)
        ensures
            final(self).entries() == old(self).entries().filter(other_key::<C>(key@)),
    {
        remove_key(&mut self.chans, key);
    }

    /// The endpoint at the position `sampled` that the weighted draw gave:
    /// `None` where there are no endpoints or the position is past the last.
    pub fn pick_chan(&self, sampled: usize) -> (c: Option<&C>)
        ensures
            sampled < self.entries().len() ==> c == Some(&self.entries()[sampled as int].1),
            sampled >= self.entries().len() ==> c is None,
    {
        if self.chans.len() == 0 {
            return None;
        }
        if sampled < self.chans.len() {
            Some(&self.chans[sampled].1)
        } else {
            None
        }
    }
}

} // verus!
