//! Write-back of voxel edits off the main thread.
//!
//! An edit is sent to the host, and the bricks that it touches are fetched and
//! meshed again; the refresh queue sees to it that none is fetched twice at a
//! time and that a second edit is not lost.

use crate::brick_gen::{
    fresh_keys, land_all, lemma_nothing_pending, ready_keys, repeated_keys, BrickReady,
    BrickRefreshQueue, Key, RefreshState,
};
use vstd::prelude::*;

verus! {

pub struct EditApplyWorkers<P> {
    queue: BrickRefreshQueue<P>,
    /// A host to fetch from is known: an edit was dispatched before.
    has_host: bool,
}

impl<P> EditApplyWorkers<P> {
    pub closed spec fn state(&self) -> RefreshState {
        self.queue.state()
    }

    /// Finished refreshes that were not drained yet, oldest first.
    pub closed spec fn results(&self) -> Seq<BrickReady<P>> {
        self.queue.results()
    }

    /// Only bricks in flight are pending, and a refresh under way was started
    /// by a dispatch.
    pub closed spec fn wf(&self) -> bool {
        &&& self.queue.wf()
        &&& !self.has_host ==> self.queue.state().pending == Set::<Key>::empty()
    }

    pub fn new() -> (r: Self)
        ensures
            r.wf(),
            r.state() == (RefreshState { in_flight: Set::empty(), pending: Set::empty() }),
            r.results().len() == 0,
    {
        EditApplyWorkers { queue: BrickRefreshQueue::new(), has_host: false }
    }

    /// Dispatches an edit that touches `keys`. The caller sends the write, and
    /// after it fetches the bricks that come back; the others are under way and
    /// will be fetched again.
    pub fn dispatch_edit(&mut self, keys: &Vec<Key>) -> (r: Vec<Key>)
        requires
            old(self).wf(),
        ensures
            final(self).wf(),
            r@ == fresh_keys(old(self).state().in_flight, keys@),
            final(self).state().in_flight == old(self).state().in_flight.union(keys@.to_set()),
            final(self).state().pending == old(self).state().pending.union(
                repeated_keys(old(self).state().in_flight, keys@),
            ),
            final(self).results() == old(self).results(),
    {
        self.has_host = true;
        self.queue.claim(keys)
    }

    /// Queues a finished refresh.
    pub fn deliver(&mut self, ready: BrickReady<P>)
        requires
            old(self).wf(),
        ensures
            final(self).wf(),
            final(self).state() == old(self).state(),
            final(self).results() == old(self).results().push(ready),
    {
        self.queue.deliver(ready);
    }

    /// Hands out the finished refreshes, and the bricks that the caller has to
    /// fetch once more because they were edited meanwhile.
    pub fn drain_refresh(&mut self) -> (r: (Vec<BrickReady<P>>, Vec<Key>))
        requires
            old(self).wf(),
        ensures
            final(self).wf(),
            r.0@ == old(self).results(),
            final(self).results().len() == 0,
            (final(self).state(), r.1@) == land_all(old(self).state(), ready_keys(r.0@)),
    {
        let drained: (Vec<BrickReady<P>>, Vec<Key>) = self.queue.drain();
        proof {
            if !old(self).has_host {
                lemma_nothing_pending(old(self).state(), ready_keys(drained.0@));
            }
        }
        if drained.1.len() > 0 && !self.has_host {
            return (drained.0, Vec::new());
        }
        drained
    }

    /// Number of refreshes under way.
    pub fn refresh_in_flight_count(&self) -> (r: usize)
        ensures
            self.state().in_flight.finite(),
            r as nat == self.state().in_flight.len(),
    {
        self.queue.in_flight_count()
    }
}

} // verus!
