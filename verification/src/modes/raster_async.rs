//! Cache of a result that is rebuilt off the main thread.
//!
//! Building the table behind a raster view takes thousands of queries, so it
//! runs elsewhere. The view draws the latest finished result and asks for a new
//! one only when its footprint has moved.

use crate::ticket::{a_ticket_does_not_come_again, goes_on, next_ticket, ticket_after};
use vstd::prelude::*;
use vstd::std_specs::cmp::PartialEqSpec;

verus! {

/// The latest result of a builder that runs elsewhere, keyed by footprint.
pub struct AsyncBuild<T, K: PartialEq + Copy> {
    built_for: Option<K>,
    result: Option<(K, T)>,
    rebuilding: bool,
    ticket: u64,
}

/// Whether a remembered key is `key`, by the key type's own equality.
pub open spec fn is_key<K: PartialEq>(remembered: Option<K>, key: K) -> bool {
    remembered is Some && remembered->0.eq_spec(&key)
}

/// What a view does in one frame with its cache.
pub struct RasterFrame<K> {
    /// A rebuild is under way as the frame begins.
    pub rebuilding: bool,
    /// Start a rebuild for this footprint; its result comes back with this
    /// ticket.
    pub spawn: Option<(K, u64)>,
    /// Draw the cached result, which was built for this footprint.
    pub draw: Option<K>,
}

/// A frame of a view whose footprint is `key` took the cache from `before` to
/// `after`. What arrived is installed if it is the rebuild under way; a rebuild is
/// started if none is and the footprint is not the latest one; and the result
/// that is drawn is framed on the footprint it was built for.
pub open spec fn framed<T, K: PartialEq + Copy>(
    before: AsyncBuild<T, K>,
    after: AsyncBuild<T, K>,
    key: K,
    arrived: Option<(u64, T)>,
    f: RasterFrame<K>,
) -> bool {
    let landed = before.awaits(arrived);
    let busy = before.spec_rebuilding() && !landed;
    let spawn = !busy && !is_key(before.spec_built_for(), key);
    let ticket = ticket_after(before.spec_ticket(), 1);
    let result = if landed {
        Some((before.spec_built_for()->0, (arrived->0).1))
    } else {
        before.spec_result()
    };
    &&& f.rebuilding == busy
    &&& f.spawn == (if spawn {
        Some((key, ticket))
    } else {
        None
    })
    &&& f.draw == (match result {
        Some((k, _)) => Some(k),
        None => None,
    })
    &&& after.spec_result() == result
    &&& after.spec_rebuilding() == (busy || spawn)
    &&& after.spec_ticket() == (if spawn {
        ticket
    } else {
        before.spec_ticket()
    })
    &&& after.spec_built_for() == (if spawn {
        Some(key)
    } else {
        before.spec_built_for()
    })
}

impl<T, K: PartialEq + Copy> Default for AsyncBuild<T, K> {
    fn default() -> (r: Self)
        ensures
            r.spec_built_for() is None,
            r.spec_result() is None,
            !r.spec_rebuilding(),
            r.wf(),
    {
        AsyncBuild { built_for: None, result: None, rebuilding: false, ticket: 0 }
    }
}

impl<T, K: PartialEq + Copy> AsyncBuild<T, K> {
    pub closed spec fn spec_built_for(&self) -> Option<K> {
        self.built_for
    }

    /// The latest finished result, with the key that it was built for.
    pub closed spec fn spec_result(&self) -> Option<(K, T)> {
        self.result
    }

    pub closed spec fn spec_rebuilding(&self) -> bool {
        self.rebuilding
    }

    /// The ticket of the latest rebuild that was started.
    pub closed spec fn spec_ticket(&self) -> u64 {
        self.ticket
    }

    /// What arrived is the rebuild under way.
    pub open spec fn awaits(&self, arrived: Option<(u64, T)>) -> bool {
        self.spec_rebuilding() && arrived is Some && (arrived->0).0 == self.spec_ticket()
    }

    /// Polling took the cache from `self` to `after`.
    pub open spec fn polled(self, after: Self, arrived: Option<(u64, T)>) -> bool {
        &&& after.spec_built_for() == self.spec_built_for()
        &&& after.spec_ticket() == self.spec_ticket()
        &&& after.spec_rebuilding() == (self.spec_rebuilding() && !self.awaits(arrived))
        &&& after.spec_result() == (if self.awaits(arrived) {
            Some((self.spec_built_for()->0, (arrived->0).1))
        } else {
            self.spec_result()
        })
    }

    /// A rebuild for `key` was started, which took the cache from `self` to
    /// `after`.
    pub open spec fn spawned(self, after: Self, key: K) -> bool {
        &&& after.spec_built_for() == Some(key)
        &&& after.spec_rebuilding()
        &&& after.spec_result() == self.spec_result()
        &&& after.spec_ticket() == ticket_after(self.spec_ticket(), 1)
    }

    /// A rebuild under way has a key; without one, the remembered key is that
    /// of the result.
    pub open spec fn wf(&self) -> bool {
        &&& self.spec_rebuilding() ==> self.spec_built_for() is Some
        &&& !self.spec_rebuilding() ==> match self.spec_result() {
            Some((key, _)) => self.spec_built_for() == Some(key),
            None => self.spec_built_for() is None,
        }
    }

    /// Installs a finished rebuild. `arrived` is what a builder sent since the
    /// last call, if anything, with its ticket; a result that nobody waits for,
    /// or of a rebuild that another has replaced, is dropped. `true` means that
    /// a new result was installed.
    pub fn poll(&mut self, arrived: Option<(u64, T)>) -> (r: bool)
        requires
            old(self).wf(),
        ensures
            final(self).wf(),
            r == old(self).awaits(arrived),
            old(self).polled(*final(self), arrived),
            r <==> old(self).spec_rebuilding() && arrived is Some && (arrived->0).0 == old(self).spec_ticket(),
            r ==> !final(self).spec_rebuilding() && final(self).spec_result() == Some(
                (old(self).spec_built_for()->0, (arrived->0).1),
            ),
            !r ==> final(self).spec_rebuilding() == old(self).spec_rebuilding() && final(self).spec_result() == old(self).spec_result(),
            final(self).spec_built_for() == old(self).spec_built_for(),
            final(self).spec_ticket() == old(self).spec_ticket(),
    {
        if !self.rebuilding {
            return false;
        }
        match (arrived, self.built_for) {
            (Some(sent), Some(key)) => {
                if sent.0 != self.ticket {
                    return false;
                }
                self.result = Some((key, sent.1));
                self.rebuilding = false;
                true
            },
            _ => false,
        }
    }

    /// Whether a rebuild is under way.
    pub fn is_rebuilding(&self) -> (r: bool)
        ensures
            r == self.spec_rebuilding(),
    {
        self.rebuilding
    }

    /// The key that the latest build was started for, finished or not.
    pub fn built_for(&self) -> (r: Option<&K>)
        ensures
            match r {
                Some(k) => self.spec_built_for() == Some(*k),
                None => self.spec_built_for() is None,
            },
    {
        self.built_for.as_ref()
    }

    /// The latest finished result.
    pub fn current(&self) -> (r: Option<&T>)
        ensures
            match r {
                Some(t) => self.spec_result() is Some && (self.spec_result()->0).1 == *t,
                None => self.spec_result() is None,
            },
    {
        match &self.result {
            Some(pair) => Some(&pair.1),
            None => None,
        }
    }

    /// The key that the latest finished result was built for.
    pub fn current_key(&self) -> (r: Option<K>)
        ensures
            r == (match self.spec_result() {
                Some((key, _)) => Some(key),
                None => None,
            }),
    {
        match &self.result {
            Some(pair) => Some(pair.0),
            None => None,
        }
    }

    /// Whether to start a rebuild for `key`: none is under way, and the latest
    /// was for another key, as the key type's own equality tells.
    pub fn needs_rebuild(&self, key: &K) -> (r: bool)
        ensures
            self.spec_rebuilding() ==> !r,
            !self.spec_rebuilding() && self.spec_built_for() is None ==> r,
            !self.spec_rebuilding() && self.spec_built_for() is Some ==> call_ensures(
                K::eq,
                (&self.spec_built_for()->0, key),
                !r,
            ),
            K::obeys_eq_spec() ==> r == (!self.spec_rebuilding() && !is_key(self.spec_built_for(), *key)),
    {
        if self.rebuilding {
            return false;
        }
        match &self.built_for {
            Some(k) => !k.eq(key),
            None => true,
        }
    }

    /// Takes note that a rebuild for `key` is started, and draws the ticket that
    /// its result comes back with. A rebuild under way is given up.
    pub fn spawn(&mut self, key: K) -> (ticket: u64)
        ensures
            final(self).wf(),
            old(self).spawned(*final(self), key),
            final(self).spec_built_for() == Some(key),
            final(self).spec_rebuilding(),
            final(self).spec_result() == old(self).spec_result(),
            final(self).spec_ticket() != old(self).spec_ticket(),
            ticket == final(self).spec_ticket(),
    {
        self.built_for = Some(key);
        self.rebuilding = true;
        self.ticket = next_ticket(self.ticket);
        self.ticket
    }

    /// One frame of a view whose footprint is `key`: install what arrived, ask
    /// for a rebuild if the footprint moved, and draw the latest result framed
    /// on the footprint that it was built for.
    pub fn frame(&mut self, key: K, arrived: Option<(u64, T)>) -> (r: RasterFrame<K>)
        requires
            old(self).wf(),
            K::obeys_eq_spec(),
        ensures
            final(self).wf(),
            framed(*old(self), *final(self), key, arrived, r),
            ({
                let landed = old(self).spec_rebuilding() && arrived is Some && (arrived->0).0 == old(self).spec_ticket();
                let moved = old(self).spec_built_for() is None || !old(self).spec_built_for()->0.eq_spec(&key);
                &&& r.rebuilding <==> old(self).spec_rebuilding() && !landed
                &&& r.spawn is Some <==> !r.rebuilding && moved
                &&& r.spawn is Some ==> (r.spawn->0).0 == key && (r.spawn->0).1 == final(self).spec_ticket() && final(self).spec_built_for() == Some(key)
                &&& final(self).spec_rebuilding() <==> r.rebuilding || r.spawn is Some
                &&& landed ==> final(self).spec_result() == Some((old(self).spec_built_for()->0, (arrived->0).1))
                &&& !landed ==> final(self).spec_result() == old(self).spec_result()
                &&& r.draw is Some <==> final(self).spec_result() is Some
                &&& r.draw is Some ==> r.draw->0 == (final(self).spec_result()->0).0
            }),
    {
        let _ = self.poll(arrived);
        let rebuilding: bool = self.is_rebuilding();
        let spawn: Option<(K, u64)> = if self.needs_rebuild(&key) {
            let ticket: u64 = self.spawn(key);
            Some((key, ticket))
        } else {
            None
        };
        RasterFrame { rebuilding, spawn, draw: self.current_key() }
    }
}

/// What happens to a cache.
pub ghost enum BuildEvent<T, K> {
    Spawn(K),
    Poll(Option<(u64, T)>),
}

/// `caches` is what a cache is before, between and after `events`.
pub open spec fn is_history<T, K: PartialEq + Copy>(
    caches: Seq<AsyncBuild<T, K>>,
    events: Seq<BuildEvent<T, K>>,
) -> bool {
    &&& caches.len() == events.len() + 1
    &&& forall|n: int|
        #![trigger events[n]]
        0 <= n < events.len() ==> match events[n] {
            BuildEvent::Spawn(key) => caches[n].spawned(caches[n + 1], key),
            BuildEvent::Poll(arrived) => caches[n].polled(caches[n + 1], arrived),
        }
}

/// A rebuild that another one has replaced is never installed, however late its
/// result arrives, within two to the power of 64 events.
pub proof fn a_replaced_build_is_never_installed<T, K: PartialEq + Copy>(
    caches: Seq<AsyncBuild<T, K>>,
    events: Seq<BuildEvent<T, K>>,
    i: int,
    j: int,
    k: int,
    late: T,
)
    requires
        is_history(caches, events),
        events.len() < 0x1_0000_0000_0000_0000,
        0 <= i < j < k < events.len(),
        events[i] is Spawn,
        events[j] is Spawn,
        events[k] == BuildEvent::<T, K>::Poll(Some((caches[i + 1].spec_ticket(), late))),
    ensures
        caches[k + 1].spec_result() == caches[k].spec_result(),
        caches[k + 1].spec_rebuilding() == caches[k].spec_rebuilding(),
{
    let tickets = Seq::new(caches.len(), |n: int| caches[n].spec_ticket());
    assert forall|n: int| 0 <= n < tickets.len() - 1 implies #[trigger] goes_on(tickets, n) by {
        match events[n] {
            BuildEvent::Spawn(_) => {},
            BuildEvent::Poll(_) => {},
        }
    }
    a_ticket_does_not_come_again(tickets, i + 1, j, k);
}

proof fn lemma_no_spawn_between<T, K: PartialEq + Copy>(
    caches: Seq<AsyncBuild<T, K>>,
    events: Seq<BuildEvent<T, K>>,
    i: int,
    k: int,
)
    requires
        is_history(caches, events),
        0 <= i <= k < caches.len(),
        forall|n: int| i <= n < k ==> (#[trigger] events[n]) is Poll,
    ensures
        caches[k].spec_ticket() == caches[i].spec_ticket(),
        caches[k].spec_built_for() == caches[i].spec_built_for(),
    decreases k - i,
{
    if i < k {
        lemma_no_spawn_between(caches, events, i, k - 1);
        assert(events[k - 1] is Poll);
    }
}

/// From the start of a rebuild until the next, only its own result is
/// installed, and it is installed for its own key.
pub proof fn only_the_latest_build_is_installed<T, K: PartialEq + Copy>(
    caches: Seq<AsyncBuild<T, K>>,
    events: Seq<BuildEvent<T, K>>,
    i: int,
    k: int,
    key: K,
    arrived: Option<(u64, T)>,
)
    requires
        is_history(caches, events),
        0 <= i < k < events.len(),
        events[i] == BuildEvent::<T, K>::Spawn(key),
        forall|n: int| i < n < k ==> (#[trigger] events[n]) is Poll,
        events[k] == BuildEvent::<T, K>::Poll(arrived),
        caches[k + 1].spec_result() != caches[k].spec_result(),
    ensures
        arrived is Some,
        (arrived->0).0 == caches[i + 1].spec_ticket(),
        caches[k + 1].spec_result() == Some((key, (arrived->0).1)),
        !caches[k + 1].spec_rebuilding(),
{
    lemma_no_spawn_between(caches, events, i + 1, k);
    assert(caches[i].spawned(caches[i + 1], key));
    assert(caches[k].polled(caches[k + 1], arrived));
}

} // verus!
