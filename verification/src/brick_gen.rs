//! Bookkeeping of brick fetches and brick refreshes that run off the main
//! thread.
//!
//! Fetching and meshing a brick happens elsewhere; finished results are
//! delivered into a queue here, and the main thread drains that queue under a
//! budget. What is in flight is tracked by key, so no brick is fetched twice at
//! a time, and a brick that is written again while its refresh is under way is
//! refreshed once more.

use crate::coord::{IVec3, Lod};
use crate::key_map::KeySet;
use crate::order::{is_selection, lemma_select_next, lemma_select_none};
use std::collections::VecDeque;
use vstd::prelude::*;

verus! {

/// Most brick fetches in flight at a time.
pub const MAX_IN_FLIGHT: usize = 64;

/// Results turned into entities per frame, unless a strategy says otherwise.
pub const DEFAULT_SPAWN_BUDGET: usize = 24;

/// Brick key: the coordinate and the depth of the level of detail.
pub type Key = (IVec3, u8);

/// A finished fetch: the brick it is for, and what was built of it.
#[derive(Debug)]
pub struct BrickReady<P> {
    pub coord: IVec3,
    pub lod: Lod,
    pub payload: P,
}

impl<P> BrickReady<P> {
    pub open spec fn spec_key(self) -> Key {
        (self.coord, self.lod.depth)
    }

    pub fn key(&self) -> (r: Key)
        ensures
            r == self.spec_key(),
            r == (self.coord, self.lod.depth),
    {
        (self.coord, self.lod.depth)
    }
}

/// The keys of finished results, in order.
pub open spec fn ready_keys<P>(ready: Seq<BrickReady<P>>) -> Seq<Key> {
    Seq::new(ready.len(), |i: int| ready[i].spec_key())
}

/// `s` without any of `keys`.
pub open spec fn without(s: Set<Key>, keys: Seq<Key>) -> Set<Key> {
    s.filter(|k: Key| !keys.contains(k))
}

/// Dispatcher of brick fetches.
pub struct BrickGenWorkers<P> {
    in_flight: KeySet,
    results: VecDeque<BrickReady<P>>,
}

impl<P> BrickGenWorkers<P> {
    /// The bricks whose fetch is under way.
    pub closed spec fn in_flight(&self) -> Set<Key> {
        self.in_flight@
    }

    /// Finished results that were not drained yet, oldest first.
    pub closed spec fn results(&self) -> Seq<BrickReady<P>> {
        self.results@
    }

    /// The cap on fetches in flight holds.
    pub open spec fn wf(&self) -> bool {
        &&& self.in_flight().finite()
        &&& self.in_flight().len() <= MAX_IN_FLIGHT
    }

    pub fn new() -> (r: Self)
        ensures
            r.wf(),
            r.in_flight() == Set::<Key>::empty(),
            r.results() == Seq::<BrickReady<P>>::empty(),
    {
        let r = BrickGenWorkers { in_flight: KeySet::new(), results: VecDeque::new() };
        proof {
            assert(r.results() =~= Seq::<BrickReady<P>>::empty());
        }
        r
    }

    /// Number of fetches under way.
    pub fn in_flight_count(&self) -> (r: usize)
        ensures
            self.in_flight().finite(),
            r as nat == self.in_flight().len(),
    {
        self.in_flight.len()
    }

    /// Whether the cap on fetches in flight is reached.
    pub fn is_saturated(&self) -> (r: bool)
        ensures
            r == (self.in_flight().len() >= MAX_IN_FLIGHT),
    {
        self.in_flight.len() >= MAX_IN_FLIGHT
    }

    /// Whether a brick's fetch is under way.
    pub fn contains(&self, key: &Key) -> (r: bool)
        ensures
            r == self.in_flight().contains(*key),
    {
        self.in_flight.contains(*key)
    }

    /// Claims a brick for fetching. `true` means that the caller has to start
    /// the fetch; `false` that the cap is reached or the fetch is under way
    /// already, and nothing changed.
    pub fn dispatch(&mut self, coord: IVec3, lod: Lod) -> (r: bool)
        requires
            old(self).wf(),
        ensures
            final(self).wf(),
            r == (old(self).in_flight().len() < MAX_IN_FLIGHT && !old(self).in_flight().contains(
                (coord, lod.depth),
            )),
            final(self).in_flight() == (if r {
                old(self).in_flight().insert((coord, lod.depth))
            } else {
                old(self).in_flight()
            }),
            final(self).results() == old(self).results(),
    {
        if self.is_saturated() {
            return false;
        }
        let fresh: bool = self.in_flight.insert((coord, lod.depth));
        proof {
            if !fresh {
                assert(self.in_flight() =~= old(self).in_flight());
            }
        }
        fresh
    }

    /// Queues a finished result.
    pub fn deliver(&mut self, ready: BrickReady<P>)
        ensures
            final(self).in_flight() == old(self).in_flight(),
            final(self).results() == old(self).results().push(ready),
    {
        self.results.push_back(ready);
    }

    /// Hands out the oldest results, up to `budget` of them. Their bricks are
    /// no longer in flight.
    pub fn drain(&mut self, budget: usize) -> (r: Vec<BrickReady<P>>)
        requires
            old(self).wf(),
        ensures
            final(self).wf(),
            r@.len() == (if budget < old(self).results().len() {
                budget as nat
            } else {
                old(self).results().len()
            }),
            r@ == old(self).results().take(r@.len() as int),
            final(self).results() == old(self).results().skip(r@.len() as int),
            final(self).in_flight() == without(old(self).in_flight(), ready_keys(r@)),
            forall|k: Key| #[trigger]
                final(self).in_flight().contains(k) <==> old(self).in_flight().contains(k) && !(exists|i: int|
                    0 <= i < r@.len() && k == ((#[trigger] r@[i]).coord, r@[i].lod.depth)),
    {
        let mut out: Vec<BrickReady<P>> = Vec::new();
        let ghost all = self.results();
        let ghost before = self.in_flight();
        proof {
            assert(all.skip(0) =~= all);
            assert(out@ =~= all.take(0));
            assert(without(before, ready_keys(out@)) =~= before);
        }
        while out.len() < budget && self.results.len() > 0
            invariant
                all == old(self).results(),
                before == old(self).in_flight(),
                before.finite(),
                before.len() <= MAX_IN_FLIGHT,
                out@.len() <= budget,
                out@.len() <= all.len(),
                out@ == all.take(out@.len() as int),
                self.results() == all.skip(out@.len() as int),
                self.in_flight() == without(before, ready_keys(out@)),
            decreases budget - out@.len(),
        {
            let ghost n = out@.len() as int;
            let ghost done = ready_keys(out@);
            match self.results.pop_front() {
                Some(ready) => {
                    let key: Key = ready.key();
                    let _: bool = self.in_flight.remove(key);
                    out.push(ready);
                    proof {
                        assert(ready == all[n]);
                        assert(out@ =~= all.take(n + 1));
                        assert(self.results() =~= all.skip(n + 1));
                        let now = ready_keys(out@);
                        assert(now =~= done.push(key));
                        assert(self.in_flight() =~= without(before, now)) by {
                            assert forall|k: Key| now.contains(k) <==> (done.contains(k) || k == key) by {
                                if done.contains(k) {
                                    let i = done.index_of(k);
                                    assert(now[i] == k);
                                }
                                assert(now[n] == key);
                                if now.contains(k) && k != key {
                                    let i = now.index_of(k);
                                    assert(done[i] == k);
                                }
                            }
                        }
                    }
                },
                None => {},
            }
        }
        proof {
            vstd::set_lib::lemma_len_subset(self.in_flight(), before);
            assert forall|k: Key| #[trigger] self.in_flight().contains(k) <==> before.contains(k) && !(exists|i: int|
                0 <= i < out@.len() && k == ((#[trigger] out@[i]).coord, out@[i].lod.depth)) by {
                if exists|i: int| 0 <= i < out@.len() && k == ((#[trigger] out@[i]).coord, out@[i].lod.depth) {
                    let i = choose|i: int| 0 <= i < out@.len() && k == ((#[trigger] out@[i]).coord, out@[i].lod.depth);
                    assert(ready_keys(out@)[i] == k);
                }
                if ready_keys(out@).contains(k) {
                    let i = ready_keys(out@).index_of(k);
                    assert(k == (out@[i].coord, out@[i].lod.depth));
                }
            }
        }
        out
    }
}

/// Queue of brick refreshes, shared by the edit and the fracture paths.
///
/// A refresh fetches a brick's latest contents and meshes them again, which
/// takes longer than a frame. A brick that is written again meanwhile is marked
/// pending, and asks for one more refresh when the first one lands.
pub struct BrickRefreshQueue<P> {
    in_flight: KeySet,
    pending: KeySet,
    results: VecDeque<BrickReady<P>>,
}

/// The keys of `keys` that [`BrickRefreshQueue::claim`] hands back for
/// fetching: the first occurrence of each that is not in flight.
pub open spec fn fresh_keys(in_flight: Set<Key>, keys: Seq<Key>) -> Seq<Key>
    decreases keys.len(),
{
    if keys.len() == 0 {
        Seq::empty()
    } else {
        let front = fresh_keys(in_flight, keys.drop_last());
        if in_flight.contains(keys.last()) || keys.drop_last().contains(keys.last()) {
            front
        } else {
            front.push(keys.last())
        }
    }
}

/// The keys of `keys` that [`BrickRefreshQueue::claim`] marks pending: those in
/// flight, and those that occur a second time.
pub open spec fn repeated_keys(in_flight: Set<Key>, keys: Seq<Key>) -> Set<Key> {
    Set::new(
        |k: Key|
            exists|i: int|
                0 <= i < keys.len() && #[trigger] keys[i] == k && (in_flight.contains(k)
                    || keys.take(i).contains(k)),
    )
}

/// The state of a refresh queue: what is in flight and what is pending.
pub ghost struct RefreshState {
    pub in_flight: Set<Key>,
    pub pending: Set<Key>,
}

/// One finished refresh: the brick stays in flight if it was pending.
pub open spec fn land(s: RefreshState, key: Key) -> RefreshState {
    if s.pending.contains(key) {
        RefreshState { in_flight: s.in_flight.insert(key), pending: s.pending.remove(key) }
    } else {
        RefreshState { in_flight: s.in_flight.remove(key), pending: s.pending }
    }
}

/// Finished refreshes of `keys`, in order: the state afterwards, and the bricks
/// that ask for another refresh.
pub open spec fn land_all(s: RefreshState, keys: Seq<Key>) -> (RefreshState, Seq<Key>)
    decreases keys.len(),
{
    if keys.len() == 0 {
        (s, Seq::empty())
    } else {
        let (t, redo) = land_all(s, keys.drop_last());
        let key = keys.last();
        (
            land(t, key),
            if t.pending.contains(key) {
                redo.push(key)
            } else {
                redo
            },
        )
    }
}

impl<P> Default for BrickRefreshQueue<P> {
    fn default() -> (r: Self)
        ensures
            r.wf(),
            r.state() == (RefreshState { in_flight: Set::empty(), pending: Set::empty() }),
            r.results() == Seq::<BrickReady<P>>::empty(),
    {
        Self::new()
    }
}

impl<P> BrickRefreshQueue<P> {
    pub closed spec fn state(&self) -> RefreshState {
        RefreshState { in_flight: self.in_flight@, pending: self.pending@ }
    }

    /// Finished refreshes that were not drained yet, oldest first.
    pub closed spec fn results(&self) -> Seq<BrickReady<P>> {
        self.results@
    }

    /// Only bricks in flight are pending.
    pub open spec fn wf(&self) -> bool {
        self.state().pending.subset_of(self.state().in_flight)
    }

    pub fn new() -> (r: Self)
        ensures
            r.wf(),
            r.state() == (RefreshState { in_flight: Set::empty(), pending: Set::empty() }),
            r.results() == Seq::<BrickReady<P>>::empty(),
    {
        let r = BrickRefreshQueue {
            in_flight: KeySet::new(),
            pending: KeySet::new(),
            results: VecDeque::new(),
        };
        proof {
            assert(r.results() =~= Seq::<BrickReady<P>>::empty());
        }
        r
    }

    /// Claims `keys` for refresh and hands back those that the caller has to
    /// fetch. The others are under way and become pending.
    pub fn claim(&mut self, keys: &Vec<Key>) -> (r: Vec<Key>)
        requires
            old(self).wf(),
        ensures
            final(self).wf(),
            r@ == fresh_keys(old(self).state().in_flight, keys@),
            final(self).state().in_flight == old(self).state().in_flight.union(keys@.to_set()),
            final(self).state().pending == old(self).state().pending.union(
                repeated_keys(old(self).state().in_flight, keys@),
            ),
            final(self).results() == old(self).results(),
    {
        let mut fresh: Vec<Key> = Vec::new();
        let ghost start = self.state();
        let mut i: usize = 0;
        proof {
            assert(keys@.take(0) =~= Seq::<Key>::empty());
            assert(start.in_flight =~= start.in_flight.union(keys@.take(0).to_set()));
            assert(start.pending =~= start.pending.union(repeated_keys(start.in_flight, keys@.take(0))));
        }
        while i < keys.len()
            invariant
                i <= keys@.len(),
                start == old(self).state(),
                self.wf(),
                self.results() == old(self).results(),
                fresh@ == fresh_keys(start.in_flight, keys@.take(i as int)),
                self.state().in_flight == start.in_flight.union(keys@.take(i as int).to_set()),
                self.state().pending == start.pending.union(
                    repeated_keys(start.in_flight, keys@.take(i as int)),
                ),
            decreases keys@.len() - i,
        {
            let k: Key = keys[i];
            let ghost a = keys@.take(i as int);
            let ghost b = keys@.take(i + 1);
            let ghost mid = self.state();
            proof {
                assert(b.drop_last() =~= a);
                assert(b.last() == k);
                assert(mid.in_flight.contains(k) <==> (start.in_flight.contains(k) || a.contains(k)));
            }
            if self.in_flight.insert(k) {
                fresh.push(k);
            } else {
                let _: bool = self.pending.insert(k);
            }
            proof {
                assert(self.state().in_flight =~= start.in_flight.union(b.to_set())) by {
                    assert forall|q: Key| b.contains(q) <==> (a.contains(q) || q == k) by {
                        if a.contains(q) {
                            let j = a.index_of(q);
                            assert(b[j] == q);
                        }
                        assert(b[i as int] == k);
                        if b.contains(q) && q != k {
                            let j = b.index_of(q);
                            assert(a[j] == q);
                        }
                    }
                }
                let ra = repeated_keys(start.in_flight, a);
                let rb = repeated_keys(start.in_flight, b);
                assert forall|q: Key| rb.contains(q) <==> (ra.contains(q) || (q == k
                    && mid.in_flight.contains(k))) by {
                    if ra.contains(q) {
                        let j = choose|j: int|
                            0 <= j < a.len() && #[trigger] a[j] == q && (start.in_flight.contains(q)
                                || a.take(j).contains(q));
                        assert(b[j] == q);
                        assert(b.take(j) =~= a.take(j));
                    }
                    if rb.contains(q) {
                        let j = choose|j: int|
                            0 <= j < b.len() && #[trigger] b[j] == q && (start.in_flight.contains(q)
                                || b.take(j).contains(q));
                        assert(b.take(j) =~= keys@.take(j));
                        if j < i {
                            assert(a[j] == q);
                            assert(a.take(j) =~= keys@.take(j));
                        } else {
                            assert(b.take(j) =~= a);
                        }
                    }
                    if q == k && mid.in_flight.contains(k) {
                        assert(b[i as int] == k);
                        assert(b.take(i as int) =~= a);
                    }
                }
                assert(self.state().pending =~= start.pending.union(rb));
            }
            i += 1;
        }
        proof {
            assert(keys@.take(keys@.len() as int) =~= keys@);
        }
        fresh
    }

    /// Queues a finished refresh.
    pub fn deliver(&mut self, ready: BrickReady<P>)
        requires
            old(self).wf(),
        ensures
            final(self).wf(),
            final(self).state() == old(self).state(),
            final(self).results() == old(self).results().push(ready),
    {
        self.results.push_back(ready);
    }

    /// Hands out all finished refreshes, and the bricks that were written again
    /// meanwhile: those stay in flight and have to be fetched once more.
    pub fn drain(&mut self) -> (r: (Vec<BrickReady<P>>, Vec<Key>))
        requires
            old(self).wf(),
        ensures
            final(self).wf(),
            r.0@ == old(self).results(),
            final(self).results().len() == 0,
            (final(self).state(), r.1@) == land_all(old(self).state(), ready_keys(r.0@)),
    {
        let mut out: Vec<BrickReady<P>> = Vec::new();
        let mut redo: Vec<Key> = Vec::new();
        let ghost all = self.results();
        proof {
            assert(all.skip(0) =~= all);
            assert(out@ =~= all.take(0));
            assert(ready_keys(out@).len() == 0);
        }
        while self.results.len() > 0
            invariant
                all == old(self).results(),
                self.wf(),
                out@.len() <= all.len(),
                out@ == all.take(out@.len() as int),
                self.results() == all.skip(out@.len() as int),
                (self.state(), redo@) == land_all(old(self).state(), ready_keys(out@)),
            decreases self.results().len(),
        {
            let ghost n = out@.len() as int;
            let ghost done = ready_keys(out@);
            let ghost mid = self.state();
            match self.results.pop_front() {
                Some(ready) => {
                    let key: Key = ready.key();
                    let _: bool = self.in_flight.remove(key);
                    if self.pending.remove(key) {
                        let _: bool = self.in_flight.insert(key);
                        redo.push(key);
                    }
                    out.push(ready);
                    proof {
                        assert(ready == all[n]);
                        assert(out@ =~= all.take(n + 1));
                        assert(self.results() =~= all.skip(n + 1));
                        let now = ready_keys(out@);
                        assert(now.drop_last() =~= done);
                        assert(now.last() == key);
                        let want = land(mid, key);
                        assert(self.state().in_flight =~= want.in_flight);
                        assert(self.state().pending =~= want.pending);
                    }
                },
                None => {},
            }
        }
        proof {
            assert(all.take(all.len() as int) =~= all);
        }
        (out, redo)
    }

    /// Number of refreshes under way.
    pub fn in_flight_count(&self) -> (r: usize)
        ensures
            self.state().in_flight.finite(),
            r as nat == self.state().in_flight.len(),
    {
        self.in_flight.len()
    }
}

/// A pending brick stays pending while the refreshes of other bricks land.
proof fn lemma_land_keeps(s: RefreshState, keys: Seq<Key>, key: Key)
    requires
        s.pending.contains(key),
        !keys.contains(key),
    ensures
        land_all(s, keys).0.pending.contains(key),
        !land_all(s, keys).1.contains(key),
    decreases keys.len(),
{
    if keys.len() > 0 {
        let front = keys.drop_last();
        assert(!front.contains(key)) by {
            if front.contains(key) {
                let i = front.index_of(key);
                assert(keys[i] == key);
            }
        }
        lemma_land_keeps(s, front, key);
        assert(keys.last() != key) by {
            assert(keys[keys.len() - 1] == keys.last());
        }
    }
}

/// A write to a brick whose refresh is under way is never lost: the brick is
/// pending, and when its refresh lands it is asked for once more and stays in
/// flight.
pub proof fn dirtied_again_is_refetched(s: RefreshState, before: Seq<Key>, key: Key)
    requires
        s.pending.contains(key),
        !before.contains(key),
    ensures
        land_all(s, before.push(key)).1 == land_all(s, before).1.push(key),
        land_all(s, before.push(key)).0.in_flight.contains(key),
        !land_all(s, before.push(key)).0.pending.contains(key),
{
    lemma_land_keeps(s, before, key);
    assert(before.push(key).drop_last() =~= before);
}

/// A claim hands a brick back for fetching at most once, and never one whose
/// refresh is under way.
pub proof fn no_brick_is_fetched_twice(in_flight: Set<Key>, keys: Seq<Key>)
    ensures
        fresh_keys(in_flight, keys).no_duplicates(),
        forall|k: Key| #[trigger]
            fresh_keys(in_flight, keys).contains(k) <==> keys.contains(k) && !in_flight.contains(k),
    decreases keys.len(),
{
    if keys.len() > 0 {
        let front = keys.drop_last();
        no_brick_is_fetched_twice(in_flight, front);
        let before = fresh_keys(in_flight, front);
        let after = fresh_keys(in_flight, keys);
        let last = keys.last();
        assert forall|k: Key| keys.contains(k) <==> (front.contains(k) || k == last) by {
            if front.contains(k) {
                let i = front.index_of(k);
                assert(keys[i] == k);
            }
            assert(keys[keys.len() - 1] == last);
            if keys.contains(k) && k != last {
                let i = keys.index_of(k);
                assert(front[i] == k);
            }
        }
        if !(in_flight.contains(last) || front.contains(last)) {
            assert(!before.contains(last));
            assert forall|k: Key| #[trigger] after.contains(k) <==> (before.contains(k) || k == last) by {
                if before.contains(k) {
                    let i = before.index_of(k);
                    assert(after[i] == k);
                }
                assert(after[before.len() as int] == last);
                if after.contains(k) && k != last {
                    let i = after.index_of(k);
                    assert(before[i] == k);
                }
            }
            assert forall|i: int, j: int| 0 <= i < after.len() && 0 <= j < after.len() && i != j implies after[i]
                != after[j] by {
                if i == before.len() {
                    assert(before.contains(before[j]));
                } else if j == before.len() {
                    assert(before.contains(before[i]));
                }
            }
        }
    }
}

/// A refresh that lands with nothing pending ends the brick's flight.
pub proof fn a_clean_refresh_lands(s: RefreshState, before: Seq<Key>, key: Key)
    requires
        !s.pending.contains(key),
    ensures
        !land_all(s, before.push(key)).0.in_flight.contains(key),
        land_all(s, before.push(key)).1 == land_all(s, before).1,
{
    assert(before.push(key).drop_last() =~= before);
    lemma_pending_shrinks(s, before);
}

proof fn lemma_pending_shrinks(s: RefreshState, keys: Seq<Key>)
    ensures
        land_all(s, keys).0.pending.subset_of(s.pending),
    decreases keys.len(),
{
    if keys.len() > 0 {
        lemma_pending_shrinks(s, keys.drop_last());
    }
}

/// Where nothing is pending, nothing is fetched again.
pub(crate) proof fn lemma_nothing_pending(s: RefreshState, keys: Seq<Key>)
    requires
        s.pending == Set::<Key>::empty(),
    ensures
        land_all(s, keys).0.pending == Set::<Key>::empty(),
        land_all(s, keys).1.len() == 0,
    decreases keys.len(),
{
    if keys.len() > 0 {
        lemma_nothing_pending(s, keys.drop_last());
    }
}

proof fn lemma_fresh(in_flight: Set<Key>, keys: Seq<Key>, n: int) -> (at: Seq<int>)
    requires
        0 <= n <= keys.len(),
    ensures
        is_selection(at, n, |i: int| !in_flight.contains(keys[i]) && !keys.take(i).contains(keys[i])),
        fresh_keys(in_flight, keys.take(n)).len() == at.len(),
        forall|p: int|
            0 <= p < at.len() ==> #[trigger] fresh_keys(in_flight, keys.take(n))[p] == keys[at[p]],
    decreases n,
{
    let wanted = |i: int| !in_flight.contains(keys[i]) && !keys.take(i).contains(keys[i]);
    if n == 0 {
        lemma_select_none(wanted);
        Seq::<int>::empty()
    } else {
        let front = lemma_fresh(in_flight, keys, n - 1);
        assert(keys.take(n).drop_last() =~= keys.take(n - 1));
        assert(keys.take(n).last() == keys[n - 1]);
        lemma_select_next(front, n - 1, wanted)
    }
}

/// A claim hands back every brick that is not in flight where it first occurs,
/// in the order of the claim, and no other.
pub proof fn a_claim_keeps_the_order(in_flight: Set<Key>, keys: Seq<Key>) -> (at: Seq<int>)
    ensures
        is_selection(
            at,
            keys.len() as int,
            |i: int| !in_flight.contains(keys[i]) && !keys.take(i).contains(keys[i]),
        ),
        fresh_keys(in_flight, keys).len() == at.len(),
        forall|p: int| 0 <= p < at.len() ==> #[trigger] fresh_keys(in_flight, keys)[p] == keys[at[p]],
{
    let at = lemma_fresh(in_flight, keys, keys.len() as int);
    assert(keys.take(keys.len() as int) =~= keys);
    at
}

/// A claimed brick is marked pending exactly where it was in flight already or
/// is claimed twice.
pub proof fn a_repeated_claim_is_pending(in_flight: Set<Key>, keys: Seq<Key>, k: Key)
    ensures
        repeated_keys(in_flight, keys).contains(k) <==> keys.contains(k) && (in_flight.contains(k) || exists|i: int, j: int|
            0 <= i < j < keys.len() && #[trigger] keys[i] == k && #[trigger] keys[j] == k),
{
    if repeated_keys(in_flight, keys).contains(k) {
        let j = choose|j: int|
            0 <= j < keys.len() && #[trigger] keys[j] == k && (in_flight.contains(k) || keys.take(j).contains(k));
        if keys.take(j).contains(k) {
            let i = keys.take(j).index_of(k);
            assert(keys[i] == k && keys[j] == k);
        }
    }
    if keys.contains(k) && in_flight.contains(k) {
        let i = keys.index_of(k);
        assert(keys[i] == k);
    }
    if exists|i: int, j: int| 0 <= i < j < keys.len() && #[trigger] keys[i] == k && #[trigger] keys[j] == k {
        let (i, j) = choose|i: int, j: int|
            0 <= i < j < keys.len() && #[trigger] keys[i] == k && #[trigger] keys[j] == k;
        assert(keys.take(j)[i] == k);
    }
}

/// Refreshes that land concern their own bricks alone. Of those, exactly the
/// ones that were written meanwhile are asked for once more, each once; those
/// stay in flight, and the others are done.
pub proof fn landing_concerns_its_own_bricks(s: RefreshState, keys: Seq<Key>, k: Key)
    ensures
        ({
            let (t, redo) = land_all(s, keys);
            &&& redo.contains(k) <==> keys.contains(k) && s.pending.contains(k)
            &&& redo.no_duplicates()
            &&& t.pending.contains(k) <==> s.pending.contains(k) && !keys.contains(k)
            &&& !keys.contains(k) ==> (t.in_flight.contains(k) <==> s.in_flight.contains(k))
            &&& keys.contains(k) && !s.pending.contains(k) ==> !t.in_flight.contains(k)
            &&& keys.no_duplicates() && keys.contains(k) && s.pending.contains(k) ==> t.in_flight.contains(k)
        }),
    decreases keys.len(),
{
    if keys.len() > 0 {
        let front = keys.drop_last();
        let last = keys.last();
        let (m, some) = land_all(s, front);
        let (t, redo) = land_all(s, keys);
        landing_concerns_its_own_bricks(s, front, k);
        landing_concerns_its_own_bricks(s, front, last);
        assert(keys.contains(k) <==> (front.contains(k) || k == last)) by {
            if front.contains(k) {
                let i = front.index_of(k);
                assert(keys[i] == k);
            }
            assert(keys[keys.len() - 1] == last);
            if keys.contains(k) && k != last {
                let i = keys.index_of(k);
                assert(front[i] == k);
            }
        }
        if m.pending.contains(last) {
            assert(redo == some.push(last));
            assert(redo.contains(k) <==> (some.contains(k) || k == last)) by {
                if some.contains(k) {
                    let i = some.index_of(k);
                    assert(redo[i] == k);
                }
                assert(redo[some.len() as int] == last);
                if redo.contains(k) && k != last {
                    let i = redo.index_of(k);
                    assert(some[i] == k);
                }
            }
            assert forall|i: int, j: int| 0 <= i < redo.len() && 0 <= j < redo.len() && i != j implies redo[i]
                != redo[j] by {
                if i == some.len() {
                    assert(some.contains(some[j]));
                } else if j == some.len() {
                    assert(some.contains(some[i]));
                }
            }
        }
        if keys.no_duplicates() {
            assert forall|i: int, j: int| 0 <= i < front.len() && 0 <= j < front.len() && i != j implies front[i]
                != front[j] by {
                assert(keys[i] != keys[j]);
            }
            assert(!front.contains(last)) by {
                if front.contains(last) {
                    let i = front.index_of(last);
                    assert(keys[i] == keys[keys.len() - 1]);
                }
            }
        }
    }
}

} // verus!
