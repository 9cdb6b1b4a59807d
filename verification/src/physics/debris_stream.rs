//! Debris as the host moves it: the latest two samples of every piece, between
//! which it is shown.

use crate::key_map::{Change, SortedMap, SortedSet};
use crate::measure::{Real32, Real64};
use crate::order::{is_selection, lemma_select_next, lemma_select_none, lemma_select_same};
use vstd::prelude::*;

verus! {

/// A piece at rest is removed after this silence: 2 seconds.
pub const SETTLE_TIMEOUT_S: u64 = 0x4000_0000_0000_0000;

/// Any piece is removed after this silence: 5 seconds.
pub const STREAM_DROP_S: u64 = 0x4014_0000_0000_0000;

/// Height below which a piece is gone: 512 meters below zero.
pub const KILL_Y: u32 = 0xc400_0000;

/// Half the edge of the region that is subscribed to, in voxels.
pub const DEBRIS_SUB_HALF: i64 = 64;

/// A position, by the bits of its coordinates.
#[derive(Clone, Copy, Debug, PartialEq, Eq, Structural)]
pub struct Position {
    pub x: Real32,
    pub y: Real32,
    pub z: Real32,
}

/// A rotation, by the bits of its quaternion.
#[derive(Clone, Copy, Debug, PartialEq, Eq, Structural)]
pub struct Rotation {
    pub x: Real32,
    pub y: Real32,
    pub z: Real32,
    pub w: Real32,
}

/// One state of a piece.
#[derive(Clone, Copy, Debug, PartialEq, Eq, Structural)]
pub struct DebrisSample {
    pub tick: u64,
    pub pos: Position,
    pub orient: Rotation,
    pub sleeping: bool,
}

/// The latest samples of a piece.
#[derive(Clone, Copy, Debug, PartialEq, Eq, Structural)]
pub struct DebrisTrack {
    /// The entity that shows it, once it is spawned.
    pub entity: Option<u64>,
    pub prev: Option<DebrisSample>,
    pub curr: Option<DebrisSample>,
    /// Time of the latest sample.
    pub last_update: Real64,
}

/// A track of which nothing is known yet.
pub open spec fn blank_track() -> DebrisTrack {
    DebrisTrack { entity: None, prev: None, curr: None, last_update: Real64 { bits: 0 } }
}

/// The track of `id`, or a blank one.
pub open spec fn track_of(tracks: Map<u32, DebrisTrack>, id: u32) -> DebrisTrack {
    if tracks.dom().contains(id) {
        tracks[id]
    } else {
        blank_track()
    }
}

/// A track with a newer sample taken in.
pub open spec fn advanced(track: DebrisTrack, sample: DebrisSample, now: Real64) -> DebrisTrack {
    match track.curr {
        Some(c) if sample.tick <= c.tick => track,
        _ => DebrisTrack { prev: track.curr, curr: Some(sample), last_update: now, ..track },
    }
}

/// All tracks of debris, by the host's number.
pub struct DebrisInterp {
    tracks: SortedMap<u32, DebrisTrack>,
}

impl View for DebrisInterp {
    type V = Map<u32, DebrisTrack>;

    closed spec fn view(&self) -> Map<u32, DebrisTrack> {
        self.tracks@
    }
}

impl Default for DebrisInterp {
    fn default() -> (r: Self)
        ensures
            r@ == Map::<u32, DebrisTrack>::empty(),
    {
        DebrisInterp { tracks: SortedMap::new() }
    }
}

/// Where a piece is shown.
#[derive(Clone, Copy, Debug, PartialEq, Eq, Structural)]
pub enum TrackPose {
    /// Nothing is known of it.
    Unknown,
    /// Exactly at a sample.
    At(DebrisSample),
    /// On the way from one sample to the other.
    Between { prev: DebrisSample, curr: DebrisSample },
}

/// Where a piece is shown: at its first sample, at rest at its last one, and
/// otherwise on the way between the two.
pub open spec fn pose_of(track: DebrisTrack) -> TrackPose {
    match (track.prev, track.curr) {
        (_, None) => TrackPose::Unknown,
        (None, Some(c)) => TrackPose::At(c),
        (Some(p), Some(c)) => if c.sleeping {
            TrackPose::At(c)
        } else {
            TrackPose::Between { prev: p, curr: c }
        },
    }
}

/// Where a piece is shown.
pub fn track_pose(track: &DebrisTrack) -> (r: TrackPose)
    ensures
        r == pose_of(*track),
{
    match track.curr {
        None => TrackPose::Unknown,
        Some(curr) => match track.prev {
            None => TrackPose::At(curr),
            Some(prev) => if curr.sleeping {
                TrackPose::At(curr)
            } else {
                TrackPose::Between { prev, curr }
            },
        },
    }
}

/// The tracks once samples were taken in, in their order.
pub open spec fn pumped(
    tracks: Map<u32, DebrisTrack>,
    deltas: Seq<(u32, DebrisSample)>,
    now: Real64,
) -> Map<u32, DebrisTrack>
    decreases deltas.len(),
{
    if deltas.len() == 0 {
        tracks
    } else {
        let front = pumped(tracks, deltas.drop_last(), now);
        let (id, sample) = deltas.last();
        front.insert(id, advanced(track_of(front, id), sample, now))
    }
}

/// An entity of a piece, with where it is shown. Between two samples that is
/// as far on the way as the time since `since` allows.
#[derive(Clone, Copy, Debug, PartialEq, Eq, Structural)]
pub struct Placement {
    pub entity: u64,
    pub pose: TrackPose,
    pub since: Real64,
}

/// The entities of the tracks `ids` that have one and of which something is
/// known, each with where it is shown.
pub open spec fn placed(tracks: Map<u32, DebrisTrack>, ids: Seq<u32>) -> Seq<Placement>
    decreases ids.len(),
{
    if ids.len() == 0 {
        Seq::empty()
    } else {
        let front = placed(tracks, ids.drop_last());
        let track = tracks[ids.last()];
        match track.entity {
            Some(entity) if !(pose_of(track) is Unknown) => front.push(
                Placement { entity, pose: pose_of(track), since: track.last_update },
            ),
            _ => front,
        }
    }
}

/// A shown piece.
#[derive(Clone, Copy, Debug, PartialEq, Eq, Structural)]
pub struct ShownDebris {
    pub entity: u64,
    pub id: u32,
    pub y: Real32,
}

/// A piece is due to be removed: it has been silent for long enough.
pub open spec fn is_due(track: DebrisTrack, quiet: Real64) -> bool {
    let sleeping = match track.curr {
        Some(c) => c.sleeping,
        None => false,
    };
    (sleeping && (Real64 { bits: SETTLE_TIMEOUT_S }).less(quiet)) || (Real64 {
        bits: STREAM_DROP_S,
    }).less(quiet)
}

/// `id` is due, by one of the measured silences.
pub open spec fn retires(tracks: Map<u32, DebrisTrack>, quiet: Seq<(u32, Real64)>, id: u32) -> bool {
    exists|i: int|
        0 <= i < quiet.len() && (#[trigger] quiet[i]).0 == id && tracks.dom().contains(id) && is_due(
            tracks[id],
            quiet[i].1,
        )
}

/// A shown piece is removed: its track is due or it fell out of the world.
pub open spec fn leaves(tracks: Map<u32, DebrisTrack>, quiet: Seq<(u32, Real64)>, b: ShownDebris) -> bool {
    retires(tracks, quiet, b.id) || b.y.less(Real32 { bits: KILL_Y })
}

/// The entities among the first `n` shown pieces that are removed.
pub open spec fn despawned(
    tracks: Map<u32, DebrisTrack>,
    quiet: Seq<(u32, Real64)>,
    shown: Seq<ShownDebris>,
    n: int,
) -> Seq<u64>
    decreases n,
{
    if n <= 0 {
        Seq::empty()
    } else {
        let front = despawned(tracks, quiet, shown, n - 1);
        if leaves(tracks, quiet, shown[n - 1]) {
            front.push(shown[n - 1].entity)
        } else {
            front
        }
    }
}

/// The track of `id` is dropped.
pub open spec fn dropped(
    tracks: Map<u32, DebrisTrack>,
    quiet: Seq<(u32, Real64)>,
    shown: Seq<ShownDebris>,
    id: u32,
) -> bool {
    retires(tracks, quiet, id) || exists|i: int|
        0 <= i < shown.len() && (#[trigger] shown[i]).id == id && leaves(tracks, quiet, shown[i])
}

impl DebrisInterp {
    fn track(&self, id: u32) -> (r: DebrisTrack)
        ensures
            r == track_of(self@, id),
    {
        match self.tracks.get(id) {
            Some(t) => *t,
            None => DebrisTrack { entity: None, prev: None, curr: None, last_update: Real64 { bits: 0 } },
        }
    }

    /// Takes in a sample. One that is not newer than the latest is dropped, so
    /// that late delivery cannot turn time back.
    pub fn ingest(&mut self, id: u32, sample: DebrisSample, now: Real64)
        ensures
            final(self)@ == old(self)@.insert(id, advanced(track_of(old(self)@, id), sample, now)),
    {
        let mut track: DebrisTrack = self.track(id);
        let newer: bool = match track.curr {
            Some(c) => sample.tick > c.tick,
            None => true,
        };
        if newer {
            track.prev = track.curr;
            track.curr = Some(sample);
            track.last_update = now;
        }
        self.tracks.insert(id, track);
    }

    /// Takes in the samples that the host sent since the last frame.
    pub fn pump_debris_states(&mut self, deltas: &Vec<(u32, DebrisSample)>, now: Real64)
        ensures
            final(self)@ == pumped(old(self)@, deltas@, now),
    {
        proof {
            assert(deltas@.take(0) =~= Seq::<(u32, DebrisSample)>::empty());
        }
        let mut i: usize = 0;
        while i < deltas.len()
            invariant
                i <= deltas@.len(),
                self@ == pumped(old(self)@, deltas@.take(i as int), now),
            decreases deltas@.len() - i,
        {
            proof {
                assert(deltas@.take(i + 1).drop_last() =~= deltas@.take(i as int));
                assert(deltas@.take(i + 1).last() == deltas@[i as int]);
            }
            self.ingest(deltas[i].0, deltas[i].1, now);
            i += 1;
        }
        proof {
            assert(deltas@.take(deltas@.len() as int) =~= deltas@);
        }
    }

    /// Where every piece that has an entity is shown.
    pub fn apply_debris_interpolation(&self) -> (r: Vec<Placement>)
        ensures
            exists|ids: Seq<u32>|
                ids.no_duplicates() && ids.to_set() == self@.dom() && r@ == #[trigger] placed(self@, ids),
    {
        let ids: Vec<u32> = self.ids();
        let mut out: Vec<Placement> = Vec::new();
        proof {
            assert(ids@.take(0) =~= Seq::<u32>::empty());
        }
        let mut i: usize = 0;
        while i < ids.len()
            invariant
                i <= ids@.len(),
                ids@.to_set() == self@.dom(),
                out@ == placed(self@, ids@.take(i as int)),
            decreases ids@.len() - i,
        {
            proof {
                assert(ids@.take(i + 1).drop_last() =~= ids@.take(i as int));
                assert(ids@.take(i + 1).last() == ids@[i as int]);
                assert(ids@.to_set().contains(ids@[i as int]));
            }
            let track: DebrisTrack = self.track(ids[i]);
            let pose: TrackPose = track_pose(&track);
            match track.entity {
                Some(entity) => {
                    if pose != TrackPose::Unknown {
                        out.push(Placement { entity, pose, since: track.last_update });
                    }
                },
                None => {},
            }
            i += 1;
        }
        proof {
            assert(ids@.take(ids@.len() as int) =~= ids@);
        }
        out
    }

    /// Binds a spawned entity to its piece. Samples that came before are kept.
    pub fn attach_entity(&mut self, id: u32, entity: u64, now: Real64)
        ensures
            ({
                let t = track_of(old(self)@, id);
                final(self)@ == old(self)@.insert(
                    id,
                    DebrisTrack {
                        entity: Some(entity),
                        last_update: if t.last_update.magnitude() == 0 {
                            now
                        } else {
                            t.last_update
                        },
                        ..t
                    },
                )
            }),
    {
        let mut track: DebrisTrack = self.track(id);
        track.entity = Some(entity);
        if track.last_update.bits == 0 || track.last_update.bits == 0x8000_0000_0000_0000 {
            track.last_update = now;
        }
        self.tracks.insert(id, track);
    }

    /// The track of a piece.
    pub fn get(&self, id: u32) -> (r: Option<DebrisTrack>)
        ensures
            r == (if self@.dom().contains(id) {
                Some(self@[id])
            } else {
                None
            }),
    {
        match self.tracks.get(id) {
            Some(t) => Some(*t),
            None => None,
        }
    }

    /// The numbers of all tracks, each once.
    pub fn ids(&self) -> (r: Vec<u32>)
        ensures
            r@.to_set() == self@.dom(),
            r@.no_duplicates(),
    {
        self.tracks.keys()
    }

    /// Removes the debris that came to rest, fell silent or fell out of the
    /// world. `quiet` gives the silence of tracks, in seconds, and `shown` the
    /// pieces that have an entity; the entities to remove come back, and their
    /// tracks are dropped with the silent ones.
    pub fn retire_host_debris(&mut self, quiet: &Vec<(u32, Real64)>, shown: &Vec<ShownDebris>) -> (r: Vec<u64>)
        ensures
            r@ == despawned(old(self)@, quiet@, shown@, shown@.len() as int),
            forall|id: u32| #[trigger]
                final(self)@.dom().contains(id) <==> old(self)@.dom().contains(id) && !dropped(
                    old(self)@,
                    quiet@,
                    shown@,
                    id,
                ),
            forall|id: u32| #[trigger]
                final(self)@.dom().contains(id) ==> final(self)@[id] == old(self)@[id],
    {
        let ghost tracks = self@;
        let mut retire: SortedSet<u32> = SortedSet::new();
        let mut i: usize = 0;
        while i < quiet.len()
            invariant
                i <= quiet@.len(),
                tracks == self@,
                tracks == old(self)@,
                forall|id: u32| #[trigger] retire@.contains(id) <==> retires(tracks, quiet@.take(i as int), id),
            decreases quiet@.len() - i,
        {
            let id: u32 = quiet[i].0;
            let q: Real64 = quiet[i].1;
            let ghost a = quiet@.take(i as int);
            let ghost b = quiet@.take(i + 1);
            let ghost before = retire@;
            let mut due: bool = false;
            match self.tracks.get(id) {
                Some(track) => {
                    let sleeping: bool = match track.curr {
                        Some(c) => c.sleeping,
                        None => false,
                    };
                    due = (sleeping && (Real64 { bits: SETTLE_TIMEOUT_S }).lt(q)) || (Real64 {
                        bits: STREAM_DROP_S,
                    }).lt(q);
                },
                None => {},
            }
            if due {
                let _: bool = retire.insert(id);
            }
            proof {
                assert forall|k: u32| #[trigger] retire@.contains(k) <==> retires(tracks, b, k) by {
                    assert(before.contains(k) <==> retires(tracks, a, k));
                    if retires(tracks, a, k) {
                        let j = choose|j: int|
                            0 <= j < a.len() && (#[trigger] a[j]).0 == k && tracks.dom().contains(k) && is_due(
                                tracks[k],
                                a[j].1,
                            );
                        assert(b[j] == a[j]);
                    }
                    if retires(tracks, b, k) {
                        let j = choose|j: int|
                            0 <= j < b.len() && (#[trigger] b[j]).0 == k && tracks.dom().contains(k) && is_due(
                                tracks[k],
                                b[j].1,
                            );
                        if j < i {
                            assert(a[j] == b[j]);
                        }
                    }
                    if due && k == id {
                        assert(b[i as int] == quiet@[i as int]);
                    }
                }
            }
            i += 1;
        }
        proof {
            assert(quiet@.take(quiet@.len() as int) =~= quiet@);
        }
        let mut out: Vec<u64> = Vec::new();
        let mut n: usize = 0;
        while n < shown.len()
            invariant
                n <= shown@.len(),
                tracks == old(self)@,
                forall|id: u32| #[trigger] retire@.contains(id) <==> retires(tracks, quiet@, id),
                out@ == despawned(tracks, quiet@, shown@, n as int),
                forall|id: u32| #[trigger]
                    self@.dom().contains(id) <==> tracks.dom().contains(id) && !(exists|k: int|
                        0 <= k < n && (#[trigger] shown@[k]).id == id && leaves(tracks, quiet@, shown@[k])),
                forall|id: u32| #[trigger] self@.dom().contains(id) ==> self@[id] == tracks[id],
            decreases shown@.len() - n,
        {
            let b: ShownDebris = shown[n];
            let ghost before = self@;
            if retire.contains(b.id) || b.y.lt(Real32 { bits: KILL_Y }) {
                out.push(b.entity);
                let _ = self.tracks.remove(b.id);
                proof {
                    assert(self@ =~= before.remove(b.id));
                }
            }
            proof {
                assert forall|id: u32| #[trigger]
                    self@.dom().contains(id) <==> tracks.dom().contains(id) && !(exists|k: int|
                        0 <= k < n + 1 && (#[trigger] shown@[k]).id == id && leaves(
                            tracks,
                            quiet@,
                            shown@[k],
                        )) by {
                    if exists|k: int|
                        0 <= k < n && (#[trigger] shown@[k]).id == id && leaves(tracks, quiet@, shown@[k]) {
                        let k = choose|k: int|
                            0 <= k < n && (#[trigger] shown@[k]).id == id && leaves(tracks, quiet@, shown@[k]);
                        assert(shown@[k].id == id);
                    }
                    assert(before.dom().contains(id) <==> tracks.dom().contains(id) && !(exists|k: int|
                        0 <= k < n && (#[trigger] shown@[k]).id == id && leaves(tracks, quiet@, shown@[k])));
                    assert(shown@[n as int] == b);
                }
            }
            n += 1;
        }
        let ids: Vec<u32> = retire.keys();
        let ghost mid = self@;
        let mut m: usize = 0;
        while m < ids.len()
            invariant
                m <= ids@.len(),
                ids@.to_set() == retire@,
                forall|id: u32| #[trigger]
                    self@.dom().contains(id) <==> mid.dom().contains(id) && !ids@.take(m as int).contains(id),
                forall|id: u32| #[trigger] self@.dom().contains(id) ==> self@[id] == mid[id],
            decreases ids@.len() - m,
        {
            let ghost before = self@;
            let id: u32 = ids[m];
            let _ = self.tracks.remove(id);
            proof {
                assert(self@ =~= before.remove(id));
                let a = ids@.take(m as int);
                let b = ids@.take(m + 1);
                assert forall|k: u32| b.contains(k) <==> (a.contains(k) || k == id) by {
                    if a.contains(k) {
                        let j = a.index_of(k);
                        assert(b[j] == k);
                    }
                    assert(b[m as int] == id);
                    if b.contains(k) && k != id {
                        let j = b.index_of(k);
                        assert(a[j] == k);
                    }
                }
            }
            m += 1;
        }
        proof {
            assert(ids@.take(ids@.len() as int) =~= ids@);
            assert forall|id: u32| #[trigger] self@.dom().contains(id) <==> tracks.dom().contains(id) && !dropped(
                tracks,
                quiet@,
                shown@,
                id,
            ) by {
                assert(ids@.to_set().contains(id) <==> retire@.contains(id));
            }
        }
        out
    }
}

/// Time never turns back: a sample is taken in only if it is newer, and the
/// latest tick of a piece never falls.
pub proof fn ticks_never_fall(track: DebrisTrack, sample: DebrisSample, now: Real64)
    requires
        track.curr is Some,
    ensures
        advanced(track, sample, now).curr is Some,
        advanced(track, sample, now).curr->0.tick >= track.curr->0.tick,
        sample.tick <= track.curr->0.tick ==> advanced(track, sample, now) == track,
{
}

/// A first sample, or one newer than the latest, becomes the latest, and the
/// latest becomes the one before; the entity stays.
pub proof fn a_newer_sample_is_taken_in(track: DebrisTrack, sample: DebrisSample, now: Real64)
    requires
        track.curr is None || sample.tick > track.curr->0.tick,
    ensures
        advanced(track, sample, now).curr == Some(sample),
        advanced(track, sample, now).prev == track.curr,
        advanced(track, sample, now).last_update == now,
        advanced(track, sample, now).entity == track.entity,
{
}

/// After samples were taken in, a piece that none of them is of is as it was. A
/// piece that some are of is tracked, its latest sample is at least as new as
/// each of them, and is one of them or the one it had.
pub proof fn the_newest_sample_wins(
    tracks: Map<u32, DebrisTrack>,
    deltas: Seq<(u32, DebrisSample)>,
    now: Real64,
    id: u32,
)
    ensures
        ({
            let after = pumped(tracks, deltas, now);
            &&& (forall|i: int| 0 <= i < deltas.len() ==> (#[trigger] deltas[i]).0 != id) ==> (after.dom().contains(id)
                <==> tracks.dom().contains(id)) && (tracks.dom().contains(id) ==> after[id] == tracks[id])
            &&& forall|i: int|
                0 <= i < deltas.len() && (#[trigger] deltas[i]).0 == id ==> after.dom().contains(id)
                    && after[id].curr is Some && after[id].curr->0.tick >= deltas[i].1.tick
            &&& after.dom().contains(id) ==> after[id].curr == track_of(tracks, id).curr || exists|i: int|
                0 <= i < deltas.len() && (#[trigger] deltas[i]).0 == id && after[id].curr == Some(deltas[i].1)
            &&& after.dom().contains(id) ==> after[id].entity == track_of(tracks, id).entity
            &&& tracks.dom().contains(id) ==> after.dom().contains(id)
        }),
    decreases deltas.len(),
{
    if deltas.len() > 0 {
        let front = deltas.drop_last();
        let n = deltas.len() - 1;
        the_newest_sample_wins(tracks, front, now, id);
        let mid = pumped(tracks, front, now);
        let after = pumped(tracks, deltas, now);
        assert(deltas[n] == deltas.last());
        assert forall|i: int| 0 <= i < deltas.len() && (#[trigger] deltas[i]).0 == id implies after.dom().contains(
            id,
        ) && after[id].curr is Some && after[id].curr->0.tick >= deltas[i].1.tick by {
            if i < n {
                assert(front[i] == deltas[i]);
            }
        }
        if forall|i: int| 0 <= i < deltas.len() ==> (#[trigger] deltas[i]).0 != id {
            assert forall|i: int| 0 <= i < front.len() implies (#[trigger] front[i]).0 != id by {
                assert(front[i] == deltas[i]);
            }
            assert(deltas[n].0 != id);
        }
        if after.dom().contains(id) && after[id].curr != track_of(tracks, id).curr {
            if deltas[n].0 == id && after[id].curr == Some(deltas[n].1) {
            } else {
                assert(mid.dom().contains(id));
                let i = choose|i: int|
                    0 <= i < front.len() && (#[trigger] front[i]).0 == id && mid[id].curr == Some(front[i].1);
                assert(deltas[i] == front[i]);
            }
        }
    }
}

/// A piece is shown at its latest sample where that is its first one or it is
/// at rest there, and otherwise between its latest two; before any sample it is
/// not shown.
pub proof fn a_piece_is_shown_by_its_latest_samples(track: DebrisTrack)
    ensures
        track.curr is None <==> pose_of(track) is Unknown,
        track.curr is Some && (track.prev is None || track.curr->0.sleeping) ==> pose_of(track) == TrackPose::At(
            track.curr->0,
        ),
        track.curr is Some && track.prev is Some && !track.curr->0.sleeping ==> pose_of(track) == (
        TrackPose::Between { prev: track.prev->0, curr: track.curr->0 }),
{
}

proof fn lemma_placed(tracks: Map<u32, DebrisTrack>, ids: Seq<u32>, n: int) -> (at: Seq<int>)
    requires
        0 <= n <= ids.len(),
    ensures
        is_selection(at, n, |i: int| tracks[ids[i]].entity is Some && tracks[ids[i]].curr is Some),
        placed(tracks, ids.take(n)).len() == at.len(),
        forall|p: int|
            0 <= p < at.len() ==> Some((#[trigger] placed(tracks, ids.take(n))[p]).entity) == tracks[ids[at[p]]].entity
                && placed(tracks, ids.take(n))[p].pose == pose_of(tracks[ids[at[p]]]) && placed(
                tracks,
                ids.take(n),
            )[p].since == tracks[ids[at[p]]].last_update,
    decreases n,
{
    let wanted = |i: int| tracks[ids[i]].entity is Some && tracks[ids[i]].curr is Some;
    if n == 0 {
        lemma_select_none(wanted);
        Seq::<int>::empty()
    } else {
        let front = lemma_placed(tracks, ids, n - 1);
        assert(ids.take(n).drop_last() =~= ids.take(n - 1));
        assert(ids.take(n).last() == ids[n - 1]);
        lemma_select_next(front, n - 1, wanted)
    }
}

/// Every piece that has an entity and a sample is placed, once, and no other is.
pub proof fn every_known_piece_is_placed(tracks: Map<u32, DebrisTrack>, ids: Seq<u32>) -> (at: Seq<int>)
    ensures
        is_selection(
            at,
            ids.len() as int,
            |i: int| tracks[ids[i]].entity is Some && tracks[ids[i]].curr is Some,
        ),
        placed(tracks, ids).len() == at.len(),
        forall|p: int|
            0 <= p < at.len() ==> Some((#[trigger] placed(tracks, ids)[p]).entity) == tracks[ids[at[p]]].entity && placed(
                tracks,
                ids,
            )[p].pose == pose_of(tracks[ids[at[p]]]) && placed(tracks, ids)[p].since == tracks[ids[at[p]]].last_update,
{
    let at = lemma_placed(tracks, ids, ids.len() as int);
    assert(ids.take(ids.len() as int) =~= ids);
    at
}

/// A piece is given up after five seconds of silence, and one at rest after two;
/// not before.
pub proof fn silence_gives_a_piece_up(track: DebrisTrack, quiet: Real64)
    ensures
        (Real64 { bits: 0x4014_0000_0000_0000 }).less(quiet) ==> is_due(track, quiet),
        quiet.less_or_equal(Real64 { bits: 0x4000_0000_0000_0000 }) ==> !is_due(track, quiet),
        (Real64 { bits: 0x4000_0000_0000_0000 }).less(quiet) && quiet.less_or_equal(
            Real64 { bits: 0x4014_0000_0000_0000 },
        ) ==> (is_due(track, quiet) <==> track.curr is Some && track.curr->0.sleeping),
{
}

proof fn lemma_despawned(
    tracks: Map<u32, DebrisTrack>,
    quiet: Seq<(u32, Real64)>,
    shown: Seq<ShownDebris>,
    n: int,
) -> (at: Seq<int>)
    requires
        0 <= n <= shown.len(),
    ensures
        is_selection(at, n, |i: int| leaves(tracks, quiet, shown[i])),
        despawned(tracks, quiet, shown, n).len() == at.len(),
        forall|p: int|
            0 <= p < at.len() ==> #[trigger] despawned(tracks, quiet, shown, n)[p] == shown[at[p]].entity,
    decreases n,
{
    let wanted = |i: int| leaves(tracks, quiet, shown[i]);
    if n == 0 {
        lemma_select_none(wanted);
        Seq::<int>::empty()
    } else {
        let front = lemma_despawned(tracks, quiet, shown, n - 1);
        lemma_select_next(front, n - 1, wanted)
    }
}

/// Every shown piece that is due, or that lies 512 meters below zero or deeper,
/// is removed, and no other is. A piece is due exactly where a measured silence
/// of its track is long enough.
pub proof fn every_due_piece_is_removed(
    tracks: Map<u32, DebrisTrack>,
    quiet: Seq<(u32, Real64)>,
    shown: Seq<ShownDebris>,
) -> (at: Seq<int>)
    ensures
        is_selection(
            at,
            shown.len() as int,
            |i: int|
                shown[i].y.less(Real32 { bits: 0xc400_0000 }) || exists|q: int|
                    0 <= q < quiet.len() && (#[trigger] quiet[q]).0 == shown[i].id && tracks.dom().contains(
                        shown[i].id,
                    ) && is_due(tracks[shown[i].id], quiet[q].1),
        ),
        despawned(tracks, quiet, shown, shown.len() as int).len() == at.len(),
        forall|p: int|
            0 <= p < at.len() ==> #[trigger] despawned(tracks, quiet, shown, shown.len() as int)[p]
                == shown[at[p]].entity,
{
    let n = shown.len() as int;
    let at = lemma_despawned(tracks, quiet, shown, n);
    let a = |i: int| leaves(tracks, quiet, shown[i]);
    let b = |i: int|
        shown[i].y.less(Real32 { bits: 0xc400_0000 }) || exists|q: int|
            0 <= q < quiet.len() && (#[trigger] quiet[q]).0 == shown[i].id && tracks.dom().contains(shown[i].id)
                && is_due(tracks[shown[i].id], quiet[q].1);
    assert forall|i: int| 0 <= i < n implies #[trigger] a(i) == #[trigger] b(i) by {}
    lemma_select_same(at, n, a, b);
    at
}

/// A track is dropped exactly where its own silence, or the removal of a shown
/// piece of its number, ends it.
pub proof fn a_track_ends_with_its_piece(
    tracks: Map<u32, DebrisTrack>,
    quiet: Seq<(u32, Real64)>,
    shown: Seq<ShownDebris>,
    id: u32,
)
    ensures
        dropped(tracks, quiet, shown, id) <==> (exists|q: int|
            0 <= q < quiet.len() && (#[trigger] quiet[q]).0 == id && tracks.dom().contains(id) && is_due(
                tracks[id],
                quiet[q].1,
            )) || (exists|i: int|
            0 <= i < shown.len() && (#[trigger] shown[i]).id == id && shown[i].y.less(
                Real32 { bits: 0xc400_0000 },
            )),
{
    if exists|i: int|
        0 <= i < shown.len() && (#[trigger] shown[i]).id == id && shown[i].y.less(Real32 { bits: 0xc400_0000 }) {
        let i = choose|i: int|
            0 <= i < shown.len() && (#[trigger] shown[i]).id == id && shown[i].y.less(
                Real32 { bits: 0xc400_0000 },
            );
        assert(leaves(tracks, quiet, shown[i]));
    }
}

} // verus!
