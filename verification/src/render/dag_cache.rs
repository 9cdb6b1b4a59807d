//! Shared GPU buffers of ray-marched bricks.
//!
//! Bricks with the same contents share one set of buffers, found by the digest
//! of the contents, and one material per shading tier. Both are counted: a
//! material by the bricks that use it, a buffer set by the materials that use
//! it. What nobody uses is dropped.

use crate::key_map::{Change, OrderedKey, SortedMap};
use crate::render::raymarch::{DagGpu, RaymarchShadingTier};
use vstd::prelude::*;

verus! {

/// A material's key: the contents and the tier.
#[derive(Clone, Copy, Debug, PartialEq, Eq, Structural)]
pub struct MaterialKey {
    pub digest: u64,
    pub tier: RaymarchShadingTier,
}

impl OrderedKey for MaterialKey {
    open spec fn before(self, other: Self) -> bool {
        self.digest < other.digest || (self.digest == other.digest && self.tier.number()
            < other.tier.number())
    }

    fn lt(&self, other: &Self) -> (r: bool) {
        self.digest < other.digest || (self.digest == other.digest && self.tier.to_u32()
            < other.tier.to_u32())
    }

    fn dup(&self) -> (r: Self) {
        *self
    }

    proof fn order_laws() {
    }
}

/// The buffers of one brick content.
#[derive(Clone, Copy, Debug, PartialEq, Eq, Structural)]
pub struct BufferEntry {
    /// Handle of the node buffer.
    pub nodes: u64,
    /// Handle of the colour buffer.
    pub colors: u64,
    /// Materials that use the buffers.
    pub refcount: u32,
    /// Bytes on the GPU.
    pub bytes: u64,
}

/// A material and how many bricks use it.
#[derive(Clone, Copy, Debug, PartialEq, Eq, Structural)]
pub struct CachedMaterial {
    /// Handle of the material.
    pub material: u64,
    pub refcount: u32,
}

/// A brick's flattened tree with the digest of its contents.
#[derive(Debug)]
pub struct DagGpuWithDigest {
    pub gpu: DagGpu,
    pub digest: u64,
}

pub struct DagBufferCache {
    buffers: SortedMap<u64, BufferEntry>,
    materials: SortedMap<MaterialKey, CachedMaterial>,
    /// The handle that the next material gets.
    next: u64,
}

/// What the cache holds.
pub ghost struct Held {
    pub materials: Map<MaterialKey, CachedMaterial>,
    pub buffers: Map<u64, BufferEntry>,
}

/// Handles of which the cache has let go.
#[derive(Clone, Copy, Debug, PartialEq, Eq)]
pub struct Dropped {
    pub material: Option<u64>,
    /// The node buffer and the colour buffer.
    pub buffers: Option<(u64, u64)>,
}

/// The materials of one brick content.
pub open spec fn tiers_of(
    materials: Map<MaterialKey, CachedMaterial>,
    digest: u64,
) -> Set<MaterialKey> {
    materials.dom().filter(|k: MaterialKey| k.digest == digest)
}

proof fn lemma_tiers(materials: Map<MaterialKey, CachedMaterial>, digest: u64)
    requires
        materials.dom().finite(),
    ensures
        tiers_of(materials, digest).finite(),
        tiers_of(materials, digest).len() <= 3,
{
    let s = Set::<MaterialKey>::empty().insert(
        MaterialKey { digest, tier: RaymarchShadingTier::Unlit },
    ).insert(MaterialKey { digest, tier: RaymarchShadingTier::Lambert }).insert(
        MaterialKey { digest, tier: RaymarchShadingTier::Pbr },
    );
    assert(tiers_of(materials, digest).subset_of(s)) by {
        assert forall|k: MaterialKey| tiers_of(materials, digest).contains(k) implies s.contains(k) by {
            match k.tier {
                RaymarchShadingTier::Unlit => {},
                RaymarchShadingTier::Lambert => {},
                RaymarchShadingTier::Pbr => {},
            }
        }
    }
    vstd::set_lib::lemma_len_subset(tiers_of(materials, digest), s);
}

/// A cache that holds nothing.
pub open spec fn nothing_held() -> Held {
    Held { materials: Map::empty(), buffers: Map::empty() }
}

/// Every material is in use and has a handle of its own, and buffers are kept
/// exactly for the contents that have a material, counted by their materials.
pub open spec fn is_consistent(s: Held) -> bool {
    &&& s.materials.dom().finite()
    &&& s.buffers.dom().finite()
    &&& forall|k: MaterialKey| #[trigger]
        s.materials.dom().contains(k) ==> s.materials[k].refcount > 0
    &&& forall|k: MaterialKey, l: MaterialKey|
        #![trigger s.materials[k], s.materials[l]]
        s.materials.dom().contains(k) && s.materials.dom().contains(l) && s.materials[k].material
            == s.materials[l].material ==> k == l
    &&& forall|d: u64|
        #![trigger tiers_of(s.materials, d)]
        s.buffers.dom().contains(d) <==> tiers_of(s.materials, d).len() > 0
    &&& forall|d: u64| #[trigger]
        s.buffers.dom().contains(d) ==> s.buffers[d].refcount as nat == tiers_of(s.materials, d).len()
}

/// The cache after a material was counted for one more brick.
pub open spec fn counted(s: Held, key: MaterialKey) -> Held {
    let m = s.materials[key];
    Held {
        materials: s.materials.insert(
            key,
            CachedMaterial { refcount: (m.refcount + 1) as u32, ..m },
        ),
        ..s
    }
}

/// The cache after a material was installed for one brick, over the buffers of
/// its contents or over new ones.
pub open spec fn installed(
    s: Held,
    key: MaterialKey,
    nodes: u64,
    colors: u64,
    bytes: u64,
    material: u64,
) -> Held {
    let b = s.buffers[key.digest];
    Held {
        materials: s.materials.insert(key, CachedMaterial { material, refcount: 1 }),
        buffers: s.buffers.insert(
            key.digest,
            if s.buffers.dom().contains(key.digest) {
                BufferEntry { refcount: (b.refcount + 1) as u32, ..b }
            } else {
                BufferEntry { nodes, colors, refcount: 1, bytes }
            },
        ),
    }
}

/// Whether a release of `key` gives its material up.
pub open spec fn is_last_brick(s: Held, key: MaterialKey) -> bool {
    s.materials.dom().contains(key) && s.materials[key].refcount == 1
}

/// Whether a release of `key` gives up the buffers of its contents.
pub open spec fn is_last_material(s: Held, key: MaterialKey) -> bool {
    is_last_brick(s, key) && s.buffers[key.digest].refcount == 1
}

/// The cache after a material was counted for one brick fewer.
pub open spec fn released(s: Held, key: MaterialKey) -> Held {
    let m = s.materials[key];
    let b = s.buffers[key.digest];
    Held {
        materials: if !s.materials.dom().contains(key) {
            s.materials
        } else if is_last_brick(s, key) {
            s.materials.remove(key)
        } else {
            s.materials.insert(key, CachedMaterial { refcount: (m.refcount - 1) as u32, ..m })
        },
        buffers: if !is_last_brick(s, key) {
            s.buffers
        } else if is_last_material(s, key) {
            s.buffers.remove(key.digest)
        } else {
            s.buffers.insert(key.digest, BufferEntry { refcount: (b.refcount - 1) as u32, ..b })
        },
    }
}

/// The bytes of all buffers.
pub open spec fn total_bytes(buffers: Map<u64, BufferEntry>) -> nat
    decreases buffers.dom().len(),
{
    if !buffers.dom().finite() || buffers.dom().len() == 0 {
        0
    } else {
        let d = buffers.dom().choose();
        buffers[d].bytes as nat + total_bytes(buffers.remove(d))
    }
}

/// The bytes of all buffers are those of any one and of the others: the order in
/// which they are added up does not matter.
pub proof fn total_is_any_one_and_the_rest(buffers: Map<u64, BufferEntry>, d: u64)
    requires
        buffers.dom().finite(),
        buffers.dom().contains(d),
    ensures
        total_bytes(buffers) == buffers[d].bytes as nat + total_bytes(buffers.remove(d)),
    decreases buffers.dom().len(),
{
    let c = buffers.dom().choose();
    assert(buffers.dom().len() > 0) by {
        if buffers.dom().len() == 0 {
            assert(buffers.dom() =~= Set::<u64>::empty());
        }
    }
    assert(buffers.dom().contains(c));
    if c != d {
        total_is_any_one_and_the_rest(buffers.remove(c), d);
        total_is_any_one_and_the_rest(buffers.remove(d), c);
        assert(buffers.remove(c).remove(d) =~= buffers.remove(d).remove(c));
    }
}

proof fn lemma_counts_do_not_weigh(a: Map<u64, BufferEntry>, b: Map<u64, BufferEntry>)
    requires
        a.dom().finite(),
        a.dom() == b.dom(),
        forall|d: u64| #[trigger] a.dom().contains(d) ==> a[d].bytes == b[d].bytes,
    ensures
        total_bytes(a) == total_bytes(b),
    decreases a.dom().len(),
{
    if a.dom().len() > 0 {
        let d = a.dom().choose();
        assert(a.remove(d).dom() =~= b.remove(d).dom());
        lemma_counts_do_not_weigh(a.remove(d), b.remove(d));
    }
}

proof fn lemma_total_of_keys(buffers: Map<u64, BufferEntry>, keys: Seq<u64>)
    requires
        buffers.dom().finite(),
        keys.no_duplicates(),
        keys.to_set() == buffers.dom(),
    ensures
        bytes_of(buffers, keys) == total_bytes(buffers),
    decreases keys.len(),
{
    if keys.len() == 0 {
        assert(buffers.dom() =~= Set::<u64>::empty());
    } else {
        let d = keys.last();
        let front = keys.drop_last();
        let rest = buffers.remove(d);
        assert(keys.to_set().contains(d));
        assert(front.to_set() =~= rest.dom()) by {
            assert forall|x: u64| front.to_set().contains(x) <==> rest.dom().contains(x) by {
                if front.to_set().contains(x) {
                    let i = choose|i: int| 0 <= i < front.len() && front[i] == x;
                    assert(keys[i] == x);
                    assert(keys.to_set().contains(x));
                }
                if rest.dom().contains(x) {
                    assert(keys.to_set().contains(x));
                    let i = choose|i: int| 0 <= i < keys.len() && keys[i] == x;
                    assert(front[i] == x);
                }
            }
        }
        lemma_total_of_keys(rest, front);
        lemma_bytes_of_others(buffers, d, front);
        total_is_any_one_and_the_rest(buffers, d);
    }
}

proof fn lemma_bytes_of_others(buffers: Map<u64, BufferEntry>, d: u64, keys: Seq<u64>)
    requires
        !keys.contains(d),
    ensures
        bytes_of(buffers.remove(d), keys) == bytes_of(buffers, keys),
    decreases keys.len(),
{
    if keys.len() > 0 {
        assert(keys.contains(keys.last()));
        assert forall|x: u64| keys.drop_last().contains(x) implies keys.contains(x) by {
            let i = choose|i: int| 0 <= i < keys.drop_last().len() && keys.drop_last()[i] == x;
            assert(keys[i] == x);
        }
        lemma_bytes_of_others(buffers, d, keys.drop_last());
    }
}

/// Counters over a run, to weigh ray-marched bricks against meshes.
#[derive(Clone, Copy, Debug, PartialEq, Eq, Structural)]
pub struct BrickGpuStats {
    /// Bricks that were shown by ray marching.
    pub raymarch_spawns: u64,
    /// Time spent in acquiring materials, in nanoseconds.
    pub acquire_ns_total: u128,
    /// Materials that were there already.
    pub cache_hits: u64,
    /// Materials that had to be built.
    pub cache_misses: u64,
    /// Bricks that were shown by meshes.
    pub mesh_spawns: u64,
    pub mesh_vertices: u64,
    pub mesh_indices: u64,
}

impl Default for BrickGpuStats {
    fn default() -> (r: Self)
        ensures
            r == (BrickGpuStats {
                raymarch_spawns: 0,
                acquire_ns_total: 0,
                cache_hits: 0,
                cache_misses: 0,
                mesh_spawns: 0,
                mesh_vertices: 0,
                mesh_indices: 0,
            }),
    {
        BrickGpuStats {
            raymarch_spawns: 0,
            acquire_ns_total: 0,
            cache_hits: 0,
            cache_misses: 0,
            mesh_spawns: 0,
            mesh_vertices: 0,
            mesh_indices: 0,
        }
    }
}

impl BrickGpuStats {
    /// Counts a brick that is shown by ray marching; `miss` tells whether its
    /// material had to be built.
    pub fn count_raymarched(&mut self, miss: bool, acquire_ns: u128)
        requires
            old(self).raymarch_spawns < u64::MAX,
            miss ==> old(self).cache_misses < u64::MAX,
            !miss ==> old(self).cache_hits < u64::MAX,
            old(self).acquire_ns_total + acquire_ns <= u128::MAX,
        ensures
            *final(self) == (BrickGpuStats {
                raymarch_spawns: (old(self).raymarch_spawns + 1) as u64,
                acquire_ns_total: (old(self).acquire_ns_total + acquire_ns) as u128,
                cache_hits: if miss {
                    old(self).cache_hits
                } else {
                    (old(self).cache_hits + 1) as u64
                },
                cache_misses: if miss {
                    (old(self).cache_misses + 1) as u64
                } else {
                    old(self).cache_misses
                },
                ..*old(self)
            }),
    {
        self.raymarch_spawns += 1;
        self.acquire_ns_total += acquire_ns;
        if miss {
            self.cache_misses += 1;
        } else {
            self.cache_hits += 1;
        }
    }

    /// Counts a brick that is shown by meshes.
    pub fn count_meshed(&mut self, vertices: u64, indices: u64)
        requires
            old(self).mesh_spawns < u64::MAX,
            old(self).mesh_vertices + vertices <= u64::MAX,
            old(self).mesh_indices + indices <= u64::MAX,
        ensures
            *final(self) == (BrickGpuStats {
                mesh_spawns: (old(self).mesh_spawns + 1) as u64,
                mesh_vertices: (old(self).mesh_vertices + vertices) as u64,
                mesh_indices: (old(self).mesh_indices + indices) as u64,
                ..*old(self)
            }),
    {
        self.mesh_spawns += 1;
        self.mesh_vertices += vertices;
        self.mesh_indices += indices;
    }
}

/// What a brick's material takes.
#[derive(Clone, Copy, Debug, PartialEq, Eq, Structural)]
pub enum AcquireStep {
    /// An empty brick has no material.
    Nothing,
    /// The material exists and is counted once more.
    Hit { material: u64 },
    /// The buffers exist; a material of them has to be built and installed.
    BuildMaterial { nodes: u64, colors: u64 },
    /// Buffers and material have to be built and installed.
    BuildAll,
}

/// What a brick's material takes, given what is held.
pub open spec fn acquire_step(s: Held, empty: bool, key: MaterialKey) -> AcquireStep {
    if empty {
        AcquireStep::Nothing
    } else if s.materials.dom().contains(key) {
        AcquireStep::Hit { material: s.materials[key].material }
    } else if s.buffers.dom().contains(key.digest) {
        AcquireStep::BuildMaterial {
            nodes: s.buffers[key.digest].nodes,
            colors: s.buffers[key.digest].colors,
        }
    } else {
        AcquireStep::BuildAll
    }
}

struct Recount {
    refcount: u32,
}

impl Change<CachedMaterial> for Recount {
    closed spec fn allows(&self, value: CachedMaterial) -> bool {
        true
    }

    closed spec fn changes(&self, before: CachedMaterial, after: CachedMaterial) -> bool {
        after == (CachedMaterial { refcount: self.refcount, ..before })
    }

    fn apply(&self, value: &mut CachedMaterial) {
        value.refcount = self.refcount;
    }
}

impl Change<BufferEntry> for Recount {
    closed spec fn allows(&self, value: BufferEntry) -> bool {
        true
    }

    closed spec fn changes(&self, before: BufferEntry, after: BufferEntry) -> bool {
        after == (BufferEntry { refcount: self.refcount, ..before })
    }

    fn apply(&self, value: &mut BufferEntry) {
        value.refcount = self.refcount;
    }
}

impl Default for DagBufferCache {
    fn default() -> (r: Self)
        ensures
            r.wf(),
            r.held() == nothing_held(),
            r.next_material() == 0,
    {
        let r = DagBufferCache { buffers: SortedMap::new(), materials: SortedMap::new(), next: 0 };
        proof {
            assert forall|d: u64| #[trigger] tiers_of(r.materials(), d).len() == 0 by {
                assert(tiers_of(r.materials(), d) =~= Set::<MaterialKey>::empty());
            }
        }
        r
    }
}

/// The sum of the bytes of the buffers at `keys`.
spec fn bytes_of(buffers: Map<u64, BufferEntry>, keys: Seq<u64>) -> nat
    decreases keys.len(),
{
    if keys.len() == 0 {
        0
    } else {
        bytes_of(buffers, keys.drop_last()) + buffers[keys.last()].bytes as nat
    }
}

impl DagBufferCache {
    pub closed spec fn buffers(&self) -> Map<u64, BufferEntry> {
        self.buffers@
    }

    pub closed spec fn materials(&self) -> Map<MaterialKey, CachedMaterial> {
        self.materials@
    }

    /// What the cache holds.
    pub open spec fn held(&self) -> Held {
        Held { materials: self.materials(), buffers: self.buffers() }
    }

    /// The handle that the next material gets.
    pub closed spec fn next_material(&self) -> u64 {
        self.next
    }

    /// The cache is consistent, and no material has a handle that is still to be
    /// given out.
    pub open spec fn wf(&self) -> bool {
        &&& is_consistent(self.held())
        &&& forall|k: MaterialKey| #[trigger]
            self.materials().dom().contains(k) ==> self.materials()[k].material < self.next_material()
    }

    /// Looks up the material of a brick at a tier. A material that exists is
    /// counted for one more brick; otherwise the caller builds what is missing
    /// and installs it with [`DagBufferCache::install`].
    pub fn acquire(&mut self, bundle: &DagGpuWithDigest, tier: RaymarchShadingTier) -> (r: AcquireStep)
        requires
            old(self).wf(),
            ({
                let key = MaterialKey { digest: bundle.digest, tier };
                old(self).materials().dom().contains(key) ==> old(self).materials()[key].refcount < u32::MAX
            }),
        ensures
            final(self).wf(),
            final(self).next_material() == old(self).next_material(),
            ({
                let key = MaterialKey { digest: bundle.digest, tier };
                let s = old(self).held();
                let hit = !bundle.gpu.spec_is_empty() && s.materials.dom().contains(key);
                &&& final(self).held() == (if hit {
                    counted(s, key)
                } else {
                    s
                })
                &&& r == acquire_step(s, bundle.gpu.spec_is_empty(), key)
            }),
    {
        if bundle.gpu.is_empty() {
            return AcquireStep::Nothing;
        }
        let key = MaterialKey { digest: bundle.digest, tier };
        let ghost before = self.materials();
        let found: Option<CachedMaterial> = match self.materials.get(key) {
            Some(m) => Some(*m),
            None => None,
        };
        match found {
            Some(m) => {
                let _ = self.materials.modify(key, &Recount { refcount: m.refcount + 1 });
                proof {
                    let after = self.materials();
                    assert(after.dom() =~= before.dom());
                    assert forall|d: u64| #[trigger] tiers_of(after, d) == tiers_of(before, d) by {
                        assert(tiers_of(after, d) =~= tiers_of(before, d));
                    }
                }
                AcquireStep::Hit { material: m.material }
            },
            None => match self.buffers.get(bundle.digest) {
                Some(b) => AcquireStep::BuildMaterial { nodes: b.nodes, colors: b.colors },
                None => AcquireStep::BuildAll,
            },
        }
    }

    /// Installs a material for one brick, over the buffers of its contents: those
    /// in the cache, or the new ones `nodes` and `colors`. Returns the material's
    /// handle, which no other material in the cache has.
    pub fn install(
        &mut self,
        bundle: &DagGpuWithDigest,
        tier: RaymarchShadingTier,
        nodes: u64,
        colors: u64,
    ) -> (r: u64)
        requires
            old(self).wf(),
            old(self).next_material() < u64::MAX,
            !old(self).materials().dom().contains(MaterialKey { digest: bundle.digest, tier }),
            spec_dag_bytes(&bundle.gpu) <= u64::MAX,
        ensures
            final(self).wf(),
            r == old(self).next_material(),
            final(self).next_material() == old(self).next_material() + 1,
            final(self).held() == installed(
                old(self).held(),
                MaterialKey { digest: bundle.digest, tier },
                nodes,
                colors,
                spec_dag_bytes(&bundle.gpu) as u64,
                r,
            ),
    {
        let digest = bundle.digest;
        let key = MaterialKey { digest, tier };
        let material = self.next;
        let bytes = dag_bytes(&bundle.gpu);
        let ghost mats = self.materials();
        let ghost bufs = self.buffers();
        proof {
            lemma_tiers(mats, digest);
            let after = mats.insert(key, CachedMaterial { material, refcount: 1 });
            assert(tiers_of(after, digest) =~= tiers_of(mats, digest).insert(key));
            assert forall|d: u64| d != digest implies #[trigger] tiers_of(after, d) == tiers_of(mats, d) by {
                assert(tiers_of(after, d) =~= tiers_of(mats, d));
            }
            assert(bufs.dom().contains(digest) <==> tiers_of(mats, digest).len() > 0);
        }
        let known: Option<u32> = match self.buffers.get(digest) {
            Some(b) => Some(b.refcount),
            None => None,
        };
        match known {
            Some(n) => {
                let _ = self.buffers.modify(digest, &Recount { refcount: n + 1 });
            },
            None => {
                self.buffers.insert(digest, BufferEntry { nodes, colors, refcount: 1, bytes });
            },
        }
        self.materials.insert(key, CachedMaterial { material, refcount: 1 });
        self.next = material + 1;
        proof {
            assert(self.held().buffers =~= installed(
                Held { materials: mats, buffers: bufs },
                key,
                nodes,
                colors,
                bytes,
                material,
            ).buffers);
        }
        material
    }

    /// Counts a material for one brick fewer. A material that no brick uses is
    /// dropped, and its buffers with their last material. An unknown material
    /// is passed over. Returns the handles that were dropped.
    pub fn release(&mut self, digest: u64, tier: RaymarchShadingTier) -> (r: Dropped)
        requires
            old(self).wf(),
        ensures
            final(self).wf(),
            final(self).next_material() == old(self).next_material(),
            final(self).held() == released(old(self).held(), MaterialKey { digest, tier }),
            ({
                let key = MaterialKey { digest, tier };
                let s = old(self).held();
                &&& r.material == (if is_last_brick(s, key) {
                    Some(s.materials[key].material)
                } else {
                    None
                })
                &&& r.buffers == (if is_last_material(s, key) {
                    Some((s.buffers[digest].nodes, s.buffers[digest].colors))
                } else {
                    None
                })
            }),
    {
        let key = MaterialKey { digest, tier };
        let ghost mats = self.materials();
        let ghost bufs = self.buffers();
        let used: CachedMaterial = match self.materials.get(key) {
            Some(m) => *m,
            None => return Dropped { material: None, buffers: None },
        };
        if used.refcount > 1 {
            let _ = self.materials.modify(key, &Recount { refcount: used.refcount - 1 });
            proof {
                let after = self.materials();
                assert(after.dom() =~= mats.dom());
                assert forall|d: u64| #[trigger] tiers_of(after, d) == tiers_of(mats, d) by {
                    assert(tiers_of(after, d) =~= tiers_of(mats, d));
                }
            }
            return Dropped { material: None, buffers: None };
        }
        let _ = self.materials.remove(key);
        proof {
            lemma_tiers(mats, digest);
            let after = self.materials();
            assert(tiers_of(mats, digest).contains(key));
            assert(tiers_of(after, digest) =~= tiers_of(mats, digest).remove(key));
            assert forall|d: u64| d != digest implies #[trigger] tiers_of(after, d) == tiers_of(mats, d) by {
                assert(tiers_of(after, d) =~= tiers_of(mats, d));
            }
            assert(tiers_of(mats, digest).len() > 0);
            assert(bufs.dom().contains(digest));
        }
        let shared: BufferEntry = match self.buffers.get(digest) {
            Some(b) => *b,
            None => return Dropped { material: None, buffers: None },
        };
        if shared.refcount == 1 {
            let _ = self.buffers.remove(digest);
            Dropped { material: Some(used.material), buffers: Some((shared.nodes, shared.colors)) }
        } else {
            let _ = self.buffers.modify(digest, &Recount { refcount: shared.refcount - 1 });
            proof {
                assert(self.held().buffers =~= released(
                    Held { materials: mats, buffers: bufs },
                    key,
                ).buffers);
            }
            Dropped { material: Some(used.material), buffers: None }
        }
    }

    /// Number of brick contents with buffers.
    pub fn buffer_count(&self) -> (r: usize)
        ensures
            self.buffers().dom().finite(),
            r as nat == self.buffers().dom().len(),
    {
        self.buffers.len()
    }

    /// Bytes of all buffers on the GPU.
    pub fn resident_bytes(&self) -> (r: u128)
        ensures
            r as nat == total_bytes(self.buffers()),
    {
        let keys: Vec<u64> = self.buffers.keys();
        let mut sum: u128 = 0;
        let mut i: usize = 0;
        while i < keys.len()
            invariant
                i <= keys@.len(),
                keys@.to_set() == self.buffers().dom(),
                sum as nat == bytes_of(self.buffers(), keys@.take(i as int)),
                sum <= i * 0xffff_ffff_ffff_ffff,
            decreases keys@.len() - i,
        {
            proof {
                assert(keys@.take(i + 1).drop_last() =~= keys@.take(i as int));
                assert(keys@.take(i + 1).last() == keys@[i as int]);
                assert(keys@.to_set().contains(keys@[i as int]));
                assert(i * 0xffff_ffff_ffff_ffff + 0xffff_ffff_ffff_ffff == (i + 1) * 0xffff_ffff_ffff_ffff)
                    by (nonlinear_arith);
                assert((i + 1) * 0xffff_ffff_ffff_ffff <= 0xffff_ffff_ffff_ffff * 0xffff_ffff_ffff_ffff)
                    by (nonlinear_arith)
                    requires
                        0 <= i + 1 <= 0xffff_ffff_ffff_ffff,
                ;
            }
            match self.buffers.get(keys[i]) {
                Some(b) => {
                    sum = sum + b.bytes as u128;
                },
                None => {},
            }
            i += 1;
        }
        proof {
            assert(keys@.take(keys@.len() as int) =~= keys@);
            lemma_total_of_keys(self.buffers(), keys@);
        }
        sum
    }
}

/// One word per node and per colour.
pub open spec fn spec_dag_bytes(gpu: &DagGpu) -> nat {
    4 * gpu.nodes@.len() + 4 * gpu.colors@.len()
}

/// Bytes of a brick's buffers on the GPU.
pub fn dag_bytes(gpu: &DagGpu) -> (r: u64)
    requires
        spec_dag_bytes(gpu) <= u64::MAX,
    ensures
        r as nat == spec_dag_bytes(gpu),
        r as int == 4 * (gpu.nodes@.len() + gpu.colors@.len()),
{
    gpu.nodes.len() as u64 * 4 + gpu.colors.len() as u64 * 4
}

/// Releasing what was acquired leaves the cache as it was, its materials and its
/// buffers: of a material that was there before, and of one that was installed
/// for it.
pub proof fn release_undoes_acquire(
    s: Held,
    key: MaterialKey,
    nodes: u64,
    colors: u64,
    bytes: u64,
    material: u64,
)
    requires
        is_consistent(s),
    ensures
        s.materials.dom().contains(key) && s.materials[key].refcount < u32::MAX ==> released(
            counted(s, key),
            key,
        ) == s,
        !s.materials.dom().contains(key) ==> released(
            installed(s, key, nodes, colors, bytes, material),
            key,
        ) == s,
{
    lemma_tiers(s.materials, key.digest);
    if s.materials.dom().contains(key) && s.materials[key].refcount < u32::MAX {
        let t = released(counted(s, key), key);
        assert(t.materials =~= s.materials);
        assert(t.buffers =~= s.buffers);
    }
    if !s.materials.dom().contains(key) {
        let t = released(installed(s, key, nodes, colors, bytes, material), key);
        assert(s.buffers.dom().contains(key.digest) <==> tiers_of(s.materials, key.digest).len() > 0);
        assert(t.materials =~= s.materials);
        assert(t.buffers =~= s.buffers);
    }
}

/// A release of the last use of a brick content takes one buffer set off the
/// count and its bytes off the total. Any other release takes off neither.
pub proof fn the_last_release_frees_the_bytes(s: Held, key: MaterialKey)
    requires
        is_consistent(s),
    ensures
        is_last_material(s, key) <==> (is_last_brick(s, key) && forall|k: MaterialKey|
            #![trigger s.materials.dom().contains(k)]
            s.materials.dom().contains(k) && k.digest == key.digest ==> k == key),
        is_last_material(s, key) ==> {
            &&& released(s, key).buffers.dom().len() + 1 == s.buffers.dom().len()
            &&& total_bytes(released(s, key).buffers) + s.buffers[key.digest].bytes as nat == total_bytes(
                s.buffers,
            )
        },
        !is_last_material(s, key) ==> {
            &&& released(s, key).buffers.dom() == s.buffers.dom()
            &&& total_bytes(released(s, key).buffers) == total_bytes(s.buffers)
        },
{
    let d = key.digest;
    let of_d = tiers_of(s.materials, d);
    lemma_tiers(s.materials, d);
    let t = released(s, key);
    if is_last_brick(s, key) {
        assert(of_d.contains(key));
        assert(of_d.len() > 0) by {
            if of_d.len() == 0 {
                assert(of_d =~= Set::<MaterialKey>::empty());
            }
        }
        assert(s.buffers.dom().contains(d));
        assert(of_d.remove(key).len() == of_d.len() - 1);
        if is_last_material(s, key) {
            assert(of_d.remove(key) =~= Set::<MaterialKey>::empty());
            assert forall|k: MaterialKey|
                #![trigger s.materials.dom().contains(k)]
                s.materials.dom().contains(k) && k.digest == d implies k == key by {
                assert(of_d.contains(k));
                assert(!of_d.remove(key).contains(k));
            }
            total_is_any_one_and_the_rest(s.buffers, d);
        } else {
            let k = of_d.remove(key).choose();
            assert(of_d.remove(key).len() > 0);
            assert(of_d.remove(key).contains(k));
            assert(s.materials.dom().contains(k) && k.digest == d && k != key);
            assert(t.buffers.dom() =~= s.buffers.dom());
            lemma_counts_do_not_weigh(t.buffers, s.buffers);
        }
    }
}

/// One brick's use of a material, or the end of one.
pub ghost enum Use {
    Acquired { key: MaterialKey, nodes: u64, colors: u64, bytes: u64, material: u64 },
    Released { key: MaterialKey },
}

/// What a use makes of the cache. A material that is built has a handle that no
/// other has.
pub open spec fn used(s: Held, u: Use, t: Held) -> bool {
    match u {
        Use::Acquired { key, nodes, colors, bytes, material } => if s.materials.dom().contains(key) {
            s.materials[key].refcount < u32::MAX && t == counted(s, key)
        } else {
            &&& forall|k: MaterialKey| #[trigger]
                s.materials.dom().contains(k) ==> s.materials[k].material != material
            &&& t == installed(s, key, nodes, colors, bytes, material)
        },
        Use::Released { key } => t == released(s, key),
    }
}

/// How many uses of `key` have not ended.
pub open spec fn live(uses: Seq<Use>, key: MaterialKey) -> nat
    decreases uses.len(),
{
    if uses.len() == 0 {
        0
    } else {
        let n = live(uses.drop_last(), key);
        match uses.last() {
            Use::Acquired { key: k, .. } => if k == key {
                n + 1
            } else {
                n
            },
            Use::Released { key: k } => if k == key && n > 0 {
                (n - 1) as nat
            } else {
                n
            },
        }
    }
}

/// The contents with a use that has not ended.
pub open spec fn live_digests(uses: Seq<Use>) -> Set<u64> {
    Set::new(|d: u64| exists|k: MaterialKey| k.digest == d && #[trigger] live(uses, k) > 0)
}

/// `states` is what a cache holds before, between and after `uses`: nothing at
/// first, and equal contents have equal sizes.
pub open spec fn has_lived(uses: Seq<Use>, states: Seq<Held>, size: spec_fn(u64) -> u64) -> bool {
    &&& states.len() == uses.len() + 1
    &&& states[0] == nothing_held()
    &&& forall|i: int|
        #![trigger uses[i]]
        0 <= i < uses.len() ==> used(states[i], uses[i], states[i + 1])
    &&& forall|i: int|
        0 <= i < uses.len() ==> (#[trigger] uses[i] matches Use::Acquired { key, bytes, .. } ==> bytes == size(
            key.digest,
        ))
}

proof fn lemma_counted(s: Held, key: MaterialKey)
    requires
        is_consistent(s),
        s.materials.dom().contains(key),
        s.materials[key].refcount < u32::MAX,
    ensures
        is_consistent(counted(s, key)),
{
    let t = counted(s, key);
    assert(t.materials.dom() =~= s.materials.dom());
    assert forall|d: u64| #[trigger] tiers_of(t.materials, d) == tiers_of(s.materials, d) by {
        assert(tiers_of(t.materials, d) =~= tiers_of(s.materials, d));
    }
}

proof fn lemma_installed(
    s: Held,
    key: MaterialKey,
    nodes: u64,
    colors: u64,
    bytes: u64,
    material: u64,
)
    requires
        is_consistent(s),
        !s.materials.dom().contains(key),
        forall|k: MaterialKey| #[trigger]
            s.materials.dom().contains(k) ==> s.materials[k].material != material,
    ensures
        is_consistent(installed(s, key, nodes, colors, bytes, material)),
{
    let t = installed(s, key, nodes, colors, bytes, material);
    lemma_tiers(s.materials, key.digest);
    assert(tiers_of(t.materials, key.digest) =~= tiers_of(s.materials, key.digest).insert(key));
    assert(s.buffers.dom().contains(key.digest) <==> tiers_of(s.materials, key.digest).len() > 0);
    assert forall|d: u64| d != key.digest implies #[trigger] tiers_of(t.materials, d) == tiers_of(
        s.materials,
        d,
    ) by {
        assert(tiers_of(t.materials, d) =~= tiers_of(s.materials, d));
    }
}

proof fn lemma_released(s: Held, key: MaterialKey)
    requires
        is_consistent(s),
    ensures
        is_consistent(released(s, key)),
{
    let t = released(s, key);
    lemma_tiers(s.materials, key.digest);
    if is_last_brick(s, key) {
        assert(tiers_of(s.materials, key.digest).contains(key));
        assert(tiers_of(t.materials, key.digest) =~= tiers_of(s.materials, key.digest).remove(key));
        assert(tiers_of(s.materials, key.digest).len() > 0);
        assert(s.buffers.dom().contains(key.digest));
        assert forall|d: u64| d != key.digest implies #[trigger] tiers_of(t.materials, d) == tiers_of(
            s.materials,
            d,
        ) by {
            assert(tiers_of(t.materials, d) =~= tiers_of(s.materials, d));
        }
    } else {
        assert(t.materials.dom() =~= s.materials.dom());
        assert forall|d: u64| #[trigger] tiers_of(t.materials, d) == tiers_of(s.materials, d) by {
            assert(tiers_of(t.materials, d) =~= tiers_of(s.materials, d));
        }
    }
}

proof fn lemma_has_lived_before(uses: Seq<Use>, states: Seq<Held>, size: spec_fn(u64) -> u64)
    requires
        has_lived(uses, states, size),
        uses.len() > 0,
    ensures
        has_lived(uses.drop_last(), states.drop_last(), size),
        used(states[states.len() - 2], uses.last(), states.last()),
{
    let n = uses.len() - 1;
    assert(uses[n] == uses.last());
    assert forall|i: int|
        #![trigger uses.drop_last()[i]]
        0 <= i < n implies used(states.drop_last()[i], uses.drop_last()[i], states.drop_last()[i + 1]) by {
        assert(uses.drop_last()[i] == uses[i]);
    }
    assert forall|i: int| 0 <= i < n implies (#[trigger] uses.drop_last()[i] matches Use::Acquired {
        key,
        bytes,
        ..
    } ==> bytes == size(key.digest)) by {
        assert(uses.drop_last()[i] == uses[i]);
    }
}

/// After any uses, the cache holds exactly the materials with a use that has not
/// ended, each counted by those uses and with a handle of its own, and exactly
/// the buffers of their contents, each with the size of its contents.
pub proof fn the_cache_holds_what_is_live(uses: Seq<Use>, states: Seq<Held>, size: spec_fn(u64) -> u64)
    requires
        has_lived(uses, states, size),
    ensures
        is_consistent(states.last()),
        forall|k: MaterialKey|
            #![trigger live(uses, k)]
            states.last().materials.dom().contains(k) <==> live(uses, k) > 0,
        forall|k: MaterialKey|
            #![trigger live(uses, k)]
            live(uses, k) > 0 ==> states.last().materials[k].refcount as nat == live(uses, k),
        states.last().buffers.dom() == live_digests(uses),
        forall|d: u64| #[trigger]
            states.last().buffers.dom().contains(d) ==> states.last().buffers[d].bytes == size(d),
    decreases uses.len(),
{
    let t = states.last();
    if uses.len() == 0 {
        assert(t == nothing_held());
        assert forall|d: u64| #[trigger] tiers_of(t.materials, d).len() == 0 by {
            assert(tiers_of(t.materials, d) =~= Set::<MaterialKey>::empty());
        }
    } else {
        lemma_has_lived_before(uses, states, size);
        let s = states[states.len() - 2];
        assert(s == states.drop_last().last());
        let before = uses.drop_last();
        the_cache_holds_what_is_live(before, states.drop_last(), size);
        let last = uses[uses.len() - 1];
        match last {
            Use::Acquired { key, nodes, colors, bytes, material } => {
                assert(s.materials.dom().contains(key) <==> live(before, key) > 0);
                if s.materials.dom().contains(key) {
                    lemma_counted(s, key);
                } else {
                    lemma_installed(s, key, nodes, colors, bytes, material);
                }
                assert forall|k: MaterialKey|
                    #![trigger live(uses, k)]
                    (t.materials.dom().contains(k) <==> live(uses, k) > 0) && (live(uses, k) > 0
                        ==> t.materials[k].refcount as nat == live(uses, k)) by {
                    assert(s.materials.dom().contains(k) <==> live(before, k) > 0);
                }
            },
            Use::Released { key } => {
                lemma_released(s, key);
                assert(s.materials.dom().contains(key) <==> live(before, key) > 0);
                assert forall|k: MaterialKey|
                    #![trigger live(uses, k)]
                    (t.materials.dom().contains(k) <==> live(uses, k) > 0) && (live(uses, k) > 0
                        ==> t.materials[k].refcount as nat == live(uses, k)) by {
                    assert(s.materials.dom().contains(k) <==> live(before, k) > 0);
                }
            },
        }
        assert forall|d: u64| #[trigger] t.buffers.dom().contains(d) implies t.buffers[d].bytes == size(d) by {
            if s.buffers.dom().contains(d) {
                assert(s.buffers[d].bytes == size(d));
            }
        }
    }
    assert forall|d: u64| t.buffers.dom().contains(d) <==> live_digests(uses).contains(d) by {
        lemma_tiers(t.materials, d);
        let of_d = tiers_of(t.materials, d);
        assert(t.buffers.dom().contains(d) <==> of_d.len() > 0);
        if of_d.len() > 0 {
            let k = of_d.choose();
            assert(of_d.contains(k));
            assert(live(uses, k) > 0);
        }
        if live_digests(uses).contains(d) {
            let k = choose|k: MaterialKey| k.digest == d && #[trigger] live(uses, k) > 0;
            assert(t.materials.dom().contains(k));
            assert(of_d.contains(k));
            if of_d.len() == 0 {
                assert(of_d =~= Set::<MaterialKey>::empty());
            }
        }
    }
    assert(t.buffers.dom() =~= live_digests(uses));
}

/// After any uses, an acquire takes nothing exactly for an empty brick. Else it
/// is a hit exactly where an earlier use of the same contents and tier has not
/// ended, with that use's material, and buffers are built exactly where no use
/// of the contents is left. Different contents or tiers have different
/// materials.
pub proof fn an_acquire_finds_what_is_live(
    uses: Seq<Use>,
    states: Seq<Held>,
    size: spec_fn(u64) -> u64,
    empty: bool,
    key: MaterialKey,
)
    requires
        has_lived(uses, states, size),
    ensures
        ({
            let step = acquire_step(states.last(), empty, key);
            &&& step is Nothing <==> empty
            &&& step is Hit <==> !empty && live(uses, key) > 0
            &&& step is BuildMaterial <==> !empty && live(uses, key) == 0 && live_digests(uses).contains(
                key.digest,
            )
            &&& step is BuildAll <==> !empty && !live_digests(uses).contains(key.digest)
            &&& step matches AcquireStep::Hit { material } ==> material
                == states.last().materials[key].material && forall|k: MaterialKey| #[trigger]
                live(uses, k) > 0 && k != key ==> states.last().materials[k].material != material
        }),
{
    the_cache_holds_what_is_live(uses, states, size);
    let t = states.last();
    assert(t.materials.dom().contains(key) <==> live(uses, key) > 0);
    assert(live(uses, key) > 0 ==> live_digests(uses).contains(key.digest));
    assert forall|k: MaterialKey| #[trigger] live(uses, k) > 0 && k != key && live(uses, key) > 0 implies t.materials[k].material
        != t.materials[key].material by {
        assert(t.materials.dom().contains(k));
        assert(t.materials.dom().contains(key));
    }
}

/// While a use of `key` has not ended, its material stays the same: whoever
/// acquires it meanwhile gets the material of the earlier use.
pub proof fn a_material_stays_while_in_use(
    uses: Seq<Use>,
    states: Seq<Held>,
    size: spec_fn(u64) -> u64,
    i: int,
    key: MaterialKey,
)
    requires
        has_lived(uses, states, size),
        0 <= i <= uses.len(),
        forall|n: int| i <= n <= uses.len() ==> live(#[trigger] uses.take(n), key) > 0,
    ensures
        states.last().materials[key].material == states[i].materials[key].material,
    decreases uses.len(),
{
    if i < uses.len() {
        let n = uses.len() - 1;
        lemma_has_lived_before(uses, states, size);
        let (before, s) = (uses.drop_last(), states.drop_last());
        assert forall|m: int| i <= m <= before.len() implies live(#[trigger] before.take(m), key) > 0 by {
            assert(before.take(m) =~= uses.take(m));
        }
        a_material_stays_while_in_use(before, s, size, i, key);
        the_cache_holds_what_is_live(before, s, size);
        the_cache_holds_what_is_live(uses, states, size);
        assert(uses.take(uses.len() as int) =~= uses);
        assert(uses.take(n) =~= before);
        assert(live(uses, key) > 0 && live(before, key) > 0);
        assert(s.last() == states[n]);
        assert(used(states[n], uses.last(), states.last()));
    }
}

/// Once every use has ended, nothing is held: no material, no buffers, no bytes.
pub proof fn nothing_live_keeps_nothing(uses: Seq<Use>, states: Seq<Held>, size: spec_fn(u64) -> u64)
    requires
        has_lived(uses, states, size),
        forall|k: MaterialKey| #[trigger] live(uses, k) == 0,
    ensures
        states.last() == nothing_held(),
        total_bytes(states.last().buffers) == 0,
{
    the_cache_holds_what_is_live(uses, states, size);
    let t = states.last();
    assert forall|k: MaterialKey| !t.materials.dom().contains(k) by {
        assert(live(uses, k) == 0);
    }
    assert(t.materials =~= Map::<MaterialKey, CachedMaterial>::empty());
    assert forall|d: u64| !live_digests(uses).contains(d) by {}
    assert(t.buffers.dom() =~= Set::<u64>::empty());
    assert(t.buffers =~= Map::<u64, BufferEntry>::empty());
}

} // verus!
