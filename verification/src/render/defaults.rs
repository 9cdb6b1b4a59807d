//! What the strategies decide.

use crate::brick_gen::DEFAULT_SPAWN_BUDGET;
use crate::measure::{Real32, Real64};
use crate::render::strategy::{
    AoStrategy, BasicCascades, BiomeBlendedFog, CameraMotionState, ExpSquaredSkyTintedFog, FogStrategy,
    HillshadeSlice, HorizonImposterStrategy, LodCoveragePolicy, LodLadderPolicy, MaterialEntry,
    MeshStrategy, MotionScaledSpawnBudget, PaletteStrategy, PolarAnnulusShell, RebuildThresholdStrategy,
    Rgb, ShadingMode, ShadingStrategy, ShadowStrategy, SkyStrategy, SliceRenderStrategy,
    SpawnBudgetStrategy, StaticSpawnBudget, SunCurveStrategy, TonemapStrategy,
    VisibilityCadenceStrategy,
};
use crate::world_stream::{
    progressive_tiers, LodLadder, DEFAULT_BRICKS_PER_TICK, PLAN_REBUILD_DRIFT_M, PLAN_REBUILD_FWD_COS,
};
use vstd::prelude::*;

verus! {

/// Speed from which the camera counts as moving: 3 meters per second.
pub const MOVING_SPEED: u32 = 0x4040_0000;

/// Speed from which the camera counts as sprinting: 8 meters per second.
pub const SPRINTING_SPEED: u32 = 0x4100_0000;

/// A material from the bits of its numbers; none is metallic.
pub open spec fn entry_of(
    id: u16,
    r: u32,
    g: u32,
    b: u32,
    roughness: u32,
    er: u32,
    eg: u32,
    eb: u32,
    alpha: u32,
) -> MaterialEntry {
    MaterialEntry {
        id,
        base_color: Rgb { r: Real32 { bits: r }, g: Real32 { bits: g }, b: Real32 { bits: b } },
        roughness: Real32 { bits: roughness },
        metallic: Real32 { bits: 0 },
        emissive: Rgb { r: Real32 { bits: er }, g: Real32 { bits: eg }, b: Real32 { bits: eb } },
        alpha: Real32 { bits: alpha },
    }
}

fn entry(
    id: u16,
    r: u32,
    g: u32,
    b: u32,
    roughness: u32,
    er: u32,
    eg: u32,
    eb: u32,
    alpha: u32,
) -> (e: MaterialEntry)
    ensures
        e == entry_of(id, r, g, b, roughness, er, eg, eb, alpha),
{
    MaterialEntry {
        id,
        base_color: Rgb { r: Real32 { bits: r }, g: Real32 { bits: g }, b: Real32 { bits: b } },
        roughness: Real32 { bits: roughness },
        metallic: Real32 { bits: 0 },
        emissive: Rgb { r: Real32 { bits: er }, g: Real32 { bits: eg }, b: Real32 { bits: eb } },
        alpha: Real32 { bits: alpha },
    }
}

/// The canonical materials: air, stone, dirt, sand, snow, water, grass, wood,
/// leaves, glow rock and ice.
pub open spec fn canonical_palette() -> Seq<MaterialEntry> {
    seq![
        entry_of(0, 0x0000_0000, 0x0000_0000, 0x0000_0000, 0x3f80_0000, 0x0000_0000, 0x0000_0000, 0x0000_0000, 0x3f80_0000),
        entry_of(1, 0x3ed7_0a3d, 0x3ecc_cccd, 0x3ec2_8f5c, 0x3f59_999a, 0x0000_0000, 0x0000_0000, 0x0000_0000, 0x3f80_0000),
        entry_of(2, 0x3ea3_d70a, 0x3e61_47ae, 0x3e0f_5c29, 0x3f73_3333, 0x0000_0000, 0x0000_0000, 0x0000_0000, 0x3f80_0000),
        entry_of(3, 0x3f47_ae14, 0x3f33_3333, 0x3ef5_c28f, 0x3f40_0000, 0x0000_0000, 0x0000_0000, 0x0000_0000, 0x3f80_0000),
        entry_of(4, 0x3f47_ae14, 0x3f51_eb85, 0x3f61_47ae, 0x3f33_3333, 0x0000_0000, 0x0000_0000, 0x0000_0000, 0x3f80_0000),
        entry_of(5, 0x3dcc_cccd, 0x3eb3_3333, 0x3f0c_cccd, 0x3d4c_cccd, 0x0000_0000, 0x0000_0000, 0x0000_0000, 0x3f19_999a),
        entry_of(6, 0x3e38_51ec, 0x3ee6_6666, 0x3e23_d70a, 0x3f66_6666, 0x0000_0000, 0x0000_0000, 0x0000_0000, 0x3f80_0000),
        entry_of(7, 0x3e99_999a, 0x3e38_51ec, 0x3dcc_cccd, 0x3f59_999a, 0x0000_0000, 0x0000_0000, 0x0000_0000, 0x3f80_0000),
        entry_of(8, 0x3e05_1eb8, 0x3eb8_51ec, 0x3df5_c28f, 0x3f73_3333, 0x0000_0000, 0x0000_0000, 0x0000_0000, 0x3f80_0000),
        entry_of(9, 0x3ecc_cccd, 0x3e99_999a, 0x3dcc_cccd, 0x3f00_0000, 0x3f99_999a, 0x3f4c_cccd, 0x3e4c_cccd, 0x3f80_0000),
        entry_of(10, 0x3f47_ae14, 0x3f61_47ae, 0x3f73_3333, 0x3dcc_cccd, 0x0000_0000, 0x0000_0000, 0x0000_0000, 0x3f33_3333),
    ]
}

impl PaletteStrategy {
    /// The palette; a material stands at the place of its number.
    pub fn palette(self) -> (r: Vec<MaterialEntry>)
        ensures
            r@ == canonical_palette(),
            r@.len() == 11,
            forall|i: int| 0 <= i < r@.len() ==> (#[trigger] r@[i]).id == i,
            forall|i: int| 0 <= i < r@.len() ==> (#[trigger] r@[i]).metallic.bits == 0,
            forall|i: int|
                0 <= i < r@.len() ==> ((#[trigger] r@[i]).alpha.bits != 0x3f80_0000 <==> i == 5 || i == 10),
            forall|i: int|
                0 <= i < r@.len() ==> ((#[trigger] r@[i]).emissive.r.bits != 0 <==> i == 9),
    {
        let mut entries: Vec<MaterialEntry> = Vec::new();
        // air
        entries.push(entry(0, 0x0000_0000, 0x0000_0000, 0x0000_0000, 0x3f80_0000, 0x0000_0000, 0x0000_0000, 0x0000_0000, 0x3f80_0000));
        // stone
        entries.push(entry(1, 0x3ed7_0a3d, 0x3ecc_cccd, 0x3ec2_8f5c, 0x3f59_999a, 0x0000_0000, 0x0000_0000, 0x0000_0000, 0x3f80_0000));
        // dirt
        entries.push(entry(2, 0x3ea3_d70a, 0x3e61_47ae, 0x3e0f_5c29, 0x3f73_3333, 0x0000_0000, 0x0000_0000, 0x0000_0000, 0x3f80_0000));
        // sand
        entries.push(entry(3, 0x3f47_ae14, 0x3f33_3333, 0x3ef5_c28f, 0x3f40_0000, 0x0000_0000, 0x0000_0000, 0x0000_0000, 0x3f80_0000));
        // snow
        entries.push(entry(4, 0x3f47_ae14, 0x3f51_eb85, 0x3f61_47ae, 0x3f33_3333, 0x0000_0000, 0x0000_0000, 0x0000_0000, 0x3f80_0000));
        // water
        entries.push(entry(5, 0x3dcc_cccd, 0x3eb3_3333, 0x3f0c_cccd, 0x3d4c_cccd, 0x0000_0000, 0x0000_0000, 0x0000_0000, 0x3f19_999a));
        // grass
        entries.push(entry(6, 0x3e38_51ec, 0x3ee6_6666, 0x3e23_d70a, 0x3f66_6666, 0x0000_0000, 0x0000_0000, 0x0000_0000, 0x3f80_0000));
        // wood
        entries.push(entry(7, 0x3e99_999a, 0x3e38_51ec, 0x3dcc_cccd, 0x3f59_999a, 0x0000_0000, 0x0000_0000, 0x0000_0000, 0x3f80_0000));
        // leaves
        entries.push(entry(8, 0x3e05_1eb8, 0x3eb8_51ec, 0x3df5_c28f, 0x3f73_3333, 0x0000_0000, 0x0000_0000, 0x0000_0000, 0x3f80_0000));
        // glow rock
        entries.push(entry(9, 0x3ecc_cccd, 0x3e99_999a, 0x3dcc_cccd, 0x3f00_0000, 0x3f99_999a, 0x3f4c_cccd, 0x3e4c_cccd, 0x3f80_0000));
        // ice
        entries.push(entry(10, 0x3f47_ae14, 0x3f61_47ae, 0x3f73_3333, 0x3dcc_cccd, 0x0000_0000, 0x0000_0000, 0x0000_0000, 0x3f33_3333));
        proof {
            assert(entries@ =~= canonical_palette());
        }
        entries
    }
}

impl AoStrategy {
    /// Whether vertices are shaded at all.
    pub fn enabled(self) -> (r: bool)
        ensures
            r == !(self is NoAo),
    {
        !matches!(self, AoStrategy::NoAo)
    }

    /// Whether sky light is baked beside the occlusion.
    pub fn bakes_sky_light(self) -> (r: bool)
        ensures
            r == self is BrickEdgeAwareAo,
    {
        matches!(self, AoStrategy::BrickEdgeAwareAo)
    }
}

impl ShadingStrategy {
    pub open spec fn spec_mode(self) -> ShadingMode {
        match self {
            ShadingStrategy::LegacyVertexColor => ShadingMode::SplitPerMaterial,
            ShadingStrategy::PaletteVoxelMaterial => ShadingMode::PaletteVoxelMaterial,
        }
    }

    pub fn mode(self) -> (r: ShadingMode)
        ensures
            r == self.spec_mode(),
            self is LegacyVertexColor <==> r is SplitPerMaterial,
    {
        match self {
            ShadingStrategy::LegacyVertexColor => ShadingMode::SplitPerMaterial,
            ShadingStrategy::PaletteVoxelMaterial => ShadingMode::PaletteVoxelMaterial,
        }
    }
}

impl MeshStrategy {
    /// Marching cubes at another threshold than zero.
    pub fn with_iso(iso: Real32) -> (r: Self)
        ensures
            r == (MeshStrategy::MarchingCubes { iso }),
    {
        MeshStrategy::MarchingCubes { iso }
    }

    /// Whether marching cubes run at an iso value other than zero.
    pub fn has_iso(self) -> (r: bool)
        ensures
            r == (match self {
                MeshStrategy::MarchingCubes { iso } => iso.magnitude() != 0,
                _ => false,
            }),
    {
        match self {
            MeshStrategy::MarchingCubes { iso } => iso.bits != 0 && iso.bits != 0x8000_0000,
            _ => false,
        }
    }
}

impl SkyStrategy {
    /// Whether the dome around the camera is shown.
    pub fn dome_active(self) -> (r: bool)
        ensures
            r == self is ProceduralDomeSky,
    {
        matches!(self, SkyStrategy::ProceduralDomeSky)
    }
}

impl ShadowStrategy {
    pub fn enabled(self) -> (r: bool)
        ensures
            r == self is BasicCascades,
    {
        matches!(self, ShadowStrategy::BasicCascades(_))
    }

    /// How far the sun's shadows are shifted in depth and along the surface's
    /// normal: 0.02 and 0.6 with every strategy.
    pub fn biases(self) -> (r: (Real32, Real32))
        ensures
            r == shadow_biases(),
            r.0.bits == 0x3ca3_d70a && r.1.bits == 0x3f19_999a,
    {
        (Real32 { bits: 0x3ca3_d70a }, Real32 { bits: 0x3f19_999a })
    }
}

/// A depth bias of 0.02 and a normal bias of 0.6.
pub open spec fn shadow_biases() -> (Real32, Real32) {
    (Real32 { bits: 0x3ca3_d70a }, Real32 { bits: 0x3f19_999a })
}

impl Default for BasicCascades {
    fn default() -> (r: Self)
        ensures
            r == cascades_default(),
            r.num_cascades == 4 && r.minimum_distance.bits == 0x3dcc_cccd && r.maximum_distance.bits == 0x4348_0000,
            r.first_cascade_far_bound.bits == 0x4100_0000 && r.overlap_proportion.bits == 0x3e4c_cccd,
    {
        BasicCascades {
            num_cascades: 4,
            minimum_distance: Real32 { bits: 0x3dcc_cccd },
            maximum_distance: Real32 { bits: 0x4348_0000 },
            first_cascade_far_bound: Real32 { bits: 0x4100_0000 },
            overlap_proportion: Real32 { bits: 0x3e4c_cccd },
        }
    }
}

/// Four cascades from 0.1 to 200 meters, the first out to 8, overlapping by a
/// fifth.
pub open spec fn cascades_default() -> BasicCascades {
    BasicCascades {
        num_cascades: 4,
        minimum_distance: Real32 { bits: 0x3dcc_cccd },
        maximum_distance: Real32 { bits: 0x4348_0000 },
        first_cascade_far_bound: Real32 { bits: 0x4100_0000 },
        overlap_proportion: Real32 { bits: 0x3e4c_cccd },
    }
}

impl Default for ExpSquaredSkyTintedFog {
    fn default() -> (r: Self)
        ensures
            r == fog_default(),
            r.density.bits == 0x3af9_096c,
    {
        ExpSquaredSkyTintedFog { density: Real32 { bits: 0x3af9_096c } }
    }
}

/// Fog of density 0.0019.
pub open spec fn fog_default() -> ExpSquaredSkyTintedFog {
    ExpSquaredSkyTintedFog { density: Real32 { bits: 0x3af9_096c } }
}

impl Default for BiomeBlendedFog {
    /// Density 0.0019, a neutral tint, mixed in at 0.3.
    fn default() -> (r: Self)
        ensures
            r.density.bits == 0x3af9_096c,
            r.biome_tint.r.bits == 0x3f00_0000,
            r.biome_tint.g.bits == 0x3f00_0000,
            r.biome_tint.b.bits == 0x3f00_0000,
            r.mix.bits == 0x3e99_999a,
    {
        BiomeBlendedFog {
            density: Real32 { bits: 0x3af9_096c },
            biome_tint: Rgb {
                r: Real32 { bits: 0x3f00_0000 },
                g: Real32 { bits: 0x3f00_0000 },
                b: Real32 { bits: 0x3f00_0000 },
            },
            mix: Real32 { bits: 0x3e99_999a },
        }
    }
}

impl BiomeBlendedFog {
    /// The tint is the grey that stands for no biome at all: one half in every
    /// channel.
    pub open spec fn is_neutral(self) -> bool {
        &&& self.biome_tint.r.bits == 0x3f00_0000
        &&& self.biome_tint.g.bits == 0x3f00_0000
        &&& self.biome_tint.b.bits == 0x3f00_0000
    }

    /// What is mixed into the sky's colour, and at what weight. A neutral tint
    /// leaves the sky's colour as it is.
    pub fn tint(self) -> (r: Option<(Rgb, Real32)>)
        ensures
            r == (if self.is_neutral() {
                None
            } else {
                Some((self.biome_tint, self.mix))
            }),
    {
        let neutral: bool = self.biome_tint.r.bits == 0x3f00_0000 && self.biome_tint.g.bits == 0x3f00_0000
            && self.biome_tint.b.bits == 0x3f00_0000;
        if neutral {
            None
        } else {
            Some((self.biome_tint, self.mix))
        }
    }
}

impl FogStrategy {
    /// What is mixed into the sky's colour, and at what weight: nothing but by
    /// fog that follows the biome.
    pub fn tint(self) -> (r: Option<(Rgb, Real32)>)
        ensures
            r == (match self {
                FogStrategy::BiomeBlendedFog(f) if !f.is_neutral() => Some((f.biome_tint, f.mix)),
                _ => None,
            }),
    {
        match self {
            FogStrategy::BiomeBlendedFog(f) => f.tint(),
            _ => None,
        }
    }
}

impl PolarAnnulusShell {
    /// Rings and sectors of the mesh, with at most `max_verts` vertices: rings
    /// are given up before sectors.
    pub open spec fn spec_capped(self) -> (u32, u32) {
        if self.n_rings * self.n_sectors <= self.max_verts {
            (self.n_rings, self.n_sectors)
        } else if self.n_sectors <= self.max_verts {
            ((self.max_verts as int / self.n_sectors as int) as u32, self.n_sectors)
        } else {
            (1, self.max_verts as u32)
        }
    }

    /// Rings and sectors of the mesh, never more than were asked for, and never
    /// more vertices together than the cap.
    pub fn capped(self) -> (r: (u32, u32))
        ensures
            r == self.spec_capped(),
            r.0 * r.1 <= self.max_verts,
            r.0 <= self.n_rings,
            r.1 <= self.n_sectors,
            self.n_rings * self.n_sectors <= self.max_verts ==> r == (self.n_rings, self.n_sectors),
            self.n_sectors <= self.max_verts ==> r.1 == self.n_sectors,
            self.n_rings * self.n_sectors > self.max_verts && self.n_sectors <= self.max_verts ==> (r.0 + 1)
                * self.n_sectors > self.max_verts,
            self.n_rings * self.n_sectors > self.max_verts && self.n_sectors > self.max_verts ==> r.0 == 1 && r.1
                == self.max_verts,
    {
        let (rings, sectors, cap): (u64, u64, u64) = (
            self.n_rings as u64,
            self.n_sectors as u64,
            self.max_verts as u64,
        );
        proof {
            assert(0 <= rings * sectors <= 0xffff_ffff * 0xffff_ffff) by (nonlinear_arith)
                requires
                    0 <= rings <= 0xffff_ffff,
                    0 <= sectors <= 0xffff_ffff,
            ;
        }
        if rings * sectors <= cap {
            return (self.n_rings, self.n_sectors);
        }
        proof {
            assert(sectors > 0 && rings > 0) by (nonlinear_arith)
                requires
                    rings * sectors > cap,
                    0 <= cap,
                    0 <= rings,
                    0 <= sectors,
            ;
        }
        if sectors <= cap {
            let kept: u64 = cap / sectors;
            proof {
                assert(kept * sectors <= cap && kept < rings && (kept + 1) * sectors > cap) by (nonlinear_arith)
                    requires
                        kept == cap / sectors,
                        sectors > 0,
                        rings * sectors > cap,
                ;
            }
            (kept as u32, self.n_sectors)
        } else {
            (1, cap as u32)
        }
    }
}

/// Where a fog's density comes from.
#[derive(Clone, Copy, Debug, PartialEq, Eq, Structural)]
pub enum FogDensity {
    /// No fog at all.
    Clear,
    /// Derived from the distance of the load horizon.
    Horizon(Real32),
    /// A fixed density.
    Fixed(Real32),
}

impl FogStrategy {
    /// Where the density comes from: the load horizon where one is known and
    /// lies ahead, else the strategy's own.
    pub fn density(self, horizon_end: Option<Real32>) -> (r: FogDensity)
        ensures
            r == ({
                let own = match self {
                    FogStrategy::NoFog => None,
                    FogStrategy::ExpSquaredSkyTintedFog(f) => Some(f.density),
                    FogStrategy::BiomeBlendedFog(f) => Some(f.density),
                };
                match (own, horizon_end) {
                    (None, _) => FogDensity::Clear,
                    (Some(d), None) => FogDensity::Fixed(d),
                    (Some(d), Some(end)) => if (Real32 { bits: 0 }).less(end) {
                        FogDensity::Horizon(end)
                    } else {
                        FogDensity::Fixed(d)
                    },
                }
            }),
    {
        let own: Real32 = match self {
            FogStrategy::NoFog => return FogDensity::Clear,
            FogStrategy::ExpSquaredSkyTintedFog(f) => f.density,
            FogStrategy::BiomeBlendedFog(f) => f.density,
        };
        match horizon_end {
            None => FogDensity::Fixed(own),
            Some(end) => if (Real32 { bits: 0 }).lt(end) {
                FogDensity::Horizon(end)
            } else {
                FogDensity::Fixed(own)
            },
        }
    }
}

impl TonemapStrategy {
    /// Whether light blooms.
    pub fn blooms(self) -> (r: bool)
        ensures
            r == self is AcesTonemap,
    {
        matches!(self, TonemapStrategy::AcesTonemap)
    }
}

impl LodCoveragePolicy {
    /// Whether a brick that a finer tier covers is left out.
    pub fn mask_finer_covered(self) -> (r: bool)
        ensures
            r == self is MaskedShells,
    {
        matches!(self, LodCoveragePolicy::MaskedShells)
    }

    /// What is added to a tier's depth; no policy changes it.
    pub fn tier_lod_bias(self, tier_index: usize) -> (r: i8)
        ensures
            r == 0,
    {
        let _ = tier_index;
        0
    }
}

impl Default for HillshadeSlice {
    fn default() -> (r: Self)
        ensures
            r == hillshade_default(),
            r.ambient.bits == 0x3eb3_3333 && r.relief_strength.bits == 0x3f80_0000,
    {
        HillshadeSlice {
            ambient: Real32 { bits: 0x3eb3_3333 },
            relief_strength: Real32 { bits: 0x3f80_0000 },
        }
    }
}

/// Ambient light 0.35 at full relief.
pub open spec fn hillshade_default() -> HillshadeSlice {
    HillshadeSlice {
        ambient: Real32 { bits: 0x3eb3_3333 },
        relief_strength: Real32 { bits: 0x3f80_0000 },
    }
}

impl SliceRenderStrategy {
    /// The relief shading, if there is any.
    pub fn relief(self) -> (r: Option<HillshadeSlice>)
        ensures
            r == (match self {
                SliceRenderStrategy::FlatSlice => None,
                SliceRenderStrategy::HillshadeSlice(h) => Some(h),
            }),
    {
        match self {
            SliceRenderStrategy::FlatSlice => None,
            SliceRenderStrategy::HillshadeSlice(h) => Some(h),
        }
    }
}

impl Default for PolarAnnulusShell {
    fn default() -> (r: Self)
        ensures
            r == shell_default(),
            r.n_rings == 32 && r.n_sectors == 128 && r.max_verts == 16384,
            r.n_rings * r.n_sectors <= r.max_verts,
    {
        PolarAnnulusShell { n_rings: 32, n_sectors: 128, max_verts: 16384 }
    }
}

/// 32 rings of 128 sectors.
pub open spec fn shell_default() -> PolarAnnulusShell {
    PolarAnnulusShell { n_rings: 32, n_sectors: 128, max_verts: 16384 }
}

impl HorizonImposterStrategy {
    pub fn enabled(self) -> (r: bool)
        ensures
            r == self is PolarAnnulusShell,
    {
        matches!(self, HorizonImposterStrategy::PolarAnnulusShell(_))
    }
}

impl LodLadderPolicy {
    /// The ladder to use, whatever the motion; none keeps the one in place.
    /// Moving fast never coarsens the ladder: that would evict bricks that are
    /// loaded.
    pub fn ladder(self, motion: &CameraMotionState) -> (r: Option<LodLadder>)
        ensures
            match r {
                None => self is StaticLadder,
                Some(l) => self is MotionScaledLadder && l.tiers@ == progressive_tiers()
                    && l.bricks_per_tick == DEFAULT_BRICKS_PER_TICK,
            },
    {
        let _ = motion;
        match self {
            LodLadderPolicy::StaticLadder => None,
            LodLadderPolicy::MotionScaledLadder => Some(LodLadder::default_progressive()),
        }
    }
}

impl Default for StaticSpawnBudget {
    fn default() -> (r: Self)
        ensures
            r.budget == DEFAULT_SPAWN_BUDGET,
    {
        StaticSpawnBudget { budget: DEFAULT_SPAWN_BUDGET }
    }
}

impl Default for MotionScaledSpawnBudget {
    fn default() -> (r: Self)
        ensures
            r.rest_budget == DEFAULT_SPAWN_BUDGET,
            r.sprint_budget == 8,
    {
        MotionScaledSpawnBudget { rest_budget: DEFAULT_SPAWN_BUDGET, sprint_budget: 8 }
    }
}

impl SpawnBudgetStrategy {
    /// Bricks to show in a frame. `scaled` is the motion-scaled value between
    /// the two budgets, rounded; it is held within them.
    pub fn budget_this_frame(self, scaled: usize) -> (r: usize)
        requires
            match self {
                SpawnBudgetStrategy::MotionScaledSpawnBudget(b) => b.sprint_budget <= b.rest_budget,
                _ => true,
            },
        ensures
            r == (match self {
                SpawnBudgetStrategy::StaticSpawnBudget(b) => b.budget,
                SpawnBudgetStrategy::MotionScaledSpawnBudget(b) => if scaled < b.sprint_budget {
                    b.sprint_budget
                } else if scaled > b.rest_budget {
                    b.rest_budget
                } else {
                    scaled
                },
            }),
    {
        match self {
            SpawnBudgetStrategy::StaticSpawnBudget(b) => b.budget,
            SpawnBudgetStrategy::MotionScaledSpawnBudget(b) => if scaled < b.sprint_budget {
                b.sprint_budget
            } else if scaled > b.rest_budget {
                b.rest_budget
            } else {
                scaled
            },
        }
    }
}

impl VisibilityCadenceStrategy {
    /// Every how many frames visibility is updated.
    pub open spec fn spec_stride(self, motion: CameraMotionState) -> u32 {
        match self {
            VisibilityCadenceStrategy::StaticVisibilityCadence => 1,
            VisibilityCadenceStrategy::MotionScaledCadence => if (Real32 {
                bits: SPRINTING_SPEED,
            }).less_or_equal(motion.smoothed_velocity_m_s) {
                3
            } else if (Real32 { bits: MOVING_SPEED }).less_or_equal(motion.smoothed_velocity_m_s) {
                2
            } else {
                1
            },
        }
    }

    /// Every how many frames visibility is updated: the faster the camera, the
    /// fewer.
    pub fn stride(self, motion: &CameraMotionState) -> (r: u32)
        ensures
            r == self.spec_stride(*motion),
            self is StaticVisibilityCadence ==> r == 1,
            self is MotionScaledCadence ==> (r == 3 <==> (Real32 { bits: 0x4100_0000 }).less_or_equal(
                motion.smoothed_velocity_m_s,
            )),
            self is MotionScaledCadence ==> (r >= 2 <==> (Real32 { bits: 0x4040_0000 }).less_or_equal(
                motion.smoothed_velocity_m_s,
            )),
            1 <= r <= 3,
    {
        match self {
            VisibilityCadenceStrategy::StaticVisibilityCadence => 1,
            VisibilityCadenceStrategy::MotionScaledCadence => {
                if (Real32 { bits: SPRINTING_SPEED }).le(motion.smoothed_velocity_m_s) {
                    3
                } else if (Real32 { bits: MOVING_SPEED }).le(motion.smoothed_velocity_m_s) {
                    2
                } else {
                    1
                }
            },
        }
    }

    /// Whether visibility is updated in `frame`.
    pub fn runs_in(self, motion: &CameraMotionState, frame: u64) -> (r: bool)
        ensures
            r == (frame as int % self.spec_stride(*motion) as int == 0),
    {
        frame % self.stride(motion) as u64 == 0
    }
}

/// Faster motion never updates visibility more often.
pub proof fn stride_grows_with_speed(
    s: VisibilityCadenceStrategy,
    slow: CameraMotionState,
    fast: CameraMotionState,
)
    requires
        slow.smoothed_velocity_m_s.less_or_equal(fast.smoothed_velocity_m_s),
    ensures
        s.spec_stride(slow) <= s.spec_stride(fast),
{
}

impl RebuildThresholdStrategy {
    /// The thresholds to use at rest, where they are not scaled by motion:
    /// scaling needs the horizon shell, which hides the gaps that wider
    /// thresholds leave.
    pub fn fixed_thresholds(self, motion: &CameraMotionState) -> (r: Option<(Real64, Real64)>)
        ensures
            r == (if self is MotionScaledRebuildThreshold && motion.imposter_active {
                None
            } else {
                Some((Real64 { bits: PLAN_REBUILD_DRIFT_M }, Real64 { bits: PLAN_REBUILD_FWD_COS }))
            }),
    {
        match self {
            RebuildThresholdStrategy::MotionScaledRebuildThreshold if motion.imposter_active => None,
            _ => Some((Real64 { bits: PLAN_REBUILD_DRIFT_M }, Real64 { bits: PLAN_REBUILD_FWD_COS })),
        }
    }
}

/// Where an hour falls between keyframes: the one before it and the one after,
/// around midnight.
pub open spec fn segment_of(hours: Real32, keys: Seq<Real32>, n: int) -> (int, int)
    decreases keys.len() - n,
{
    if n < 0 || n >= keys.len() {
        (keys.len() - 1, 0)
    } else if hours.less(keys[n]) {
        (
            if n == 0 {
                keys.len() - 1
            } else {
                n - 1
            },
            n,
        )
    } else {
        segment_of(hours, keys, n + 1)
    }
}

/// The keyframes around an hour: the first one later than it, and the one
/// before that. Past the last keyframe the day starts over. Without keyframes
/// there is none.
pub fn keyframe_segment(hours: Real32, keys: &Vec<Real32>) -> (r: Option<(usize, usize)>)
    ensures
        match r {
            None => keys@.len() == 0,
            Some((prev, next)) => keys@.len() > 0 && (prev as int, next as int) == segment_of(
                hours,
                keys@,
                0,
            ),
        },
{
    if keys.len() == 0 {
        return None;
    }
    let n: usize = keys.len();
    let mut i: usize = 0;
    while i < n
        invariant
            n == keys@.len(),
            n > 0,
            i <= n,
            segment_of(hours, keys@, 0) == segment_of(hours, keys@, i as int),
        decreases n - i,
    {
        if hours.lt(keys[i]) {
            return if i == 0 {
                Some((n - 1, 0))
            } else {
                Some((i - 1, i))
            };
        }
        i += 1;
    }
    Some((n - 1, 0))
}

/// Both keyframes exist, and the later follows the earlier, around midnight.
pub proof fn segment_is_adjacent(hours: Real32, keys: Seq<Real32>, n: int)
    requires
        keys.len() > 0,
        0 <= n <= keys.len(),
    ensures
        0 <= segment_of(hours, keys, n).0 < keys.len(),
        0 <= segment_of(hours, keys, n).1 < keys.len(),
        segment_of(hours, keys, n).1 == (if segment_of(hours, keys, n).0 == keys.len() - 1 {
            0
        } else {
            segment_of(hours, keys, n).0 + 1
        }),
    decreases keys.len() - n,
{
    if n < keys.len() && !hours.less(keys[n]) {
        segment_is_adjacent(hours, keys, n + 1);
    }
}

impl SunCurveStrategy {
    /// Whether the sun stands still.
    pub fn is_static(self) -> (r: bool)
        ensures
            r == self is StaticSun,
    {
        matches!(self, SunCurveStrategy::StaticSun)
    }
}

/// The later keyframe of an hour is the first that is later than it; where none
/// is, the hour stands between the last keyframe and the first of the next day.
pub proof fn the_next_keyframe_is_the_first_later_one(hours: Real32, keys: Seq<Real32>, n: int)
    requires
        keys.len() > 0,
        0 <= n <= keys.len(),
        forall|i: int| 0 <= i < n ==> !hours.less(#[trigger] keys[i]),
    ensures
        ({
            let next = segment_of(hours, keys, n).1;
            &&& 0 <= next < keys.len()
            &&& (exists|i: int| 0 <= i < keys.len() && hours.less(#[trigger] keys[i])) ==> hours.less(keys[next])
                && forall|i: int| 0 <= i < next ==> !hours.less(#[trigger] keys[i])
            &&& (forall|i: int| 0 <= i < keys.len() ==> !hours.less(#[trigger] keys[i])) ==> segment_of(hours, keys, n)
                == (keys.len() - 1, 0int)
        }),
    decreases keys.len() - n,
{
    if n < keys.len() && !hours.less(keys[n]) {
        the_next_keyframe_is_the_first_later_one(hours, keys, n + 1);
    }
}

} // verus!
