//! The decision points of the renderer. Each has a fixed choice of strategies.

use crate::measure::Real32;
use vstd::prelude::*;

verus! {

/// A linear colour.
#[derive(Clone, Copy, Debug, PartialEq, Eq, Structural)]
pub struct Rgb {
    pub r: Real32,
    pub g: Real32,
    pub b: Real32,
}

/// One material of the palette.
#[derive(Clone, Copy, Debug, PartialEq, Eq, Structural)]
pub struct MaterialEntry {
    pub id: u16,
    pub base_color: Rgb,
    pub roughness: Real32,
    pub metallic: Real32,
    pub emissive: Rgb,
    pub alpha: Real32,
}

/// How a brick's meshes become entities.
#[derive(Clone, Copy, Debug, PartialEq, Eq, Structural)]
pub enum ShadingMode {
    /// One child entity per material.
    SplitPerMaterial,
    /// One merged mesh with the palette's material.
    PaletteVoxelMaterial,
}

/// How fast the camera moves.
#[derive(Clone, Copy, Debug, PartialEq, Eq, Structural)]
pub struct CameraMotionState {
    /// Smoothed speed, in meters per second.
    pub smoothed_velocity_m_s: Real32,
    pub sprint_held: bool,
    /// The horizon shell is shown.
    pub imposter_active: bool,
}

impl Default for CameraMotionState {
    fn default() -> (r: Self)
        ensures
            r.smoothed_velocity_m_s.bits == 0,
            !r.sprint_held,
            !r.imposter_active,
    {
        CameraMotionState {
            smoothed_velocity_m_s: Real32 { bits: 0 },
            sprint_held: false,
            imposter_active: false,
        }
    }
}

/// Turns a brick into triangles.
#[derive(Clone, Copy, Debug, PartialEq, Eq, Structural)]
pub enum MeshStrategy {
    /// Coplanar faces of one material are merged.
    GreedyFlat,
    /// One quad per visible face.
    NaiveMesh,
    /// Marching cubes at an iso value.
    MarchingCubes { iso: Real32 },
    DualContouring,
}

/// Where the palette comes from.
#[derive(Clone, Copy, Debug, PartialEq, Eq, Structural)]
pub enum PaletteStrategy {
    HardcodedPalette,
}

/// Ambient occlusion.
#[derive(Clone, Copy, Debug, PartialEq, Eq, Structural)]
pub enum AoStrategy {
    NoAo,
    MinecraftCornerAo,
    /// As the corner sampler, and bakes sky light too.
    BrickEdgeAwareAo,
}

#[derive(Clone, Copy, Debug, PartialEq, Eq, Structural)]
pub enum ShadingStrategy {
    LegacyVertexColor,
    PaletteVoxelMaterial,
}

#[derive(Clone, Copy, Debug, PartialEq, Eq, Structural)]
pub enum SkyStrategy {
    ConstantSky,
    SkyTinted,
    /// As the tinted sky, with a dome around the camera.
    ProceduralDomeSky,
}

#[derive(Clone, Copy, Debug, PartialEq, Eq, Structural)]
pub enum SunCurveStrategy {
    StaticSun,
    KeyframeLutSun,
}

/// Settings of cascaded shadow maps.
#[derive(Clone, Copy, Debug, PartialEq, Eq, Structural)]
pub struct BasicCascades {
    pub num_cascades: usize,
    pub minimum_distance: Real32,
    pub maximum_distance: Real32,
    pub first_cascade_far_bound: Real32,
    pub overlap_proportion: Real32,
}

#[derive(Clone, Copy, Debug, PartialEq, Eq, Structural)]
pub enum ShadowStrategy {
    NoShadows,
    BasicCascades(BasicCascades),
}

/// Fog that hides the load horizon. `density` is used where no horizon is
/// known.
#[derive(Clone, Copy, Debug, PartialEq, Eq, Structural)]
pub struct ExpSquaredSkyTintedFog {
    pub density: Real32,
}

/// Fog tinted by the biome.
#[derive(Clone, Copy, Debug, PartialEq, Eq, Structural)]
pub struct BiomeBlendedFog {
    pub density: Real32,
    pub biome_tint: Rgb,
    pub mix: Real32,
}

#[derive(Clone, Copy, Debug, PartialEq, Eq, Structural)]
pub enum FogStrategy {
    NoFog,
    ExpSquaredSkyTintedFog(ExpSquaredSkyTintedFog),
    BiomeBlendedFog(BiomeBlendedFog),
}

#[derive(Clone, Copy, Debug, PartialEq, Eq, Structural)]
pub enum TonemapStrategy {
    DefaultTonemap,
    AcesTonemap,
}

/// Whether coarse bricks stay loaded under finer ones.
#[derive(Clone, Copy, Debug, PartialEq, Eq, Structural)]
pub enum LodCoveragePolicy {
    /// Each tier loads its shell only.
    MaskedShells,
    /// Each tier loads all the way in.
    NestedSummary,
}

/// Relief shading of the slice view.
#[derive(Clone, Copy, Debug, PartialEq, Eq, Structural)]
pub struct HillshadeSlice {
    pub ambient: Real32,
    pub relief_strength: Real32,
}

#[derive(Clone, Copy, Debug, PartialEq, Eq, Structural)]
pub enum SliceRenderStrategy {
    FlatSlice,
    HillshadeSlice(HillshadeSlice),
}

/// Size of the horizon shell's mesh.
#[derive(Clone, Copy, Debug, PartialEq, Eq, Structural)]
pub struct PolarAnnulusShell {
    pub n_rings: u32,
    pub n_sectors: u32,
    pub max_verts: usize,
}

#[derive(Clone, Copy, Debug, PartialEq, Eq, Structural)]
pub enum HorizonImposterStrategy {
    PolarAnnulusShell(PolarAnnulusShell),
    NoHorizonImposter,
}

#[derive(Clone, Copy, Debug, PartialEq, Eq, Structural)]
pub enum LodLadderPolicy {
    StaticLadder,
    MotionScaledLadder,
}

/// A fixed number of bricks per frame.
#[derive(Clone, Copy, Debug, PartialEq, Eq, Structural)]
pub struct StaticSpawnBudget {
    pub budget: usize,
}

/// Fewer bricks per frame the faster the camera moves.
#[derive(Clone, Copy, Debug, PartialEq, Eq, Structural)]
pub struct MotionScaledSpawnBudget {
    pub rest_budget: usize,
    pub sprint_budget: usize,
}

#[derive(Clone, Copy, Debug, PartialEq, Eq, Structural)]
pub enum SpawnBudgetStrategy {
    StaticSpawnBudget(StaticSpawnBudget),
    MotionScaledSpawnBudget(MotionScaledSpawnBudget),
}

#[derive(Clone, Copy, Debug, PartialEq, Eq, Structural)]
pub enum VisibilityCadenceStrategy {
    StaticVisibilityCadence,
    MotionScaledCadence,
}

#[derive(Clone, Copy, Debug, PartialEq, Eq, Structural)]
pub enum RebuildThresholdStrategy {
    StaticRebuildThreshold,
    MotionScaledRebuildThreshold,
}

} // verus!
