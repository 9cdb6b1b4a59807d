//! The names that strategies are selected and logged by.

use crate::render::strategy::{
    AoStrategy, FogStrategy, HorizonImposterStrategy, LodCoveragePolicy, LodLadderPolicy, MeshStrategy,
    PaletteStrategy, RebuildThresholdStrategy, ShadingStrategy, ShadowStrategy, SkyStrategy,
    SliceRenderStrategy, SpawnBudgetStrategy, SunCurveStrategy, TonemapStrategy,
    VisibilityCadenceStrategy,
};
use vstd::prelude::*;

verus! {

impl MeshStrategy {
    pub open spec fn spec_name(self) -> Seq<char> {
        match self {
            MeshStrategy::GreedyFlat => "GreedyFlat"@,
            MeshStrategy::NaiveMesh => "NaiveMesh"@,
            MeshStrategy::MarchingCubes { iso: _ } => "MarchingCubes"@,
            MeshStrategy::DualContouring => "DualContouring"@,
        }
    }

    pub fn name(self) -> (r: &'static str)
        ensures
            r@ == self.spec_name(),
    {
        match self {
            MeshStrategy::GreedyFlat => "GreedyFlat",
            MeshStrategy::NaiveMesh => "NaiveMesh",
            MeshStrategy::MarchingCubes { iso: _ } => "MarchingCubes",
            MeshStrategy::DualContouring => "DualContouring",
        }
    }
}

impl PaletteStrategy {
    pub open spec fn spec_name(self) -> Seq<char> {
        match self {
            PaletteStrategy::HardcodedPalette => "HardcodedPalette"@,
        }
    }

    pub fn name(self) -> (r: &'static str)
        ensures
            r@ == self.spec_name(),
    {
        match self {
            PaletteStrategy::HardcodedPalette => "HardcodedPalette",
        }
    }
}

impl AoStrategy {
    pub open spec fn spec_name(self) -> Seq<char> {
        match self {
            AoStrategy::NoAo => "NoAo"@,
            AoStrategy::MinecraftCornerAo => "MinecraftCornerAo"@,
            AoStrategy::BrickEdgeAwareAo => "BrickEdgeAwareAo"@,
        }
    }

    pub fn name(self) -> (r: &'static str)
        ensures
            r@ == self.spec_name(),
    {
        match self {
            AoStrategy::NoAo => "NoAo",
            AoStrategy::MinecraftCornerAo => "MinecraftCornerAo",
            AoStrategy::BrickEdgeAwareAo => "BrickEdgeAwareAo",
        }
    }
}

impl ShadingStrategy {
    pub open spec fn spec_name(self) -> Seq<char> {
        match self {
            ShadingStrategy::LegacyVertexColor => "LegacyVertexColor"@,
            ShadingStrategy::PaletteVoxelMaterial => "PaletteVoxelMaterial"@,
        }
    }

    pub fn name(self) -> (r: &'static str)
        ensures
            r@ == self.spec_name(),
    {
        match self {
            ShadingStrategy::LegacyVertexColor => "LegacyVertexColor",
            ShadingStrategy::PaletteVoxelMaterial => "PaletteVoxelMaterial",
        }
    }
}

impl SkyStrategy {
    pub open spec fn spec_name(self) -> Seq<char> {
        match self {
            SkyStrategy::ConstantSky => "ConstantSky"@,
            SkyStrategy::SkyTinted => "SkyTinted"@,
            SkyStrategy::ProceduralDomeSky => "ProceduralDomeSky"@,
        }
    }

    pub fn name(self) -> (r: &'static str)
        ensures
            r@ == self.spec_name(),
    {
        match self {
            SkyStrategy::ConstantSky => "ConstantSky",
            SkyStrategy::SkyTinted => "SkyTinted",
            SkyStrategy::ProceduralDomeSky => "ProceduralDomeSky",
        }
    }
}

impl SunCurveStrategy {
    pub open spec fn spec_name(self) -> Seq<char> {
        match self {
            SunCurveStrategy::StaticSun => "StaticSun"@,
            SunCurveStrategy::KeyframeLutSun => "KeyframeLutSun"@,
        }
    }

    pub fn name(self) -> (r: &'static str)
        ensures
            r@ == self.spec_name(),
    {
        match self {
            SunCurveStrategy::StaticSun => "StaticSun",
            SunCurveStrategy::KeyframeLutSun => "KeyframeLutSun",
        }
    }
}

impl ShadowStrategy {
    pub open spec fn spec_name(self) -> Seq<char> {
        match self {
            ShadowStrategy::NoShadows => "NoShadows"@,
            ShadowStrategy::BasicCascades(_) => "BasicCascades"@,
        }
    }

    pub fn name(self) -> (r: &'static str)
        ensures
            r@ == self.spec_name(),
    {
        match self {
            ShadowStrategy::NoShadows => "NoShadows",
            ShadowStrategy::BasicCascades(_) => "BasicCascades",
        }
    }
}

impl FogStrategy {
    pub open spec fn spec_name(self) -> Seq<char> {
        match self {
            FogStrategy::NoFog => "NoFog"@,
            FogStrategy::ExpSquaredSkyTintedFog(_) => "ExpSquaredSkyTintedFog"@,
            FogStrategy::BiomeBlendedFog(_) => "BiomeBlendedFog"@,
        }
    }

    pub fn name(self) -> (r: &'static str)
        ensures
            r@ == self.spec_name(),
    {
        match self {
            FogStrategy::NoFog => "NoFog",
            FogStrategy::ExpSquaredSkyTintedFog(_) => "ExpSquaredSkyTintedFog",
            FogStrategy::BiomeBlendedFog(_) => "BiomeBlendedFog",
        }
    }
}

impl TonemapStrategy {
    pub open spec fn spec_name(self) -> Seq<char> {
        match self {
            TonemapStrategy::DefaultTonemap => "DefaultTonemap"@,
            TonemapStrategy::AcesTonemap => "AcesTonemap"@,
        }
    }

    pub fn name(self) -> (r: &'static str)
        ensures
            r@ == self.spec_name(),
    {
        match self {
            TonemapStrategy::DefaultTonemap => "DefaultTonemap",
            TonemapStrategy::AcesTonemap => "AcesTonemap",
        }
    }
}

impl LodCoveragePolicy {
    pub open spec fn spec_name(self) -> Seq<char> {
        match self {
            LodCoveragePolicy::MaskedShells => "MaskedShells"@,
            LodCoveragePolicy::NestedSummary => "NestedSummary"@,
        }
    }

    pub fn name(self) -> (r: &'static str)
        ensures
            r@ == self.spec_name(),
    {
        match self {
            LodCoveragePolicy::MaskedShells => "MaskedShells",
            LodCoveragePolicy::NestedSummary => "NestedSummary",
        }
    }
}

impl SliceRenderStrategy {
    pub open spec fn spec_name(self) -> Seq<char> {
        match self {
            SliceRenderStrategy::FlatSlice => "FlatSlice"@,
            SliceRenderStrategy::HillshadeSlice(_) => "HillshadeSlice"@,
        }
    }

    pub fn name(self) -> (r: &'static str)
        ensures
            r@ == self.spec_name(),
    {
        match self {
            SliceRenderStrategy::FlatSlice => "FlatSlice",
            SliceRenderStrategy::HillshadeSlice(_) => "HillshadeSlice",
        }
    }
}

impl HorizonImposterStrategy {
    pub open spec fn spec_name(self) -> Seq<char> {
        match self {
            HorizonImposterStrategy::PolarAnnulusShell(_) => "PolarAnnulusShell"@,
            HorizonImposterStrategy::NoHorizonImposter => "NoHorizonImposter"@,
        }
    }

    pub fn name(self) -> (r: &'static str)
        ensures
            r@ == self.spec_name(),
    {
        match self {
            HorizonImposterStrategy::PolarAnnulusShell(_) => "PolarAnnulusShell",
            HorizonImposterStrategy::NoHorizonImposter => "NoHorizonImposter",
        }
    }
}

impl LodLadderPolicy {
    pub open spec fn spec_name(self) -> Seq<char> {
        match self {
            LodLadderPolicy::StaticLadder => "StaticLadder"@,
            LodLadderPolicy::MotionScaledLadder => "MotionScaledLadder"@,
        }
    }

    pub fn name(self) -> (r: &'static str)
        ensures
            r@ == self.spec_name(),
    {
        match self {
            LodLadderPolicy::StaticLadder => "StaticLadder",
            LodLadderPolicy::MotionScaledLadder => "MotionScaledLadder",
        }
    }
}

impl SpawnBudgetStrategy {
    pub open spec fn spec_name(self) -> Seq<char> {
        match self {
            SpawnBudgetStrategy::StaticSpawnBudget(_) => "StaticSpawnBudget"@,
            SpawnBudgetStrategy::MotionScaledSpawnBudget(_) => "MotionScaledSpawnBudget"@,
        }
    }

    pub fn name(self) -> (r: &'static str)
        ensures
            r@ == self.spec_name(),
    {
        match self {
            SpawnBudgetStrategy::StaticSpawnBudget(_) => "StaticSpawnBudget",
            SpawnBudgetStrategy::MotionScaledSpawnBudget(_) => "MotionScaledSpawnBudget",
        }
    }
}

impl VisibilityCadenceStrategy {
    pub open spec fn spec_name(self) -> Seq<char> {
        match self {
            VisibilityCadenceStrategy::StaticVisibilityCadence => "StaticVisibilityCadence"@,
            VisibilityCadenceStrategy::MotionScaledCadence => "MotionScaledCadence"@,
        }
    }

    pub fn name(self) -> (r: &'static str)
        ensures
            r@ == self.spec_name(),
    {
        match self {
            VisibilityCadenceStrategy::StaticVisibilityCadence => "StaticVisibilityCadence",
            VisibilityCadenceStrategy::MotionScaledCadence => "MotionScaledCadence",
        }
    }
}

impl RebuildThresholdStrategy {
    pub open spec fn spec_name(self) -> Seq<char> {
        match self {
            RebuildThresholdStrategy::StaticRebuildThreshold => "StaticRebuildThreshold"@,
            RebuildThresholdStrategy::MotionScaledRebuildThreshold => "MotionScaledRebuildThreshold"@,
        }
    }

    pub fn name(self) -> (r: &'static str)
        ensures
            r@ == self.spec_name(),
    {
        match self {
            RebuildThresholdStrategy::StaticRebuildThreshold => "StaticRebuildThreshold",
            RebuildThresholdStrategy::MotionScaledRebuildThreshold => "MotionScaledRebuildThreshold",
        }
    }
}

} // verus!
