//! The renderer's configuration: one strategy per decision point, and presets
//! of them.

use crate::brick_gen::DEFAULT_SPAWN_BUDGET;
use crate::cli;
use crate::measure::Real32;
use crate::render::defaults::{cascades_default, fog_default, hillshade_default, shell_default};
use crate::render::strategy::{
    AoStrategy, BasicCascades, ExpSquaredSkyTintedFog, FogStrategy, HillshadeSlice,
    HorizonImposterStrategy, LodCoveragePolicy, LodLadderPolicy, MeshStrategy, MotionScaledSpawnBudget,
    PaletteStrategy, PolarAnnulusShell, RebuildThresholdStrategy, ShadingStrategy, ShadowStrategy,
    SkyStrategy, SliceRenderStrategy, SpawnBudgetStrategy, StaticSpawnBudget, SunCurveStrategy,
    TonemapStrategy, VisibilityCadenceStrategy,
};
use crate::text::str_eq;
use vstd::prelude::*;

verus! {

#[derive(Clone, Copy, Debug)]
pub struct RenderConfig {
    pub mesher: MeshStrategy,
    pub palette: PaletteStrategy,
    pub ao: AoStrategy,
    pub shading: ShadingStrategy,
    pub sky: SkyStrategy,
    pub sun_curve: SunCurveStrategy,
    pub shadow: ShadowStrategy,
    pub fog: FogStrategy,
    pub tonemap: TonemapStrategy,
    pub coverage: LodCoveragePolicy,
    pub slice: SliceRenderStrategy,
    pub horizon_imposter: HorizonImposterStrategy,
    pub lod_ladder: LodLadderPolicy,
    pub spawn_budget: SpawnBudgetStrategy,
    pub visibility_cadence: VisibilityCadenceStrategy,
    pub rebuild_threshold: RebuildThresholdStrategy,
    /// The clock of the world advances by itself.
    pub time_advances_automatically: bool,
    /// Seconds per hour of the world.
    pub seconds_per_hour: Real32,
}

/// Performance preset.
#[derive(Clone, Copy, Debug, PartialEq, Eq, Structural)]
pub enum PerfPreset {
    /// Strategies that follow the camera's motion.
    Balanced,
    /// Static strategies.
    Quality,
}

/// A bundle of strategies.
#[derive(Clone, Copy, Debug, PartialEq, Eq, Structural)]
pub enum RenderPreset {
    /// The plain look: no occlusion, shadows, fog or horizon shell.
    Legacy,
    /// The shipped look.
    Stylized,
    /// For inspecting geometry and materials.
    Debug,
}

pub open spec fn budget_at_rest() -> SpawnBudgetStrategy {
    SpawnBudgetStrategy::StaticSpawnBudget(StaticSpawnBudget { budget: DEFAULT_SPAWN_BUDGET })
}

pub open spec fn budget_by_motion() -> SpawnBudgetStrategy {
    SpawnBudgetStrategy::MotionScaledSpawnBudget(
        MotionScaledSpawnBudget { rest_budget: DEFAULT_SPAWN_BUDGET, sprint_budget: 8 },
    )
}

/// The configuration that the client starts with.
pub open spec fn default_config() -> RenderConfig {
    RenderConfig {
        mesher: MeshStrategy::GreedyFlat,
        palette: PaletteStrategy::HardcodedPalette,
        ao: AoStrategy::MinecraftCornerAo,
        shading: ShadingStrategy::LegacyVertexColor,
        sky: SkyStrategy::ProceduralDomeSky,
        sun_curve: SunCurveStrategy::KeyframeLutSun,
        shadow: ShadowStrategy::BasicCascades(cascades_default()),
        fog: FogStrategy::ExpSquaredSkyTintedFog(fog_default()),
        tonemap: TonemapStrategy::AcesTonemap,
        coverage: LodCoveragePolicy::NestedSummary,
        slice: SliceRenderStrategy::HillshadeSlice(hillshade_default()),
        horizon_imposter: HorizonImposterStrategy::PolarAnnulusShell(shell_default()),
        lod_ladder: LodLadderPolicy::MotionScaledLadder,
        spawn_budget: budget_by_motion(),
        visibility_cadence: VisibilityCadenceStrategy::MotionScaledCadence,
        rebuild_threshold: RebuildThresholdStrategy::MotionScaledRebuildThreshold,
        time_advances_automatically: false,
        seconds_per_hour: Real32 { bits: 0x4270_0000 },
    }
}

impl Default for RenderConfig {
    fn default() -> (r: Self)
        ensures
            r == default_config(),
            r.mesher is GreedyFlat && r.ao is MinecraftCornerAo && r.shading is LegacyVertexColor,
            r.sky is ProceduralDomeSky && r.sun_curve is KeyframeLutSun && r.shadow is BasicCascades,
            r.fog is ExpSquaredSkyTintedFog && r.tonemap is AcesTonemap && r.coverage is NestedSummary,
            r.slice is HillshadeSlice && r.horizon_imposter is PolarAnnulusShell,
            r.lod_ladder is MotionScaledLadder && r.spawn_budget is MotionScaledSpawnBudget,
            r.visibility_cadence is MotionScaledCadence && r.rebuild_threshold is MotionScaledRebuildThreshold,
            !r.time_advances_automatically && r.seconds_per_hour.bits == 0x4270_0000,
    {
        RenderConfig {
            mesher: MeshStrategy::GreedyFlat,
            palette: PaletteStrategy::HardcodedPalette,
            ao: AoStrategy::MinecraftCornerAo,
            shading: ShadingStrategy::LegacyVertexColor,
            sky: SkyStrategy::ProceduralDomeSky,
            sun_curve: SunCurveStrategy::KeyframeLutSun,
            shadow: ShadowStrategy::BasicCascades(BasicCascades::default()),
            fog: FogStrategy::ExpSquaredSkyTintedFog(ExpSquaredSkyTintedFog::default()),
            tonemap: TonemapStrategy::AcesTonemap,
            coverage: LodCoveragePolicy::NestedSummary,
            slice: SliceRenderStrategy::HillshadeSlice(HillshadeSlice::default()),
            horizon_imposter: HorizonImposterStrategy::PolarAnnulusShell(PolarAnnulusShell::default()),
            lod_ladder: LodLadderPolicy::MotionScaledLadder,
            spawn_budget: SpawnBudgetStrategy::MotionScaledSpawnBudget(
                MotionScaledSpawnBudget::default(),
            ),
            visibility_cadence: VisibilityCadenceStrategy::MotionScaledCadence,
            rebuild_threshold: RebuildThresholdStrategy::MotionScaledRebuildThreshold,
            time_advances_automatically: false,
            seconds_per_hour: Real32 { bits: 0x4270_0000 },
        }
    }
}

/// A configuration with a performance preset applied: the four motion-aware
/// strategies are set, the others stay.
pub open spec fn with_perf(cfg: RenderConfig, preset: PerfPreset) -> RenderConfig {
    match preset {
        PerfPreset::Balanced => RenderConfig {
            lod_ladder: LodLadderPolicy::MotionScaledLadder,
            spawn_budget: budget_by_motion(),
            visibility_cadence: VisibilityCadenceStrategy::MotionScaledCadence,
            rebuild_threshold: RebuildThresholdStrategy::MotionScaledRebuildThreshold,
            ..cfg
        },
        PerfPreset::Quality => RenderConfig {
            lod_ladder: LodLadderPolicy::StaticLadder,
            spawn_budget: budget_at_rest(),
            visibility_cadence: VisibilityCadenceStrategy::StaticVisibilityCadence,
            rebuild_threshold: RebuildThresholdStrategy::StaticRebuildThreshold,
            ..cfg
        },
    }
}

/// A configuration with a preset applied; what the preset does not speak of
/// stays.
pub open spec fn with_preset(cfg: RenderConfig, preset: RenderPreset) -> RenderConfig {
    match preset {
        RenderPreset::Legacy => RenderConfig {
            mesher: MeshStrategy::GreedyFlat,
            ao: AoStrategy::NoAo,
            shading: ShadingStrategy::LegacyVertexColor,
            sky: SkyStrategy::ConstantSky,
            sun_curve: SunCurveStrategy::StaticSun,
            shadow: ShadowStrategy::NoShadows,
            fog: FogStrategy::NoFog,
            tonemap: TonemapStrategy::DefaultTonemap,
            coverage: LodCoveragePolicy::MaskedShells,
            slice: SliceRenderStrategy::FlatSlice,
            horizon_imposter: HorizonImposterStrategy::NoHorizonImposter,
            ..cfg
        },
        RenderPreset::Stylized => RenderConfig {
            ao: AoStrategy::MinecraftCornerAo,
            sun_curve: SunCurveStrategy::KeyframeLutSun,
            shadow: ShadowStrategy::BasicCascades(cascades_default()),
            fog: FogStrategy::ExpSquaredSkyTintedFog(fog_default()),
            sky: SkyStrategy::SkyTinted,
            tonemap: TonemapStrategy::AcesTonemap,
            slice: SliceRenderStrategy::HillshadeSlice(hillshade_default()),
            ..cfg
        },
        RenderPreset::Debug => RenderConfig {
            ao: AoStrategy::NoAo,
            sun_curve: SunCurveStrategy::StaticSun,
            shadow: ShadowStrategy::NoShadows,
            fog: FogStrategy::NoFog,
            sky: SkyStrategy::ConstantSky,
            tonemap: TonemapStrategy::DefaultTonemap,
            slice: SliceRenderStrategy::FlatSlice,
            ..cfg
        },
    }
}

impl RenderConfig {
    /// Applies a performance preset.
    pub fn apply_perf_preset(&mut self, preset: PerfPreset)
        ensures
            *final(self) == with_perf(*old(self), preset),
            preset is Balanced ==> final(self).lod_ladder is MotionScaledLadder && final(self).visibility_cadence is MotionScaledCadence && final(self).rebuild_threshold is MotionScaledRebuildThreshold && final(self).spawn_budget is MotionScaledSpawnBudget,
            preset is Quality ==> final(self).lod_ladder is StaticLadder && final(self).visibility_cadence is StaticVisibilityCadence && final(self).rebuild_threshold is StaticRebuildThreshold && final(self).spawn_budget is StaticSpawnBudget,
            final(self).mesher == old(self).mesher,
            final(self).palette == old(self).palette,
            final(self).ao == old(self).ao,
            final(self).shading == old(self).shading,
            final(self).sky == old(self).sky,
            final(self).sun_curve == old(self).sun_curve,
            final(self).shadow == old(self).shadow,
            final(self).fog == old(self).fog,
            final(self).tonemap == old(self).tonemap,
            final(self).coverage == old(self).coverage,
            final(self).slice == old(self).slice,
            final(self).horizon_imposter == old(self).horizon_imposter,
            final(self).time_advances_automatically == old(self).time_advances_automatically,
            final(self).seconds_per_hour == old(self).seconds_per_hour,
    {
        match preset {
            PerfPreset::Balanced => {
                self.lod_ladder = LodLadderPolicy::MotionScaledLadder;
                self.spawn_budget = SpawnBudgetStrategy::MotionScaledSpawnBudget(
                    MotionScaledSpawnBudget::default(),
                );
                self.visibility_cadence = VisibilityCadenceStrategy::MotionScaledCadence;
                self.rebuild_threshold = RebuildThresholdStrategy::MotionScaledRebuildThreshold;
            },
            PerfPreset::Quality => {
                self.lod_ladder = LodLadderPolicy::StaticLadder;
                self.spawn_budget = SpawnBudgetStrategy::StaticSpawnBudget(StaticSpawnBudget::default());
                self.visibility_cadence = VisibilityCadenceStrategy::StaticVisibilityCadence;
                self.rebuild_threshold = RebuildThresholdStrategy::StaticRebuildThreshold;
            },
        }
    }

    /// Applies a bundle of strategies.
    pub fn apply_preset(&mut self, preset: RenderPreset)
        ensures
            *final(self) == with_preset(*old(self), preset),
            preset is Legacy || preset is Debug ==> final(self).ao is NoAo && final(self).sun_curve is StaticSun
                && final(self).shadow is NoShadows && final(self).fog is NoFog && final(self).sky is ConstantSky
                && final(self).tonemap is DefaultTonemap && final(self).slice is FlatSlice,
            preset is Legacy ==> final(self).mesher is GreedyFlat && final(self).shading is LegacyVertexColor
                && final(self).coverage is MaskedShells && final(self).horizon_imposter is NoHorizonImposter,
            preset is Stylized ==> final(self).ao is MinecraftCornerAo && final(self).sun_curve is KeyframeLutSun
                && final(self).shadow is BasicCascades && final(self).fog is ExpSquaredSkyTintedFog
                && final(self).sky is SkyTinted && final(self).tonemap is AcesTonemap
                && final(self).slice is HillshadeSlice,
            !(preset is Legacy) ==> final(self).mesher == old(self).mesher,
            !(preset is Legacy) ==> final(self).shading == old(self).shading,
            !(preset is Legacy) ==> final(self).coverage == old(self).coverage,
            !(preset is Legacy) ==> final(self).horizon_imposter == old(self).horizon_imposter,
            final(self).palette == old(self).palette,
            final(self).lod_ladder == old(self).lod_ladder,
            final(self).spawn_budget == old(self).spawn_budget,
            final(self).visibility_cadence == old(self).visibility_cadence,
            final(self).rebuild_threshold == old(self).rebuild_threshold,
            final(self).time_advances_automatically == old(self).time_advances_automatically,
            final(self).seconds_per_hour == old(self).seconds_per_hour,
    {
        match preset {
            RenderPreset::Legacy => {
                self.mesher = MeshStrategy::GreedyFlat;
                self.ao = AoStrategy::NoAo;
                self.shading = ShadingStrategy::LegacyVertexColor;
                self.sky = SkyStrategy::ConstantSky;
                self.sun_curve = SunCurveStrategy::StaticSun;
                self.shadow = ShadowStrategy::NoShadows;
                self.fog = FogStrategy::NoFog;
                self.tonemap = TonemapStrategy::DefaultTonemap;
                self.coverage = LodCoveragePolicy::MaskedShells;
                self.slice = SliceRenderStrategy::FlatSlice;
                self.horizon_imposter = HorizonImposterStrategy::NoHorizonImposter;
            },
            RenderPreset::Stylized => {
                self.ao = AoStrategy::MinecraftCornerAo;
                self.sun_curve = SunCurveStrategy::KeyframeLutSun;
                self.shadow = ShadowStrategy::BasicCascades(BasicCascades::default());
                self.fog = FogStrategy::ExpSquaredSkyTintedFog(ExpSquaredSkyTintedFog::default());
                self.sky = SkyStrategy::SkyTinted;
                self.tonemap = TonemapStrategy::AcesTonemap;
                self.slice = SliceRenderStrategy::HillshadeSlice(HillshadeSlice::default());
            },
            RenderPreset::Debug => {
                self.ao = AoStrategy::NoAo;
                self.sun_curve = SunCurveStrategy::StaticSun;
                self.shadow = ShadowStrategy::NoShadows;
                self.fog = FogStrategy::NoFog;
                self.sky = SkyStrategy::ConstantSky;
                self.tonemap = TonemapStrategy::DefaultTonemap;
                self.slice = SliceRenderStrategy::FlatSlice;
            },
        }
    }

    /// Chooses the shading path: one mesh per material, or one merged mesh with
    /// the palette. The other choices keep the configured path.
    pub fn apply_shading(&mut self, shading: cli::ShadingArg)
        ensures
            *final(self) == with_shading(*old(self), shading),
            shading is Mesh ==> final(self).shading is LegacyVertexColor,
            shading is Palette ==> final(self).shading is PaletteVoxelMaterial,
            shading is Default || shading is Raymarch ==> *final(self) == *old(self),
            final(self).mesher == old(self).mesher,
            final(self).palette == old(self).palette,
            final(self).ao == old(self).ao,
            final(self).sky == old(self).sky,
            final(self).sun_curve == old(self).sun_curve,
            final(self).shadow == old(self).shadow,
            final(self).fog == old(self).fog,
            final(self).tonemap == old(self).tonemap,
            final(self).coverage == old(self).coverage,
            final(self).slice == old(self).slice,
            final(self).horizon_imposter == old(self).horizon_imposter,
            final(self).time_advances_automatically == old(self).time_advances_automatically,
            final(self).seconds_per_hour == old(self).seconds_per_hour,
            final(self).lod_ladder == old(self).lod_ladder,
            final(self).spawn_budget == old(self).spawn_budget,
            final(self).visibility_cadence == old(self).visibility_cadence,
            final(self).rebuild_threshold == old(self).rebuild_threshold,
    {
        match shading {
            cli::ShadingArg::Mesh => {
                self.shading = ShadingStrategy::LegacyVertexColor;
            },
            cli::ShadingArg::Palette => {
                self.shading = ShadingStrategy::PaletteVoxelMaterial;
            },
            cli::ShadingArg::Default | cli::ShadingArg::Raymarch => {},
        }
    }

    /// The configuration of a run with the given performance and shading
    /// options.
    pub fn for_run(perf: cli::PerfPreset, shading: cli::ShadingArg) -> (r: Self)
        ensures
            r == with_shading(
                with_perf(
                    default_config(),
                    match perf {
                        cli::PerfPreset::Balanced => PerfPreset::Balanced,
                        cli::PerfPreset::Quality => PerfPreset::Quality,
                    },
                ),
                shading,
            ),
            perf is Quality <==> r.lod_ladder is StaticLadder,
            perf is Quality <==> r.visibility_cadence is StaticVisibilityCadence,
            perf is Quality <==> r.rebuild_threshold is StaticRebuildThreshold,
            perf is Quality <==> r.spawn_budget is StaticSpawnBudget,
            shading is Palette <==> r.shading is PaletteVoxelMaterial,
    {
        let mut cfg = RenderConfig::default();
        cfg.apply_perf_preset(
            match perf {
                cli::PerfPreset::Balanced => PerfPreset::Balanced,
                cli::PerfPreset::Quality => PerfPreset::Quality,
            },
        );
        cfg.apply_shading(shading);
        cfg
    }
}

/// A configuration with the shading path of an option.
pub open spec fn with_shading(cfg: RenderConfig, shading: cli::ShadingArg) -> RenderConfig {
    match shading {
        cli::ShadingArg::Mesh => RenderConfig { shading: ShadingStrategy::LegacyVertexColor, ..cfg },
        cli::ShadingArg::Palette => RenderConfig { shading: ShadingStrategy::PaletteVoxelMaterial, ..cfg },
        cli::ShadingArg::Default | cli::ShadingArg::Raymarch => cfg,
    }
}

impl RenderPreset {
    /// The preset of a name.
    pub open spec fn named(s: Seq<char>) -> Option<RenderPreset> {
        if s == "legacy"@ {
            Some(RenderPreset::Legacy)
        } else if s == "stylized"@ {
            Some(RenderPreset::Stylized)
        } else if s == "debug"@ {
            Some(RenderPreset::Debug)
        } else {
            None
        }
    }

    /// The preset of a name.
    pub fn from_str(s: &str) -> (r: Option<Self>)
        ensures
            r == Self::named(s@),
            s@ == "legacy"@ <==> r == Some(RenderPreset::Legacy),
            s@ == "stylized"@ <==> r == Some(RenderPreset::Stylized),
            s@ == "debug"@ <==> r == Some(RenderPreset::Debug),
    {
        proof {
            reveal_strlit("legacy");
            assert("legacy"@.len() == 6);
            reveal_strlit("stylized");
            assert("stylized"@.len() == 8);
            reveal_strlit("debug");
            assert("debug"@.len() == 5);
        }
        if str_eq(s, "legacy") {
            Some(RenderPreset::Legacy)
        } else if str_eq(s, "stylized") {
            Some(RenderPreset::Stylized)
        } else if str_eq(s, "debug") {
            Some(RenderPreset::Debug)
        } else {
            None
        }
    }
}

/// The balanced preset is what the client starts with.
pub proof fn balanced_is_the_default()
    ensures
        with_perf(default_config(), PerfPreset::Balanced) == default_config(),
{
}

/// Applying a preset twice is applying it once, and a performance preset and a
/// look can be applied in either order.
pub proof fn presets_are_settled(cfg: RenderConfig, perf: PerfPreset, look: RenderPreset)
    ensures
        with_perf(with_perf(cfg, perf), perf) == with_perf(cfg, perf),
        with_preset(with_preset(cfg, look), look) == with_preset(cfg, look),
        with_preset(with_perf(cfg, perf), look) == with_perf(with_preset(cfg, look), perf),
{
}

} // verus!
