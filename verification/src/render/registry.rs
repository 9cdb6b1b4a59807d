//! Strategies by name: a scenario selects one by its slot and its name.

use crate::render::config::RenderConfig;
use crate::render::defaults::{cascades_default, fog_default, hillshade_default};
use crate::render::strategy::{
    AoStrategy, BasicCascades, ExpSquaredSkyTintedFog, FogStrategy, HillshadeSlice, LodCoveragePolicy,
    MeshStrategy, PaletteStrategy, ShadingStrategy, ShadowStrategy, SkyStrategy, SliceRenderStrategy,
    SunCurveStrategy, TonemapStrategy,
};
use crate::text::str_eq;
use vstd::prelude::*;

verus! {

/// The choice of `mesher` that `name` stands for.
pub open spec fn mesher_named(name: Seq<char>) -> Option<MeshStrategy> {
    if name == "GreedyFlat"@ {
        Some(MeshStrategy::GreedyFlat)
    } else {
        None
    }
}

/// The choice of `palette` that `name` stands for.
pub open spec fn palette_named(name: Seq<char>) -> Option<PaletteStrategy> {
    if name == "HardcodedPalette"@ {
        Some(PaletteStrategy::HardcodedPalette)
    } else {
        None
    }
}

/// The choice of `ao` that `name` stands for.
pub open spec fn ao_named(name: Seq<char>) -> Option<AoStrategy> {
    if name == "NoAo"@ {
        Some(AoStrategy::NoAo)
    } else {
        None
    }
}

/// The choice of `shading` that `name` stands for.
pub open spec fn shading_named(name: Seq<char>) -> Option<ShadingStrategy> {
    if name == "LegacyVertexColor"@ {
        Some(ShadingStrategy::LegacyVertexColor)
    } else if name == "PaletteVoxelMaterial"@ {
        Some(ShadingStrategy::PaletteVoxelMaterial)
    } else {
        None
    }
}

/// The choice of `sky` that `name` stands for.
pub open spec fn sky_named(name: Seq<char>) -> Option<SkyStrategy> {
    if name == "ConstantSky"@ {
        Some(SkyStrategy::ConstantSky)
    } else if name == "SkyTinted"@ {
        Some(SkyStrategy::SkyTinted)
    } else if name == "ProceduralDomeSky"@ {
        Some(SkyStrategy::ProceduralDomeSky)
    } else {
        None
    }
}

/// The choice of `sun_curve` that `name` stands for.
pub open spec fn sun_curve_named(name: Seq<char>) -> Option<SunCurveStrategy> {
    if name == "StaticSun"@ {
        Some(SunCurveStrategy::StaticSun)
    } else if name == "KeyframeLutSun"@ {
        Some(SunCurveStrategy::KeyframeLutSun)
    } else {
        None
    }
}

/// The choice of `shadow` that `name` stands for.
pub open spec fn shadow_named(name: Seq<char>) -> Option<ShadowStrategy> {
    if name == "NoShadows"@ {
        Some(ShadowStrategy::NoShadows)
    } else if name == "BasicCascades"@ {
        Some(ShadowStrategy::BasicCascades(cascades_default()))
    } else {
        None
    }
}

/// The choice of `fog` that `name` stands for.
pub open spec fn fog_named(name: Seq<char>) -> Option<FogStrategy> {
    if name == "NoFog"@ {
        Some(FogStrategy::NoFog)
    } else if name == "ExpSquaredSkyTintedFog"@ {
        Some(FogStrategy::ExpSquaredSkyTintedFog(fog_default()))
    } else {
        None
    }
}

/// The choice of `tonemap` that `name` stands for.
pub open spec fn tonemap_named(name: Seq<char>) -> Option<TonemapStrategy> {
    if name == "DefaultTonemap"@ {
        Some(TonemapStrategy::DefaultTonemap)
    } else if name == "AcesTonemap"@ {
        Some(TonemapStrategy::AcesTonemap)
    } else {
        None
    }
}

/// The choice of `coverage` that `name` stands for.
pub open spec fn coverage_named(name: Seq<char>) -> Option<LodCoveragePolicy> {
    if name == "MaskedShells"@ {
        Some(LodCoveragePolicy::MaskedShells)
    } else if name == "NestedSummary"@ {
        Some(LodCoveragePolicy::NestedSummary)
    } else {
        None
    }
}

/// The choice of `slice` that `name` stands for.
pub open spec fn slice_named(name: Seq<char>) -> Option<SliceRenderStrategy> {
    if name == "FlatSlice"@ {
        Some(SliceRenderStrategy::FlatSlice)
    } else if name == "HillshadeSlice"@ {
        Some(SliceRenderStrategy::HillshadeSlice(hillshade_default()))
    } else {
        None
    }
}

/// The configuration with the strategy of a slot and a name in place, if both
/// are known. The slots are the configuration's fields; every other field
/// stays.
pub open spec fn selected(cfg: RenderConfig, slot: Seq<char>, name: Seq<char>) -> Option<RenderConfig> {
    if slot == "mesher"@ {
        match mesher_named(name) {
            Some(s) => Some(RenderConfig { mesher: s, ..cfg }),
            None => None,
        }
    } else if slot == "palette"@ {
        match palette_named(name) {
            Some(s) => Some(RenderConfig { palette: s, ..cfg }),
            None => None,
        }
    } else if slot == "ao"@ {
        match ao_named(name) {
            Some(s) => Some(RenderConfig { ao: s, ..cfg }),
            None => None,
        }
    } else if slot == "shading"@ {
        match shading_named(name) {
            Some(s) => Some(RenderConfig { shading: s, ..cfg }),
            None => None,
        }
    } else if slot == "sky"@ {
        match sky_named(name) {
            Some(s) => Some(RenderConfig { sky: s, ..cfg }),
            None => None,
        }
    } else if slot == "sun_curve"@ {
        match sun_curve_named(name) {
            Some(s) => Some(RenderConfig { sun_curve: s, ..cfg }),
            None => None,
        }
    } else if slot == "shadow"@ {
        match shadow_named(name) {
            Some(s) => Some(RenderConfig { shadow: s, ..cfg }),
            None => None,
        }
    } else if slot == "fog"@ {
        match fog_named(name) {
            Some(s) => Some(RenderConfig { fog: s, ..cfg }),
            None => None,
        }
    } else if slot == "tonemap"@ {
        match tonemap_named(name) {
            Some(s) => Some(RenderConfig { tonemap: s, ..cfg }),
            None => None,
        }
    } else if slot == "coverage"@ {
        match coverage_named(name) {
            Some(s) => Some(RenderConfig { coverage: s, ..cfg }),
            None => None,
        }
    } else if slot == "slice"@ {
        match slice_named(name) {
            Some(s) => Some(RenderConfig { slice: s, ..cfg }),
            None => None,
        }
    } else {
        None
    }
}

fn find_mesher(name: &str) -> (r: Option<MeshStrategy>)
    ensures
        r == mesher_named(name@),
{
    if str_eq(name, "GreedyFlat") {
        Some(MeshStrategy::GreedyFlat)
    } else {
        None
    }
}

fn find_palette(name: &str) -> (r: Option<PaletteStrategy>)
    ensures
        r == palette_named(name@),
{
    if str_eq(name, "HardcodedPalette") {
        Some(PaletteStrategy::HardcodedPalette)
    } else {
        None
    }
}

fn find_ao(name: &str) -> (r: Option<AoStrategy>)
    ensures
        r == ao_named(name@),
{
    if str_eq(name, "NoAo") {
        Some(AoStrategy::NoAo)
    } else {
        None
    }
}

fn find_shading(name: &str) -> (r: Option<ShadingStrategy>)
    ensures
        r == shading_named(name@),
{
    if str_eq(name, "LegacyVertexColor") {
        Some(ShadingStrategy::LegacyVertexColor)
    } else if str_eq(name, "PaletteVoxelMaterial") {
        Some(ShadingStrategy::PaletteVoxelMaterial)
    } else {
        None
    }
}

fn find_sky(name: &str) -> (r: Option<SkyStrategy>)
    ensures
        r == sky_named(name@),
{
    if str_eq(name, "ConstantSky") {
        Some(SkyStrategy::ConstantSky)
    } else if str_eq(name, "SkyTinted") {
        Some(SkyStrategy::SkyTinted)
    } else if str_eq(name, "ProceduralDomeSky") {
        Some(SkyStrategy::ProceduralDomeSky)
    } else {
        None
    }
}

fn find_sun_curve(name: &str) -> (r: Option<SunCurveStrategy>)
    ensures
        r == sun_curve_named(name@),
{
    if str_eq(name, "StaticSun") {
        Some(SunCurveStrategy::StaticSun)
    } else if str_eq(name, "KeyframeLutSun") {
        Some(SunCurveStrategy::KeyframeLutSun)
    } else {
        None
    }
}

fn find_shadow(name: &str) -> (r: Option<ShadowStrategy>)
    ensures
        r == shadow_named(name@),
{
    if str_eq(name, "NoShadows") {
        Some(ShadowStrategy::NoShadows)
    } else if str_eq(name, "BasicCascades") {
        Some(ShadowStrategy::BasicCascades(BasicCascades::default()))
    } else {
        None
    }
}

fn find_fog(name: &str) -> (r: Option<FogStrategy>)
    ensures
        r == fog_named(name@),
{
    if str_eq(name, "NoFog") {
        Some(FogStrategy::NoFog)
    } else if str_eq(name, "ExpSquaredSkyTintedFog") {
        Some(FogStrategy::ExpSquaredSkyTintedFog(ExpSquaredSkyTintedFog::default()))
    } else {
        None
    }
}

fn find_tonemap(name: &str) -> (r: Option<TonemapStrategy>)
    ensures
        r == tonemap_named(name@),
{
    if str_eq(name, "DefaultTonemap") {
        Some(TonemapStrategy::DefaultTonemap)
    } else if str_eq(name, "AcesTonemap") {
        Some(TonemapStrategy::AcesTonemap)
    } else {
        None
    }
}

fn find_coverage(name: &str) -> (r: Option<LodCoveragePolicy>)
    ensures
        r == coverage_named(name@),
{
    if str_eq(name, "MaskedShells") {
        Some(LodCoveragePolicy::MaskedShells)
    } else if str_eq(name, "NestedSummary") {
        Some(LodCoveragePolicy::NestedSummary)
    } else {
        None
    }
}

fn find_slice(name: &str) -> (r: Option<SliceRenderStrategy>)
    ensures
        r == slice_named(name@),
{
    if str_eq(name, "FlatSlice") {
        Some(SliceRenderStrategy::FlatSlice)
    } else if str_eq(name, "HillshadeSlice") {
        Some(SliceRenderStrategy::HillshadeSlice(HillshadeSlice::default()))
    } else {
        None
    }
}

/// Puts the strategy that `slot` and `name` stand for in place. Where either is
/// unknown, `false` comes back and nothing changes.
pub fn apply_strategy_by_name(cfg: &mut RenderConfig, slot: &str, name: &str) -> (r: bool)
    ensures
        r == selected(*old(cfg), slot@, name@) is Some,
        *final(cfg) == (match selected(*old(cfg), slot@, name@) {
            Some(c) => c,
            None => *old(cfg),
        }),
{
    if str_eq(slot, "mesher") {
        match find_mesher(name) {
            Some(s) => {
                cfg.mesher = s;
                true
            },
            None => false,
        }
    } else if str_eq(slot, "palette") {
        match find_palette(name) {
            Some(s) => {
                cfg.palette = s;
                true
            },
            None => false,
        }
    } else if str_eq(slot, "ao") {
        match find_ao(name) {
            Some(s) => {
                cfg.ao = s;
                true
            },
            None => false,
        }
    } else if str_eq(slot, "shading") {
        match find_shading(name) {
            Some(s) => {
                cfg.shading = s;
                true
            },
            None => false,
        }
    } else if str_eq(slot, "sky") {
        match find_sky(name) {
            Some(s) => {
                cfg.sky = s;
                true
            },
            None => false,
        }
    } else if str_eq(slot, "sun_curve") {
        match find_sun_curve(name) {
            Some(s) => {
                cfg.sun_curve = s;
                true
            },
            None => false,
        }
    } else if str_eq(slot, "shadow") {
        match find_shadow(name) {
            Some(s) => {
                cfg.shadow = s;
                true
            },
            None => false,
        }
    } else if str_eq(slot, "fog") {
        match find_fog(name) {
            Some(s) => {
                cfg.fog = s;
                true
            },
            None => false,
        }
    } else if str_eq(slot, "tonemap") {
        match find_tonemap(name) {
            Some(s) => {
                cfg.tonemap = s;
                true
            },
            None => false,
        }
    } else if str_eq(slot, "coverage") {
        match find_coverage(name) {
            Some(s) => {
                cfg.coverage = s;
                true
            },
            None => false,
        }
    } else if str_eq(slot, "slice") {
        match find_slice(name) {
            Some(s) => {
                cfg.slice = s;
                true
            },
            None => false,
        }
    } else {
        false
    }
}

/// A name of the registry selects the strategy that bears it.
pub proof fn names_select_their_strategies(name: Seq<char>)
    ensures
        mesher_named(name) is Some ==> mesher_named(name)->0.spec_name() == name,
        palette_named(name) is Some ==> palette_named(name)->0.spec_name() == name,
        ao_named(name) is Some ==> ao_named(name)->0.spec_name() == name,
        shading_named(name) is Some ==> shading_named(name)->0.spec_name() == name,
        sky_named(name) is Some ==> sky_named(name)->0.spec_name() == name,
        sun_curve_named(name) is Some ==> sun_curve_named(name)->0.spec_name() == name,
        shadow_named(name) is Some ==> shadow_named(name)->0.spec_name() == name,
        fog_named(name) is Some ==> fog_named(name)->0.spec_name() == name,
        tonemap_named(name) is Some ==> tonemap_named(name)->0.spec_name() == name,
        coverage_named(name) is Some ==> coverage_named(name)->0.spec_name() == name,
        slice_named(name) is Some ==> slice_named(name)->0.spec_name() == name,
{
}

/// A selection changes its own slot alone.
pub proof fn a_selection_changes_its_slot_alone(cfg: RenderConfig, slot: Seq<char>, name: Seq<char>)
    requires
        selected(cfg, slot, name) is Some,
    ensures
        slot != "mesher"@ ==> selected(cfg, slot, name)->0.mesher == cfg.mesher,
        slot != "palette"@ ==> selected(cfg, slot, name)->0.palette == cfg.palette,
        slot != "ao"@ ==> selected(cfg, slot, name)->0.ao == cfg.ao,
        slot != "shading"@ ==> selected(cfg, slot, name)->0.shading == cfg.shading,
        slot != "sky"@ ==> selected(cfg, slot, name)->0.sky == cfg.sky,
        slot != "sun_curve"@ ==> selected(cfg, slot, name)->0.sun_curve == cfg.sun_curve,
        slot != "shadow"@ ==> selected(cfg, slot, name)->0.shadow == cfg.shadow,
        slot != "fog"@ ==> selected(cfg, slot, name)->0.fog == cfg.fog,
        slot != "tonemap"@ ==> selected(cfg, slot, name)->0.tonemap == cfg.tonemap,
        slot != "coverage"@ ==> selected(cfg, slot, name)->0.coverage == cfg.coverage,
        slot != "slice"@ ==> selected(cfg, slot, name)->0.slice == cfg.slice,
        selected(cfg, slot, name)->0.horizon_imposter == cfg.horizon_imposter,
        selected(cfg, slot, name)->0.lod_ladder == cfg.lod_ladder,
        selected(cfg, slot, name)->0.spawn_budget == cfg.spawn_budget,
        selected(cfg, slot, name)->0.visibility_cadence == cfg.visibility_cadence,
        selected(cfg, slot, name)->0.rebuild_threshold == cfg.rebuild_threshold,
        selected(cfg, slot, name)->0.time_advances_automatically == cfg.time_advances_automatically,
        selected(cfg, slot, name)->0.seconds_per_hour == cfg.seconds_per_hour,
{
}

/// Every listed name can be selected in its slot, and puts the strategy that
/// bears it in place.
pub proof fn every_listed_name_can_be_selected(cfg: RenderConfig)
    ensures
        selected(cfg, "mesher"@, "GreedyFlat"@) is Some && selected(cfg, "mesher"@, "GreedyFlat"@)->0.mesher.spec_name() == "GreedyFlat"@,
        selected(cfg, "palette"@, "HardcodedPalette"@) is Some && selected(cfg, "palette"@, "HardcodedPalette"@)->0.palette.spec_name() == "HardcodedPalette"@,
        selected(cfg, "ao"@, "NoAo"@) is Some && selected(cfg, "ao"@, "NoAo"@)->0.ao.spec_name() == "NoAo"@,
        selected(cfg, "shading"@, "LegacyVertexColor"@) is Some && selected(cfg, "shading"@, "LegacyVertexColor"@)->0.shading.spec_name() == "LegacyVertexColor"@,
        selected(cfg, "shading"@, "PaletteVoxelMaterial"@) is Some && selected(cfg, "shading"@, "PaletteVoxelMaterial"@)->0.shading.spec_name() == "PaletteVoxelMaterial"@,
        selected(cfg, "sky"@, "ConstantSky"@) is Some && selected(cfg, "sky"@, "ConstantSky"@)->0.sky.spec_name() == "ConstantSky"@,
        selected(cfg, "sky"@, "SkyTinted"@) is Some && selected(cfg, "sky"@, "SkyTinted"@)->0.sky.spec_name() == "SkyTinted"@,
        selected(cfg, "sky"@, "ProceduralDomeSky"@) is Some && selected(cfg, "sky"@, "ProceduralDomeSky"@)->0.sky.spec_name() == "ProceduralDomeSky"@,
        selected(cfg, "sun_curve"@, "StaticSun"@) is Some && selected(cfg, "sun_curve"@, "StaticSun"@)->0.sun_curve.spec_name() == "StaticSun"@,
        selected(cfg, "sun_curve"@, "KeyframeLutSun"@) is Some && selected(cfg, "sun_curve"@, "KeyframeLutSun"@)->0.sun_curve.spec_name() == "KeyframeLutSun"@,
        selected(cfg, "shadow"@, "NoShadows"@) is Some && selected(cfg, "shadow"@, "NoShadows"@)->0.shadow.spec_name() == "NoShadows"@,
        selected(cfg, "shadow"@, "BasicCascades"@) is Some && selected(cfg, "shadow"@, "BasicCascades"@)->0.shadow.spec_name() == "BasicCascades"@,
        selected(cfg, "fog"@, "NoFog"@) is Some && selected(cfg, "fog"@, "NoFog"@)->0.fog.spec_name() == "NoFog"@,
        selected(cfg, "fog"@, "ExpSquaredSkyTintedFog"@) is Some && selected(cfg, "fog"@, "ExpSquaredSkyTintedFog"@)->0.fog.spec_name() == "ExpSquaredSkyTintedFog"@,
        selected(cfg, "tonemap"@, "DefaultTonemap"@) is Some && selected(cfg, "tonemap"@, "DefaultTonemap"@)->0.tonemap.spec_name() == "DefaultTonemap"@,
        selected(cfg, "tonemap"@, "AcesTonemap"@) is Some && selected(cfg, "tonemap"@, "AcesTonemap"@)->0.tonemap.spec_name() == "AcesTonemap"@,
        selected(cfg, "coverage"@, "MaskedShells"@) is Some && selected(cfg, "coverage"@, "MaskedShells"@)->0.coverage.spec_name() == "MaskedShells"@,
        selected(cfg, "coverage"@, "NestedSummary"@) is Some && selected(cfg, "coverage"@, "NestedSummary"@)->0.coverage.spec_name() == "NestedSummary"@,
        selected(cfg, "slice"@, "FlatSlice"@) is Some && selected(cfg, "slice"@, "FlatSlice"@)->0.slice.spec_name() == "FlatSlice"@,
        selected(cfg, "slice"@, "HillshadeSlice"@) is Some && selected(cfg, "slice"@, "HillshadeSlice"@)->0.slice.spec_name() == "HillshadeSlice"@,
{
    reveal_strlit("mesher");
    assert("mesher"@.len() == 6);
    reveal_strlit("palette");
    assert("palette"@.len() == 7);
    reveal_strlit("ao");
    assert("ao"@.len() == 2);
    reveal_strlit("shading");
    assert("shading"@.len() == 7);
    reveal_strlit("sky");
    assert("sky"@.len() == 3);
    reveal_strlit("sun_curve");
    assert("sun_curve"@.len() == 9);
    reveal_strlit("shadow");
    assert("shadow"@.len() == 6);
    reveal_strlit("fog");
    assert("fog"@.len() == 3);
    reveal_strlit("tonemap");
    assert("tonemap"@.len() == 7);
    reveal_strlit("coverage");
    assert("coverage"@.len() == 8);
    reveal_strlit("slice");
    assert("slice"@.len() == 5);
    reveal_strlit("GreedyFlat");
    assert("GreedyFlat"@.len() == 10);
    reveal_strlit("HardcodedPalette");
    assert("HardcodedPalette"@.len() == 16);
    reveal_strlit("NoAo");
    assert("NoAo"@.len() == 4);
    reveal_strlit("LegacyVertexColor");
    assert("LegacyVertexColor"@.len() == 17);
    reveal_strlit("PaletteVoxelMaterial");
    assert("PaletteVoxelMaterial"@.len() == 20);
    reveal_strlit("ConstantSky");
    assert("ConstantSky"@.len() == 11);
    reveal_strlit("SkyTinted");
    assert("SkyTinted"@.len() == 9);
    reveal_strlit("ProceduralDomeSky");
    assert("ProceduralDomeSky"@.len() == 17);
    reveal_strlit("StaticSun");
    assert("StaticSun"@.len() == 9);
    reveal_strlit("KeyframeLutSun");
    assert("KeyframeLutSun"@.len() == 14);
    reveal_strlit("NoShadows");
    assert("NoShadows"@.len() == 9);
    reveal_strlit("BasicCascades");
    assert("BasicCascades"@.len() == 13);
    reveal_strlit("NoFog");
    assert("NoFog"@.len() == 5);
    reveal_strlit("ExpSquaredSkyTintedFog");
    assert("ExpSquaredSkyTintedFog"@.len() == 22);
    reveal_strlit("DefaultTonemap");
    assert("DefaultTonemap"@.len() == 14);
    reveal_strlit("AcesTonemap");
    assert("AcesTonemap"@.len() == 11);
    reveal_strlit("MaskedShells");
    assert("MaskedShells"@.len() == 12);
    reveal_strlit("NestedSummary");
    assert("NestedSummary"@.len() == 13);
    reveal_strlit("FlatSlice");
    assert("FlatSlice"@.len() == 9);
    reveal_strlit("HillshadeSlice");
    assert("HillshadeSlice"@.len() == 14);
    assert("mesher"@[0] != "shadow"@[0]);
    assert("palette"@[0] != "shading"@[0]);
    assert("palette"@[0] != "tonemap"@[0]);
    assert("shading"@[0] != "tonemap"@[0]);
    assert("sky"@[0] != "fog"@[0]);
}

/// No other name can be selected.
pub proof fn no_other_name_can_be_selected(cfg: RenderConfig, slot: Seq<char>, name: Seq<char>)
    requires
        selected(cfg, slot, name) is Some,
    ensures
        (slot == "mesher"@ && (name == "GreedyFlat"@))
            || (slot == "palette"@ && (name == "HardcodedPalette"@))
            || (slot == "ao"@ && (name == "NoAo"@))
            || (slot == "shading"@ && (name == "LegacyVertexColor"@ || name == "PaletteVoxelMaterial"@))
            || (slot == "sky"@ && (name == "ConstantSky"@ || name == "SkyTinted"@ || name == "ProceduralDomeSky"@))
            || (slot == "sun_curve"@ && (name == "StaticSun"@ || name == "KeyframeLutSun"@))
            || (slot == "shadow"@ && (name == "NoShadows"@ || name == "BasicCascades"@))
            || (slot == "fog"@ && (name == "NoFog"@ || name == "ExpSquaredSkyTintedFog"@))
            || (slot == "tonemap"@ && (name == "DefaultTonemap"@ || name == "AcesTonemap"@))
            || (slot == "coverage"@ && (name == "MaskedShells"@ || name == "NestedSummary"@))
            || (slot == "slice"@ && (name == "FlatSlice"@ || name == "HillshadeSlice"@)),
{
}

} // verus!
