//! The overview: the whole world from its summary.

use crate::input::{ButtonInput, KeyCode};
use crate::view_mode::ViewMode;
use vstd::prelude::*;

verus! {

#[derive(Clone, Copy, Debug, PartialEq, Eq, Structural)]
pub enum OverviewProjection {
    OrthographicFlat,
    Equirectangular,
    OrthographicSphere,
}

impl OverviewProjection {
    /// The projection that `P` leads to.
    pub open spec fn next(self) -> OverviewProjection {
        match self {
            OverviewProjection::OrthographicFlat => OverviewProjection::Equirectangular,
            OverviewProjection::Equirectangular => OverviewProjection::OrthographicSphere,
            OverviewProjection::OrthographicSphere => OverviewProjection::OrthographicFlat,
        }
    }
}

/// Three presses of `P` lead back to the same projection, and no fewer do.
pub proof fn projections_cycle(p: OverviewProjection)
    ensures
        p.next().next().next() == p,
        p.next() != p,
        p.next().next() != p,
{
}

/// How the overview's camera changes in a frame.
#[derive(Clone, Copy, Debug, PartialEq, Eq, Structural)]
pub struct OverviewControls {
    pub zoom_in: bool,
    pub zoom_out: bool,
    pub left: bool,
    pub right: bool,
    pub up: bool,
    pub down: bool,
    /// The mouse drags the globe; otherwise its motion is discarded.
    pub drag: bool,
}

/// One frame of input in the overview: `P` changes the projection, the held
/// keys and the mouse button move the camera. Outside the overview nothing
/// changes and no controls come back.
pub fn overview_input(
    projection: &mut OverviewProjection,
    mode: ViewMode,
    keys: &ButtonInput,
    left_button: bool,
) -> (r: Option<OverviewControls>)
    ensures
        *final(projection) == (if mode is Overview && keys.is_fresh(KeyCode::KeyP) {
            old(projection).next()
        } else {
            *old(projection)
        }),
        *final(projection) != *old(projection) ==> mode is Overview && keys.is_fresh(KeyCode::KeyP),
        mode is Overview && keys.is_fresh(KeyCode::KeyP) ==> (*old(projection) is OrthographicFlat
            ==> *final(projection) is Equirectangular) && (*old(projection) is Equirectangular
            ==> *final(projection) is OrthographicSphere) && (*old(projection) is OrthographicSphere
            ==> *final(projection) is OrthographicFlat),
        r == (if mode is Overview {
            Some(
                OverviewControls {
                    zoom_in: keys.is_down(KeyCode::KeyQ) || keys.is_down(KeyCode::Equal),
                    zoom_out: keys.is_down(KeyCode::KeyE) || keys.is_down(KeyCode::Minus),
                    left: keys.is_down(KeyCode::KeyA) || keys.is_down(KeyCode::ArrowLeft),
                    right: keys.is_down(KeyCode::KeyD) || keys.is_down(KeyCode::ArrowRight),
                    up: keys.is_down(KeyCode::KeyW) || keys.is_down(KeyCode::ArrowUp),
                    down: keys.is_down(KeyCode::KeyS) || keys.is_down(KeyCode::ArrowDown),
                    drag: left_button,
                },
            )
        } else {
            None
        }),
{
    if mode != ViewMode::Overview {
        return None;
    }
    if keys.just_pressed(KeyCode::KeyP) {
        *projection = match *projection {
            OverviewProjection::OrthographicFlat => OverviewProjection::Equirectangular,
            OverviewProjection::Equirectangular => OverviewProjection::OrthographicSphere,
            OverviewProjection::OrthographicSphere => OverviewProjection::OrthographicFlat,
        };
    }
    Some(
        OverviewControls {
            zoom_in: keys.pressed(KeyCode::KeyQ) || keys.pressed(KeyCode::Equal),
            zoom_out: keys.pressed(KeyCode::KeyE) || keys.pressed(KeyCode::Minus),
            left: keys.pressed(KeyCode::KeyA) || keys.pressed(KeyCode::ArrowLeft),
            right: keys.pressed(KeyCode::KeyD) || keys.pressed(KeyCode::ArrowRight),
            up: keys.pressed(KeyCode::KeyW) || keys.pressed(KeyCode::ArrowUp),
            down: keys.pressed(KeyCode::KeyS) || keys.pressed(KeyCode::ArrowDown),
            drag: left_button,
        },
    )
}

/// The seed that the cached world summary was baked for.
#[derive(Debug)]
pub struct OverviewCache {
    pub seed: Option<u64>,
}

impl Default for OverviewCache {
    fn default() -> (r: Self)
        ensures
            r.seed is None,
    {
        OverviewCache { seed: None }
    }
}

/// What the overview does in a frame.
#[derive(Clone, Copy, Debug, PartialEq, Eq, Structural)]
pub enum OverviewStep {
    /// Another view is active.
    Idle,
    /// Bake the summary of the active world, then draw it.
    BakeAndDraw,
    /// Draw the cached summary.
    Draw,
}

impl OverviewCache {
    /// One frame of drawing the world of `seed`: its summary is baked when the
    /// overview is first entered, and again only for another world.
    pub fn overview_render(&mut self, mode: ViewMode, seed: u64) -> (r: OverviewStep)
        ensures
            !(mode is Overview) ==> r is Idle && final(self).seed == old(self).seed,
            mode is Overview ==> final(self).seed == Some(seed) && r == (if old(self).seed == Some(seed) {
                OverviewStep::Draw
            } else {
                OverviewStep::BakeAndDraw
            }),
    {
        if mode != ViewMode::Overview {
            return OverviewStep::Idle;
        }
        let baked: bool = match self.seed {
            Some(s) => s == seed,
            None => false,
        };
        self.seed = Some(seed);
        if baked {
            OverviewStep::Draw
        } else {
            OverviewStep::BakeAndDraw
        }
    }
}

} // verus!
