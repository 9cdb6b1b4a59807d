//! The five views of the world and the keys that switch between them.

use crate::input::{ButtonInput, KeyCode};
use vstd::prelude::*;

verus! {

#[derive(Copy, Clone, Debug, Eq, PartialEq, Structural)]
pub enum ViewMode {
    /// First-person walk.
    Fp,
    /// Third-person chase.
    Tp,
    /// Orthographic slice.
    Slice,
    /// Oblique surface raster.
    Rts,
    /// Overview of the whole world.
    Overview,
}

impl ViewMode {
    pub open spec fn spec_label(self) -> Seq<char> {
        match self {
            ViewMode::Fp => "fp"@,
            ViewMode::Tp => "tp"@,
            ViewMode::Slice => "slice"@,
            ViewMode::Rts => "rts"@,
            ViewMode::Overview => "overview"@,
        }
    }

    pub fn label(self) -> (r: &'static str)
        ensures
            r@ == self.spec_label(),
            self is Fp ==> r@ == "fp"@,
            self is Tp ==> r@ == "tp"@,
            self is Slice ==> r@ == "slice"@,
            self is Rts ==> r@ == "rts"@,
            self is Overview ==> r@ == "overview"@,
    {
        match self {
            ViewMode::Fp => "fp",
            ViewMode::Tp => "tp",
            ViewMode::Slice => "slice",
            ViewMode::Rts => "rts",
            ViewMode::Overview => "overview",
        }
    }

    /// The view that `Tab` leads to.
    pub open spec fn next(self) -> ViewMode {
        match self {
            ViewMode::Fp => ViewMode::Tp,
            ViewMode::Tp => ViewMode::Slice,
            ViewMode::Slice => ViewMode::Rts,
            ViewMode::Rts => ViewMode::Overview,
            ViewMode::Overview => ViewMode::Fp,
        }
    }
}

/// The view after one frame of input. Digits 1 to 5 jump, the lowest first;
/// `Tab` steps forward. While a first-person view is editing, the keys belong
/// to the editor and the view stays.
pub open spec fn view_after(mode: ViewMode, keys: ButtonInput, editing: bool) -> ViewMode {
    if mode == ViewMode::Fp && editing {
        mode
    } else if keys.is_fresh(KeyCode::Digit1) {
        ViewMode::Fp
    } else if keys.is_fresh(KeyCode::Digit2) {
        ViewMode::Tp
    } else if keys.is_fresh(KeyCode::Digit3) {
        ViewMode::Slice
    } else if keys.is_fresh(KeyCode::Digit4) {
        ViewMode::Rts
    } else if keys.is_fresh(KeyCode::Digit5) {
        ViewMode::Overview
    } else if keys.is_fresh(KeyCode::Tab) {
        mode.next()
    } else {
        mode
    }
}

/// Switches the view from this frame's keys. Editing means that the cursor is
/// grabbed or that a script edits; `true` comes back where the view changed.
pub fn view_mode_input_system(
    keys: &ButtonInput,
    cursor_grabbed: bool,
    scripted_edit: bool,
    mode: &mut ViewMode,
) -> (r: bool)
    ensures
        *final(mode) == view_after(*old(mode), *keys, cursor_grabbed || scripted_edit),
        r == (*final(mode) != *old(mode)),
{
    let editing: bool = cursor_grabbed || scripted_edit;
    if *mode == ViewMode::Fp && editing {
        return false;
    }
    let new: ViewMode = if keys.just_pressed(KeyCode::Digit1) {
        ViewMode::Fp
    } else if keys.just_pressed(KeyCode::Digit2) {
        ViewMode::Tp
    } else if keys.just_pressed(KeyCode::Digit3) {
        ViewMode::Slice
    } else if keys.just_pressed(KeyCode::Digit4) {
        ViewMode::Rts
    } else if keys.just_pressed(KeyCode::Digit5) {
        ViewMode::Overview
    } else if keys.just_pressed(KeyCode::Tab) {
        match *mode {
            ViewMode::Fp => ViewMode::Tp,
            ViewMode::Tp => ViewMode::Slice,
            ViewMode::Slice => ViewMode::Rts,
            ViewMode::Rts => ViewMode::Overview,
            ViewMode::Overview => ViewMode::Fp,
        }
    } else {
        *mode
    };
    let changed: bool = new != *mode;
    *mode = new;
    changed
}

/// Five presses of `Tab` lead back to the same view, and no fewer do.
pub proof fn tab_cycles_through_all_views(mode: ViewMode)
    ensures
        mode.next().next().next().next().next() == mode,
        mode.next() != mode,
        mode.next().next() != mode,
        mode.next().next().next() != mode,
        mode.next().next().next().next() != mode,
{
}

/// While a first-person view is edited the view stays. Otherwise a digit leads
/// to its view, the lowest of several; without one, `Tab` leads from the
/// first-person view to the third-person view, the slice, the strategy view, the
/// overview and back; and without any of these keys the view stays.
pub proof fn keys_lead_to_their_views(mode: ViewMode, keys: ButtonInput, editing: bool)
    ensures
        mode is Fp && editing ==> view_after(mode, keys, editing) == mode,
        !(mode is Fp && editing) ==> {
            let after = view_after(mode, keys, editing);
            let one = keys.fresh@.contains(KeyCode::Digit1);
            let two = keys.fresh@.contains(KeyCode::Digit2);
            let three = keys.fresh@.contains(KeyCode::Digit3);
            let four = keys.fresh@.contains(KeyCode::Digit4);
            let five = keys.fresh@.contains(KeyCode::Digit5);
            let tab = keys.fresh@.contains(KeyCode::Tab);
            let digit = one || two || three || four || five;
            &&& one ==> after is Fp
            &&& two && !one ==> after is Tp
            &&& three && !one && !two ==> after is Slice
            &&& four && !one && !two && !three ==> after is Rts
            &&& five && !one && !two && !three && !four ==> after is Overview
            &&& tab && !digit ==> (mode is Fp ==> after is Tp) && (mode is Tp ==> after is Slice) && (mode is Slice
                ==> after is Rts) && (mode is Rts ==> after is Overview) && (mode is Overview ==> after is Fp)
            &&& !tab && !digit ==> after == mode
        },
{
}

} // verus!
