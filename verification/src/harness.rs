//! Scripted runs: a scenario lists input events and screenshots by frame.
//!
//! A scenario's frames count from the end of a warm-up. Loading it checks every
//! event, splits key taps into a press and a release, moves all frames past the
//! warm-up and sorts the events by frame.

use crate::input::KeyCode;
use crate::measure::Real32;
use crate::order::{
    goes_before, is_selection, is_stable_order, lemma_select_next, lemma_select_none,
    lemma_select_same, stable_order, stable_order_is_a_permutation,
};
use crate::text::{append_decimal, append_decimal_padded, decimal, decimal_padded, str_eq};
use crate::view_mode::ViewMode;
use vstd::prelude::*;
use vstd::string::*;

verus! {

/// Frames that a run goes on after its last event before it is cut off.
pub const DEADLINE_FRAMES: u64 = 600;

/// Frames that a run goes on after its last event once an exit was asked for.
pub const EXIT_GRACE_FRAMES: u64 = 5;

#[derive(Debug)]
pub struct ScenarioEvent {
    pub frame: u64,
    /// One of `key_press`, `key_release`, `key_tap`, `screenshot`,
    /// `mouse_move`, `exit`.
    pub kind: String,
    pub key: Option<String>,
    pub dx: Option<Real32>,
    pub dy: Option<Real32>,
    pub note: Option<String>,
}

/// The contents of a [`ScenarioEvent`].
pub ghost struct EventView {
    pub frame: u64,
    pub kind: Seq<char>,
    pub key: Option<Seq<char>>,
    pub dx: Option<Real32>,
    pub dy: Option<Real32>,
    pub note: Option<Seq<char>>,
}

pub open spec fn text_view(s: Option<String>) -> Option<Seq<char>> {
    match s {
        Some(t) => Some(t@),
        None => None,
    }
}

impl View for ScenarioEvent {
    type V = EventView;

    open spec fn view(&self) -> EventView {
        EventView {
            frame: self.frame,
            kind: self.kind@,
            key: text_view(self.key),
            dx: self.dx,
            dy: self.dy,
            note: text_view(self.note),
        }
    }
}

/// The contents of a list of events.
pub open spec fn events_view(events: Seq<ScenarioEvent>) -> Seq<EventView> {
    Seq::new(events.len(), |i: int| events[i]@)
}

#[derive(Debug)]
pub struct Scenario {
    pub seed: String,
    pub mode: String,
    pub width: u32,
    pub height: u32,
    pub warmup_frames: u64,
    pub output_prefix: String,
    pub events: Vec<ScenarioEvent>,
}

impl Default for Scenario {
    /// What a scenario holds where its file says nothing.
    fn default() -> (r: Self)
        ensures
            r.seed@ == "0xDEADBEEFCAFEF00D"@,
            r.mode@ == "fp"@,
            r.width == 1280,
            r.height == 720,
            r.warmup_frames == 60,
            r.output_prefix@ == "shot"@,
            r.events@.len() == 0,
    {
        Scenario {
            seed: String::from_str("0xDEADBEEFCAFEF00D"),
            mode: String::from_str("fp"),
            width: 1280,
            height: 720,
            warmup_frames: 60,
            output_prefix: String::from_str("shot"),
            events: Vec::new(),
        }
    }
}

/// The key of a name; the names are those that a scenario may use.
pub open spec fn key_named(s: Seq<char>) -> Option<KeyCode> {
    if s == "Digit1"@ {
        Some(KeyCode::Digit1)
    } else if s == "Digit2"@ {
        Some(KeyCode::Digit2)
    } else if s == "Digit3"@ {
        Some(KeyCode::Digit3)
    } else if s == "Digit4"@ {
        Some(KeyCode::Digit4)
    } else if s == "Digit5"@ {
        Some(KeyCode::Digit5)
    } else if s == "Tab"@ {
        Some(KeyCode::Tab)
    } else if s == "KeyW"@ {
        Some(KeyCode::KeyW)
    } else if s == "KeyA"@ {
        Some(KeyCode::KeyA)
    } else if s == "KeyS"@ {
        Some(KeyCode::KeyS)
    } else if s == "KeyD"@ {
        Some(KeyCode::KeyD)
    } else if s == "Space"@ {
        Some(KeyCode::Space)
    } else if s == "ShiftLeft"@ {
        Some(KeyCode::ShiftLeft)
    } else if s == "ShiftRight"@ {
        Some(KeyCode::ShiftRight)
    } else if s == "ControlLeft"@ {
        Some(KeyCode::ControlLeft)
    } else if s == "ControlRight"@ {
        Some(KeyCode::ControlRight)
    } else if s == "KeyC"@ {
        Some(KeyCode::KeyC)
    } else if s == "ArrowUp"@ {
        Some(KeyCode::ArrowUp)
    } else if s == "ArrowDown"@ {
        Some(KeyCode::ArrowDown)
    } else if s == "ArrowLeft"@ {
        Some(KeyCode::ArrowLeft)
    } else if s == "ArrowRight"@ {
        Some(KeyCode::ArrowRight)
    } else if s == "Escape"@ {
        Some(KeyCode::Escape)
    } else if s == "PageUp"@ {
        Some(KeyCode::PageUp)
    } else if s == "PageDown"@ {
        Some(KeyCode::PageDown)
    } else if s == "Equal"@ {
        Some(KeyCode::Equal)
    } else if s == "Minus"@ {
        Some(KeyCode::Minus)
    } else if s == "KeyQ"@ {
        Some(KeyCode::KeyQ)
    } else if s == "KeyE"@ {
        Some(KeyCode::KeyE)
    } else if s == "KeyP"@ {
        Some(KeyCode::KeyP)
    } else {
        None
    }
}

/// The key that a scenario calls `s`.
pub fn key_from_name(s: &str) -> (r: Option<KeyCode>)
    ensures
        r == key_named(s@),
        r == Some(KeyCode::Digit1) ==> s@ == "Digit1"@,
        s@ == "Digit1"@ ==> r is Some,
        r == Some(KeyCode::Digit2) ==> s@ == "Digit2"@,
        s@ == "Digit2"@ ==> r is Some,
        r == Some(KeyCode::Digit3) ==> s@ == "Digit3"@,
        s@ == "Digit3"@ ==> r is Some,
        r == Some(KeyCode::Digit4) ==> s@ == "Digit4"@,
        s@ == "Digit4"@ ==> r is Some,
        r == Some(KeyCode::Digit5) ==> s@ == "Digit5"@,
        s@ == "Digit5"@ ==> r is Some,
        r == Some(KeyCode::Tab) ==> s@ == "Tab"@,
        s@ == "Tab"@ ==> r is Some,
        r == Some(KeyCode::KeyW) ==> s@ == "KeyW"@,
        s@ == "KeyW"@ ==> r is Some,
        r == Some(KeyCode::KeyA) ==> s@ == "KeyA"@,
        s@ == "KeyA"@ ==> r is Some,
        r == Some(KeyCode::KeyS) ==> s@ == "KeyS"@,
        s@ == "KeyS"@ ==> r is Some,
        r == Some(KeyCode::KeyD) ==> s@ == "KeyD"@,
        s@ == "KeyD"@ ==> r is Some,
        r == Some(KeyCode::Space) ==> s@ == "Space"@,
        s@ == "Space"@ ==> r is Some,
        r == Some(KeyCode::ShiftLeft) ==> s@ == "ShiftLeft"@,
        s@ == "ShiftLeft"@ ==> r is Some,
        r == Some(KeyCode::ShiftRight) ==> s@ == "ShiftRight"@,
        s@ == "ShiftRight"@ ==> r is Some,
        r == Some(KeyCode::ControlLeft) ==> s@ == "ControlLeft"@,
        s@ == "ControlLeft"@ ==> r is Some,
        r == Some(KeyCode::ControlRight) ==> s@ == "ControlRight"@,
        s@ == "ControlRight"@ ==> r is Some,
        r == Some(KeyCode::KeyC) ==> s@ == "KeyC"@,
        s@ == "KeyC"@ ==> r is Some,
        r == Some(KeyCode::ArrowUp) ==> s@ == "ArrowUp"@,
        s@ == "ArrowUp"@ ==> r is Some,
        r == Some(KeyCode::ArrowDown) ==> s@ == "ArrowDown"@,
        s@ == "ArrowDown"@ ==> r is Some,
        r == Some(KeyCode::ArrowLeft) ==> s@ == "ArrowLeft"@,
        s@ == "ArrowLeft"@ ==> r is Some,
        r == Some(KeyCode::ArrowRight) ==> s@ == "ArrowRight"@,
        s@ == "ArrowRight"@ ==> r is Some,
        r == Some(KeyCode::Escape) ==> s@ == "Escape"@,
        s@ == "Escape"@ ==> r is Some,
        r == Some(KeyCode::PageUp) ==> s@ == "PageUp"@,
        s@ == "PageUp"@ ==> r is Some,
        r == Some(KeyCode::PageDown) ==> s@ == "PageDown"@,
        s@ == "PageDown"@ ==> r is Some,
        r == Some(KeyCode::Equal) ==> s@ == "Equal"@,
        s@ == "Equal"@ ==> r is Some,
        r == Some(KeyCode::Minus) ==> s@ == "Minus"@,
        s@ == "Minus"@ ==> r is Some,
        r == Some(KeyCode::KeyQ) ==> s@ == "KeyQ"@,
        s@ == "KeyQ"@ ==> r is Some,
        r == Some(KeyCode::KeyE) ==> s@ == "KeyE"@,
        s@ == "KeyE"@ ==> r is Some,
        r == Some(KeyCode::KeyP) ==> s@ == "KeyP"@,
        s@ == "KeyP"@ ==> r is Some,
        r is Some ==> !(r->0 is Digit6 || r->0 is Digit7 || r->0 is Digit8 || r->0 is Digit9 || r->0 is KeyZ || r->0
            is KeyX || r->0 is BracketLeft || r->0 is BracketRight || r->0 is F3),
{
    if str_eq(s, "Digit1") {
        Some(KeyCode::Digit1)
    } else if str_eq(s, "Digit2") {
        Some(KeyCode::Digit2)
    } else if str_eq(s, "Digit3") {
        Some(KeyCode::Digit3)
    } else if str_eq(s, "Digit4") {
        Some(KeyCode::Digit4)
    } else if str_eq(s, "Digit5") {
        Some(KeyCode::Digit5)
    } else if str_eq(s, "Tab") {
        Some(KeyCode::Tab)
    } else if str_eq(s, "KeyW") {
        Some(KeyCode::KeyW)
    } else if str_eq(s, "KeyA") {
        Some(KeyCode::KeyA)
    } else if str_eq(s, "KeyS") {
        Some(KeyCode::KeyS)
    } else if str_eq(s, "KeyD") {
        Some(KeyCode::KeyD)
    } else if str_eq(s, "Space") {
        Some(KeyCode::Space)
    } else if str_eq(s, "ShiftLeft") {
        Some(KeyCode::ShiftLeft)
    } else if str_eq(s, "ShiftRight") {
        Some(KeyCode::ShiftRight)
    } else if str_eq(s, "ControlLeft") {
        Some(KeyCode::ControlLeft)
    } else if str_eq(s, "ControlRight") {
        Some(KeyCode::ControlRight)
    } else if str_eq(s, "KeyC") {
        Some(KeyCode::KeyC)
    } else if str_eq(s, "ArrowUp") {
        Some(KeyCode::ArrowUp)
    } else if str_eq(s, "ArrowDown") {
        Some(KeyCode::ArrowDown)
    } else if str_eq(s, "ArrowLeft") {
        Some(KeyCode::ArrowLeft)
    } else if str_eq(s, "ArrowRight") {
        Some(KeyCode::ArrowRight)
    } else if str_eq(s, "Escape") {
        Some(KeyCode::Escape)
    } else if str_eq(s, "PageUp") {
        Some(KeyCode::PageUp)
    } else if str_eq(s, "PageDown") {
        Some(KeyCode::PageDown)
    } else if str_eq(s, "Equal") {
        Some(KeyCode::Equal)
    } else if str_eq(s, "Minus") {
        Some(KeyCode::Minus)
    } else if str_eq(s, "KeyQ") {
        Some(KeyCode::KeyQ)
    } else if str_eq(s, "KeyE") {
        Some(KeyCode::KeyE)
    } else if str_eq(s, "KeyP") {
        Some(KeyCode::KeyP)
    } else {
        None
    }
}

/// An event that presses or releases a key, or both.
pub open spec fn is_key_kind(kind: Seq<char>) -> bool {
    kind == "key_press"@ || kind == "key_release"@ || kind == "key_tap"@
}

/// What is wrong with event number `idx`, in words, if anything is.
pub open spec fn event_fault(idx: int, ev: EventView) -> Option<Seq<char>> {
    if is_key_kind(ev.kind) {
        match ev.key {
            None => Some("event #"@ + decimal(idx as nat) + " ("@ + ev.kind + "): missing `key`"@),
            Some(key) => if key_named(key) is None {
                Some(
                    "event #"@ + decimal(idx as nat) + " ("@ + ev.kind + "): unknown key `"@ + key + "`"@,
                )
            } else {
                None
            },
        }
    } else if ev.kind == "mouse_move"@ {
        if ev.dx is None && ev.dy is None {
            Some(
                "event #"@ + decimal(idx as nat) + " (mouse_move): at least one of `dx`/`dy` required"@,
            )
        } else {
            None
        }
    } else if ev.kind == "screenshot"@ || ev.kind == "exit"@ {
        None
    } else {
        Some("event #"@ + decimal(idx as nat) + ": unknown kind `"@ + ev.kind + "`"@)
    }
}

/// A frame number plus some frames; it stays at the last number there is.
pub open spec fn later(frame: u64, by: u64) -> u64 {
    if frame + by > u64::MAX {
        u64::MAX
    } else {
        (frame + by) as u64
    }
}

/// The events that an event stands for: a key tap is a press and a release one
/// frame later.
pub open spec fn expand(ev: EventView) -> Seq<EventView> {
    if ev.kind == "key_tap"@ {
        seq![
            EventView { kind: "key_press"@, dx: None, dy: None, ..ev },
            EventView {
                frame: later(ev.frame, 1),
                kind: "key_release"@,
                dx: None,
                dy: None,
                note: None,
                ..ev
            },
        ]
    } else {
        seq![ev]
    }
}

/// All events of a list, expanded.
pub open spec fn expand_all(events: Seq<EventView>) -> Seq<EventView>
    decreases events.len(),
{
    if events.len() == 0 {
        Seq::empty()
    } else {
        expand_all(events.drop_last()) + expand(events.last())
    }
}

/// The events with the warm-up added to their frames.
pub open spec fn delayed(events: Seq<EventView>, warmup: u64) -> Seq<EventView> {
    Seq::new(events.len(), |i: int| EventView { frame: later(events[i].frame, warmup), ..events[i] })
}

pub open spec fn frame_ranks(events: Seq<EventView>) -> Seq<i128> {
    Seq::new(events.len(), |i: int| events[i].frame as i128)
}

/// `sorted` is `events` sorted by frame, events of one frame in their old
/// order.
pub open spec fn is_sorted_by_frame(events: Seq<EventView>, sorted: Seq<EventView>) -> bool {
    exists|order: Seq<usize>| #[trigger]
        is_stable_order(frame_ranks(events), order) && sorted == Seq::new(
            order.len(),
            |i: int| events[order[i] as int],
        )
}

/// The first faulty event of a list, if there is one.
pub open spec fn first_fault(events: Seq<EventView>) -> Option<Seq<char>>
    decreases events.len(),
{
    if events.len() == 0 {
        None
    } else {
        match first_fault(events.drop_last()) {
            Some(t) => Some(t),
            None => event_fault(events.len() - 1, events.last()),
        }
    }
}

proof fn lemma_first_fault(events: Seq<EventView>, n: int)
    requires
        0 <= n <= events.len(),
        first_fault(events.take(n)) is Some,
    ensures
        first_fault(events) == first_fault(events.take(n)),
    decreases events.len(),
{
    if n == events.len() {
        assert(events.take(n) =~= events);
    } else {
        assert(events.drop_last().take(n) =~= events.take(n));
        lemma_first_fault(events.drop_last(), n);
    }
}

fn copy_text(s: &Option<String>) -> (r: Option<String>)
    ensures
        text_view(r) == text_view(*s),
{
    match s {
        Some(t) => Some(t.clone()),
        None => None,
    }
}

fn copy_event(ev: &ScenarioEvent) -> (r: ScenarioEvent)
    ensures
        r@ == ev@,
{
    ScenarioEvent {
        frame: ev.frame,
        kind: ev.kind.clone(),
        key: copy_text(&ev.key),
        dx: ev.dx,
        dy: ev.dy,
        note: copy_text(&ev.note),
    }
}

fn event_text(idx: usize) -> (r: String)
    ensures
        r@ == "event #"@ + decimal(idx as nat),
{
    let mut s: String = String::from_str("event #");
    append_decimal(&mut s, idx as u64);
    s
}

/// What is wrong with event number `idx`, in words, if anything is.
fn check_event(idx: usize, ev: &ScenarioEvent) -> (r: Option<String>)
    ensures
        text_view(r) == event_fault(idx as int, ev@),
{
    let kind: &str = ev.kind.as_str();
    if str_eq(kind, "key_press") || str_eq(kind, "key_release") || str_eq(kind, "key_tap") {
        match &ev.key {
            None => {
                let mut s: String = event_text(idx);
                s.append(" (");
                s.append(kind);
                s.append("): missing `key`");
                Some(s)
            },
            Some(key) => {
                if key_from_name(key.as_str()).is_none() {
                    let mut s: String = event_text(idx);
                    s.append(" (");
                    s.append(kind);
                    s.append("): unknown key `");
                    s.append(key.as_str());
                    s.append("`");
                    Some(s)
                } else {
                    None
                }
            },
        }
    } else if str_eq(kind, "mouse_move") {
        if ev.dx.is_none() && ev.dy.is_none() {
            let mut s: String = event_text(idx);
            s.append(" (mouse_move): at least one of `dx`/`dy` required");
            Some(s)
        } else {
            None
        }
    } else if str_eq(kind, "screenshot") || str_eq(kind, "exit") {
        None
    } else {
        let mut s: String = event_text(idx);
        s.append(": unknown kind `");
        s.append(kind);
        s.append("`");
        Some(s)
    }
}

/// Appends the events that `ev` stands for.
fn push_expanded(out: &mut Vec<ScenarioEvent>, ev: &ScenarioEvent)
    ensures
        events_view(final(out)@) == events_view(old(out)@) + expand(ev@),
{
    let ghost before = events_view(out@);
    if str_eq(ev.kind.as_str(), "key_tap") {
        out.push(
            ScenarioEvent {
                frame: ev.frame,
                kind: String::from_str("key_press"),
                key: copy_text(&ev.key),
                dx: None,
                dy: None,
                note: copy_text(&ev.note),
            },
        );
        out.push(
            ScenarioEvent {
                frame: ev.frame.saturating_add(1),
                kind: String::from_str("key_release"),
                key: copy_text(&ev.key),
                dx: None,
                dy: None,
                note: None,
            },
        );
        proof {
            assert(events_view(out@) =~= before + expand(ev@));
        }
    } else {
        out.push(copy_event(ev));
        proof {
            assert(events_view(out@) =~= before + expand(ev@));
        }
    }
}

/// The events sorted by frame, events of one frame in their old order.
fn sort_by_frame(events: &Vec<ScenarioEvent>) -> (r: Vec<ScenarioEvent>)
    ensures
        is_sorted_by_frame(events_view(events@), events_view(r@)),
{
    let mut ranks: Vec<i128> = Vec::new();
    let mut i: usize = 0;
    while i < events.len()
        invariant
            i <= events@.len(),
            ranks@.len() == i,
            forall|k: int| 0 <= k < i ==> #[trigger] ranks@[k] == events@[k].frame as i128,
        decreases events@.len() - i,
    {
        ranks.push(events[i].frame as i128);
        i += 1;
    }
    let order: Vec<usize> = stable_order(&ranks);
    let mut out: Vec<ScenarioEvent> = Vec::new();
    let mut j: usize = 0;
    while j < order.len()
        invariant
            j <= order@.len(),
            is_stable_order(ranks@, order@),
            ranks@.len() == events@.len(),
            out@.len() == j,
            forall|k: int| 0 <= k < j ==> (#[trigger] out@[k])@ == events@[order@[k] as int]@,
        decreases order@.len() - j,
    {
        proof {
            assert((order@[j as int] as int) < ranks@.len());
        }
        let ev: ScenarioEvent = copy_event(&events[order[j]]);
        out.push(ev);
        j += 1;
    }
    proof {
        let evs = events_view(events@);
        assert(frame_ranks(evs) =~= ranks@);
        assert(is_stable_order(frame_ranks(evs), order@));
        assert(events_view(out@) =~= Seq::new(order@.len(), |k: int| evs[order@[k] as int])) by {
            assert forall|k: int| 0 <= k < order@.len() implies events_view(out@)[k] == evs[order@[k] as int] by {
                assert((order@[k] as int) < ranks@.len());
                assert(out@[k]@ == events@[order@[k] as int]@);
            }
        }
    }
    out
}

impl Scenario {
    /// The events that a scenario's file lists, made ready to run: checked,
    /// expanded, moved past the warm-up and sorted. The first faulty event, by
    /// its place in the file, refuses the scenario.
    pub fn load(parsed: Scenario) -> (r: Result<Scenario, String>)
        ensures
            match r {
                Err(text) => first_fault(events_view(parsed.events@)) == Some(text@),
                Ok(s) => {
                    &&& first_fault(events_view(parsed.events@)) is None
                    &&& s.seed == parsed.seed
                    &&& s.mode == parsed.mode
                    &&& s.width == parsed.width
                    &&& s.height == parsed.height
                    &&& s.warmup_frames == parsed.warmup_frames
                    &&& s.output_prefix == parsed.output_prefix
                    &&& is_sorted_by_frame(
                        delayed(expand_all(events_view(parsed.events@)), parsed.warmup_frames),
                        events_view(s.events@),
                    )
                },
            },
    {
        let ghost evs = events_view(parsed.events@);
        let mut expanded: Vec<ScenarioEvent> = Vec::new();
        let mut idx: usize = 0;
        proof {
            assert(evs.take(0) =~= Seq::<EventView>::empty());
            assert(events_view(expanded@) =~= expand_all(evs.take(0)));
        }
        while idx < parsed.events.len()
            invariant
                evs == events_view(parsed.events@),
                idx <= parsed.events@.len(),
                first_fault(evs.take(idx as int)) is None,
                events_view(expanded@) == expand_all(evs.take(idx as int)),
            decreases parsed.events@.len() - idx,
        {
            let ev: &ScenarioEvent = &parsed.events[idx];
            proof {
                assert(evs.take(idx + 1).drop_last() =~= evs.take(idx as int));
                assert(evs.take(idx + 1).last() == ev@);
            }
            match check_event(idx, ev) {
                Some(text) => {
                    proof {
                        lemma_first_fault(evs, idx + 1);
                    }
                    return Err(text);
                },
                None => {},
            }
            push_expanded(&mut expanded, ev);
            idx += 1;
        }
        proof {
            assert(evs.take(evs.len() as int) =~= evs);
        }
        let ghost plain = events_view(expanded@);
        let mut shifted: Vec<ScenarioEvent> = Vec::new();
        let mut i: usize = 0;
        while i < expanded.len()
            invariant
                plain == events_view(expanded@),
                i <= expanded@.len(),
                shifted@.len() == i,
                forall|k: int|
                    0 <= k < i ==> (#[trigger] shifted@[k])@ == delayed(plain, parsed.warmup_frames)[k],
            decreases expanded@.len() - i,
        {
            let mut ev: ScenarioEvent = copy_event(&expanded[i]);
            ev.frame = ev.frame.saturating_add(parsed.warmup_frames);
            proof {
                assert(plain[i as int] == expanded@[i as int]@);
                assert(ev@ == delayed(plain, parsed.warmup_frames)[i as int]);
            }
            shifted.push(ev);
            i += 1;
        }
        proof {
            assert(events_view(shifted@) =~= delayed(plain, parsed.warmup_frames));
        }
        let events: Vec<ScenarioEvent> = sort_by_frame(&shifted);
        Ok(
            Scenario {
                seed: parsed.seed,
                mode: parsed.mode,
                width: parsed.width,
                height: parsed.height,
                warmup_frames: parsed.warmup_frames,
                output_prefix: parsed.output_prefix,
                events,
            },
        )
    }

    /// The view that the scenario starts in; first person where its name is
    /// unknown.
    pub fn initial_view_mode(&self) -> (r: ViewMode)
        ensures
            r == (if self.mode@ == "tp"@ {
                ViewMode::Tp
            } else if self.mode@ == "slice"@ {
                ViewMode::Slice
            } else if self.mode@ == "rts"@ {
                ViewMode::Rts
            } else if self.mode@ == "overview"@ {
                ViewMode::Overview
            } else {
                ViewMode::Fp
            }),
    {
        let mode: &str = self.mode.as_str();
        if str_eq(mode, "tp") {
            ViewMode::Tp
        } else if str_eq(mode, "slice") {
            ViewMode::Slice
        } else if str_eq(mode, "rts") {
            ViewMode::Rts
        } else if str_eq(mode, "overview") {
            ViewMode::Overview
        } else {
            ViewMode::Fp
        }
    }

    /// The largest frame of an event, 0 where there is none.
    pub open spec fn spec_last_event_frame(&self) -> u64 {
        last_frame(events_view(self.events@))
    }

    pub fn last_event_frame(&self) -> (r: u64)
        ensures
            r == self.spec_last_event_frame(),
            forall|i: int| 0 <= i < self.events@.len() ==> (#[trigger] self.events@[i]).frame <= r,
            self.events@.len() == 0 ==> r == 0,
            self.events@.len() > 0 ==> exists|i: int|
                0 <= i < self.events@.len() && (#[trigger] self.events@[i]).frame == r,
    {
        let ghost evs = events_view(self.events@);
        let mut r: u64 = 0;
        let mut i: usize = 0;
        while i < self.events.len()
            invariant
                evs == events_view(self.events@),
                i <= self.events@.len(),
                r == last_frame(evs.take(i as int)),
            decreases self.events@.len() - i,
        {
            proof {
                assert(evs.take(i + 1).drop_last() =~= evs.take(i as int));
                assert(evs.take(i + 1).last() == evs[i as int]);
            }
            if self.events[i].frame > r {
                r = self.events[i].frame;
            }
            i += 1;
        }
        proof {
            assert(evs.take(evs.len() as int) =~= evs);
            assert forall|k: int| 0 <= k < self.events@.len() implies (#[trigger] self.events@[k]).frame <= r by {
                last_frame_is_a_bound(evs, k);
                assert(evs[k] == self.events@[k]@);
            }
            if evs.len() > 0 {
                let k = last_frame_is_reached(evs);
                assert(evs[k] == self.events@[k]@);
            }
        }
        r
    }
}

/// The largest frame of an event, 0 where there is none.
pub open spec fn last_frame(events: Seq<EventView>) -> u64
    decreases events.len(),
{
    if events.len() == 0 {
        0
    } else {
        let front = last_frame(events.drop_last());
        if events.last().frame > front {
            events.last().frame
        } else {
            front
        }
    }
}

/// The last event frame is a bound on every event's frame.
pub proof fn last_frame_is_a_bound(events: Seq<EventView>, i: int)
    requires
        0 <= i < events.len(),
    ensures
        events[i].frame <= last_frame(events),
    decreases events.len(),
{
    if i < events.len() - 1 {
        last_frame_is_a_bound(events.drop_last(), i);
        assert(events.drop_last()[i] == events[i]);
    }
}

/// Loaded events come in the order of their frames.
pub proof fn sorted_events_ascend(events: Seq<EventView>, sorted: Seq<EventView>, i: int, j: int)
    requires
        is_sorted_by_frame(events, sorted),
        0 <= i <= j < sorted.len(),
    ensures
        sorted[i].frame <= sorted[j].frame,
{
    let order = choose|order: Seq<usize>| #[trigger]
        is_stable_order(frame_ranks(events), order) && sorted == Seq::new(
            order.len(),
            |i: int| events[order[i] as int],
        );
    assert((order[i] as int) < events.len());
    assert((order[j] as int) < events.len());
    if i < j {
        assert(goes_before(frame_ranks(events), order[i] as int, order[j] as int));
    }
}

/// No loaded event fires during the warm-up.
pub proof fn events_come_after_the_warmup(
    events: Seq<EventView>,
    warmup: u64,
    sorted: Seq<EventView>,
    i: int,
)
    requires
        is_sorted_by_frame(delayed(events, warmup), sorted),
        0 <= i < sorted.len(),
    ensures
        sorted[i].frame >= warmup,
{
    let late = delayed(events, warmup);
    let order = choose|order: Seq<usize>| #[trigger]
        is_stable_order(frame_ranks(late), order) && sorted == Seq::new(
            order.len(),
            |i: int| late[order[i] as int],
        );
    assert((order[i] as int) < late.len());
    assert(sorted[i] == late[order[i] as int]);
}

/// Loading keeps every expanded event: as many come out as went in.
pub proof fn sorting_keeps_every_event(events: Seq<EventView>, sorted: Seq<EventView>, i: int)
    requires
        is_sorted_by_frame(events, sorted),
        0 <= i < events.len(),
    ensures
        sorted.len() == events.len(),
        sorted.contains(events[i]),
{
    let order = choose|order: Seq<usize>| #[trigger]
        is_stable_order(frame_ranks(events), order) && sorted == Seq::new(
            order.len(),
            |i: int| events[order[i] as int],
        );
    stable_order_is_a_permutation(frame_ranks(events), order);
    assert((i as usize) as int == i) by {
        assert(order.len() == events.len());
        lemma_order_fits(frame_ranks(events), order, i);
    }
    assert(order.contains(i as usize));
    let j = order.index_of(i as usize);
    assert(sorted[j] == events[i]);
}

/// A list with a stable order is no longer than indices reach.
proof fn lemma_order_fits(ranks: Seq<i128>, order: Seq<usize>, i: int)
    requires
        is_stable_order(ranks, order),
        0 <= i < ranks.len(),
    ensures
        i <= usize::MAX,
{
    if i > usize::MAX {
        let s = Seq::new(order.len(), |k: int| order[k] as int);
        stable_order_is_a_permutation(ranks, order);
        assert(s.no_duplicates());
        let all = vstd::set_lib::set_int_range(0, usize::MAX as int + 1);
        vstd::set_lib::lemma_int_range(0, usize::MAX as int + 1);
        s.unique_seq_to_set();
        assert(s.to_set().subset_of(all));
        vstd::set_lib::lemma_len_subset(s.to_set(), all);
    }
}

/// A key tap is loaded as a press and a release of the same key; unless frame
/// numbers run out, the release comes one frame after the press.
pub proof fn key_tap_is_press_then_release(ev: EventView)
    requires
        ev.kind == "key_tap"@,
    ensures
        expand(ev).len() == 2,
        expand(ev)[0].kind == "key_press"@,
        expand(ev)[1].kind == "key_release"@,
        expand(ev)[0].key == ev.key,
        expand(ev)[1].key == ev.key,
        expand(ev)[0].frame == ev.frame,
        ev.frame < u64::MAX ==> expand(ev)[1].frame == ev.frame + 1,
{
}

/// The frame that scripted events are matched against.
#[derive(Debug)]
pub struct HarnessClock {
    pub frame: u64,
}

impl Default for HarnessClock {
    fn default() -> (r: Self)
        ensures
            r.frame == 0,
    {
        HarnessClock { frame: 0 }
    }
}

impl HarnessClock {
    /// Starts the next frame. The first frame that events see is 1.
    pub fn tick_clock(&mut self)
        ensures
            final(self).frame as int == (old(self).frame + 1) % 0x1_0000_0000_0000_0000,
    {
        self.frame = self.frame.wrapping_add(1);
    }
}

/// Input that a scripted event produces.
#[derive(Clone, Copy, Debug, PartialEq, Eq, Structural)]
pub enum ScriptedInput {
    Press(KeyCode),
    Release(KeyCode),
    Move { dx: Real32, dy: Real32 },
}

pub open spec fn motion_of(d: Option<Real32>) -> Real32 {
    match d {
        Some(v) => v,
        None => Real32 { bits: 0 },
    }
}

/// The input that an event produces in frame `now`, if any. Screenshots and
/// exits produce none, nor does a key whose name is unknown.
pub open spec fn input_of(ev: EventView, now: u64) -> Option<ScriptedInput> {
    let key = match ev.key {
        Some(name) => key_named(name),
        None => None,
    };
    if ev.frame != now {
        None
    } else if ev.kind == "key_press"@ {
        match key {
            Some(k) => Some(ScriptedInput::Press(k)),
            None => None,
        }
    } else if ev.kind == "key_release"@ {
        match key {
            Some(k) => Some(ScriptedInput::Release(k)),
            None => None,
        }
    } else if ev.kind == "mouse_move"@ {
        Some(ScriptedInput::Move { dx: motion_of(ev.dx), dy: motion_of(ev.dy) })
    } else {
        None
    }
}

/// The input of all events in frame `now`, in their order.
pub open spec fn inputs_at(events: Seq<EventView>, now: u64) -> Seq<ScriptedInput>
    decreases events.len(),
{
    if events.len() == 0 {
        Seq::empty()
    } else {
        let front = inputs_at(events.drop_last(), now);
        match input_of(events.last(), now) {
            Some(input) => front.push(input),
            None => front,
        }
    }
}

fn named_key(key: &Option<String>) -> (r: Option<KeyCode>)
    ensures
        r == match text_view(*key) {
            Some(name) => key_named(name),
            None => None,
        },
{
    match key {
        Some(name) => key_from_name(name.as_str()),
        None => None,
    }
}

fn event_input(ev: &ScenarioEvent, now: u64) -> (r: Option<ScriptedInput>)
    ensures
        r == input_of(ev@, now),
{
    if ev.frame != now {
        return None;
    }
    let kind: &str = ev.kind.as_str();
    if str_eq(kind, "key_press") {
        match named_key(&ev.key) {
            Some(k) => Some(ScriptedInput::Press(k)),
            None => None,
        }
    } else if str_eq(kind, "key_release") {
        match named_key(&ev.key) {
            Some(k) => Some(ScriptedInput::Release(k)),
            None => None,
        }
    } else if str_eq(kind, "mouse_move") {
        let dx: Real32 = match ev.dx {
            Some(v) => v,
            None => Real32 { bits: 0 },
        };
        let dy: Real32 = match ev.dy {
            Some(v) => v,
            None => Real32 { bits: 0 },
        };
        Some(ScriptedInput::Move { dx, dy })
    } else {
        None
    }
}

/// The input that the scenario produces in frame `now`.
pub fn drive_input_events(scenario: &Scenario, now: u64) -> (r: Vec<ScriptedInput>)
    ensures
        r@ == inputs_at(events_view(scenario.events@), now),
{
    let ghost evs = events_view(scenario.events@);
    let mut out: Vec<ScriptedInput> = Vec::new();
    let mut i: usize = 0;
    proof {
        assert(evs.take(0) =~= Seq::<EventView>::empty());
        assert(out@ =~= inputs_at(evs.take(0), now));
    }
    while i < scenario.events.len()
        invariant
            evs == events_view(scenario.events@),
            i <= scenario.events@.len(),
            out@ == inputs_at(evs.take(i as int), now),
        decreases scenario.events@.len() - i,
    {
        proof {
            assert(evs.take(i + 1).drop_last() =~= evs.take(i as int));
            assert(evs.take(i + 1).last() == evs[i as int]);
        }
        match event_input(&scenario.events[i], now) {
            Some(input) => out.push(input),
            None => {},
        }
        i += 1;
    }
    proof {
        assert(evs.take(evs.len() as int) =~= evs);
    }
    out
}

/// How many events of a kind fall on frame `now`.
pub open spec fn count_at(events: Seq<EventView>, kind: Seq<char>, now: u64) -> nat
    decreases events.len(),
{
    if events.len() == 0 {
        0
    } else {
        count_at(events.drop_last(), kind, now) + if events.last().frame == now && events.last().kind == kind {
            1nat
        } else {
            0nat
        }
    }
}

fn count_events(scenario: &Scenario, kind: &str, now: u64) -> (r: usize)
    ensures
        r as nat == count_at(events_view(scenario.events@), kind@, now),
{
    let ghost evs = events_view(scenario.events@);
    let mut n: usize = 0;
    let mut i: usize = 0;
    while i < scenario.events.len()
        invariant
            evs == events_view(scenario.events@),
            i <= scenario.events@.len(),
            n <= i,
            n as nat == count_at(evs.take(i as int), kind@, now),
        decreases scenario.events@.len() - i,
    {
        proof {
            assert(evs.take(i + 1).drop_last() =~= evs.take(i as int));
            assert(evs.take(i + 1).last() == evs[i as int]);
        }
        if scenario.events[i].frame == now && str_eq(scenario.events[i].kind.as_str(), kind) {
            n += 1;
        }
        i += 1;
    }
    proof {
        assert(evs.take(evs.len() as int) =~= evs);
    }
    n
}

/// How many screenshots the scenario takes in frame `now`.
pub fn screenshots_due(scenario: &Scenario, now: u64) -> (r: usize)
    ensures
        r as nat == count_at(events_view(scenario.events@), "screenshot"@, now),
{
    count_events(scenario, "screenshot", now)
}

/// Progress of a scripted run.
#[derive(Debug)]
pub struct HarnessState {
    /// Number of the next screenshot.
    pub shot_index: usize,
    /// The screenshots taken so far.
    pub paths: Vec<String>,
    pub exit_requested: bool,
    /// The run is cut off after this frame.
    pub deadline: u64,
}

/// What a run does at the end of a frame.
#[derive(Clone, Copy, Debug, PartialEq, Eq, Structural)]
pub enum ExitDecision {
    Continue,
    Exit,
    /// The deadline passed; the run ends with a warning.
    ForcedExit,
}

/// The file name of screenshot number `index`.
pub open spec fn shot_name(prefix: Seq<char>, index: nat) -> Seq<char> {
    prefix + "_"@ + decimal_padded(index, 4) + ".png"@
}

impl HarnessState {
    pub fn new(scenario: &Scenario) -> (r: Self)
        requires
            scenario.spec_last_event_frame() + DEADLINE_FRAMES <= u64::MAX,
        ensures
            r.shot_index == 0,
            r.paths@.len() == 0,
            !r.exit_requested,
            r.deadline == scenario.spec_last_event_frame() + DEADLINE_FRAMES,
            r.deadline == scenario.spec_last_event_frame() + 600,
    {
        HarnessState {
            shot_index: 0,
            paths: Vec::new(),
            exit_requested: false,
            deadline: scenario.last_event_frame() + DEADLINE_FRAMES,
        }
    }

    /// The file name of the next screenshot.
    pub fn next_shot_name(&self, prefix: &str) -> (r: String)
        ensures
            r@ == shot_name(prefix@, self.shot_index as nat),
            r@ == prefix@ + "_"@ + decimal_padded(self.shot_index as nat, 4) + ".png"@,
    {
        let mut s: String = String::from_str(prefix);
        s.append("_");
        append_decimal_padded(&mut s, self.shot_index as u64, 4);
        s.append(".png");
        s
    }

    /// Takes note of a screenshot: one that was written is listed and uses up
    /// its number; one that failed changes nothing.
    pub fn record_shot(&mut self, path: String, written: bool)
        requires
            written ==> old(self).shot_index < usize::MAX,
        ensures
            final(self).exit_requested == old(self).exit_requested,
            final(self).deadline == old(self).deadline,
            written ==> final(self).paths@ == old(self).paths@.push(path) && final(self).shot_index == old(self).shot_index + 1,
            !written ==> final(self).paths@ == old(self).paths@ && final(self).shot_index == old(self).shot_index,
    {
        if written {
            self.paths.push(path);
            self.shot_index += 1;
        }
    }

    /// Whether the run ends with frame `now`. An exit event is remembered; the
    /// run then ends a few frames after the scenario's last event. Without one
    /// it ends after the deadline.
    pub fn drive_exit(&mut self, scenario: &Scenario, now: u64) -> (r: ExitDecision)
        requires
            scenario.spec_last_event_frame() + EXIT_GRACE_FRAMES <= u64::MAX,
        ensures
            final(self).shot_index == old(self).shot_index,
            final(self).paths@ == old(self).paths@,
            final(self).deadline == old(self).deadline,
            final(self).exit_requested == (old(self).exit_requested || count_at(
                events_view(scenario.events@),
                "exit"@,
                now,
            ) > 0),
            r == (if final(self).exit_requested && now >= scenario.spec_last_event_frame()
                + EXIT_GRACE_FRAMES {
                ExitDecision::Exit
            } else if now > old(self).deadline {
                ExitDecision::ForcedExit
            } else {
                ExitDecision::Continue
            }),
            r is Exit <==> final(self).exit_requested && now >= scenario.spec_last_event_frame() + 5,
            r is ForcedExit ==> now > old(self).deadline,
            r is Continue ==> now <= old(self).deadline,
    {
        if count_events(scenario, "exit", now) > 0 {
            self.exit_requested = true;
        }
        let grace_until: u64 = scenario.last_event_frame() + EXIT_GRACE_FRAMES;
        if self.exit_requested && now >= grace_until {
            return ExitDecision::Exit;
        }
        if now > self.deadline {
            return ExitDecision::ForcedExit;
        }
        ExitDecision::Continue
    }
}

proof fn lemma_inputs(events: Seq<EventView>, now: u64, n: int) -> (at: Seq<int>)
    requires
        0 <= n <= events.len(),
    ensures
        is_selection(at, n, |i: int| input_of(events[i], now) is Some),
        inputs_at(events.take(n), now).len() == at.len(),
        forall|p: int|
            0 <= p < at.len() ==> #[trigger] inputs_at(events.take(n), now)[p] == input_of(events[at[p]], now)->0,
    decreases n,
{
    let wanted = |i: int| input_of(events[i], now) is Some;
    if n == 0 {
        lemma_select_none(wanted);
        Seq::<int>::empty()
    } else {
        let front = lemma_inputs(events, now, n - 1);
        assert(events.take(n).drop_last() =~= events.take(n - 1));
        assert(events.take(n).last() == events[n - 1]);
        lemma_select_next(front, n - 1, wanted)
    }
}

/// Every event of a frame is played, in the order of the events, and nothing
/// else is: a press and a release act on the key that is named, a name that no
/// key has does nothing, and a move goes by what is given of it.
pub proof fn every_event_of_a_frame_is_played(events: Seq<EventView>, now: u64) -> (at: Seq<int>)
    ensures
        is_selection(
            at,
            events.len() as int,
            |i: int|
                events[i].frame == now && (events[i].kind == "mouse_move"@ || ((events[i].kind == "key_press"@
                    || events[i].kind == "key_release"@) && events[i].key is Some && key_named(
                    events[i].key->0,
                ) is Some)),
        ),
        inputs_at(events, now).len() == at.len(),
        forall|p: int|
            0 <= p < at.len() ==> match #[trigger] inputs_at(events, now)[p] {
                ScriptedInput::Press(k) => events[at[p]].kind == "key_press"@ && key_named(
                    events[at[p]].key->0,
                ) == Some(k),
                ScriptedInput::Release(k) => events[at[p]].kind == "key_release"@ && key_named(
                    events[at[p]].key->0,
                ) == Some(k),
                ScriptedInput::Move { dx, dy } => {
                    &&& events[at[p]].kind == "mouse_move"@
                    &&& events[at[p]].dx == Some(dx) || (events[at[p]].dx is None && dx.bits == 0)
                    &&& events[at[p]].dy == Some(dy) || (events[at[p]].dy is None && dy.bits == 0)
                },
            },
{
    reveal_strlit("key_press");
    reveal_strlit("key_release");
    reveal_strlit("mouse_move");
    assert("key_press"@.len() != "key_release"@.len());
    assert("key_press"@.len() != "mouse_move"@.len());
    assert("key_release"@.len() != "mouse_move"@.len());
    let n = events.len() as int;
    let at = lemma_inputs(events, now, n);
    assert(events.take(n) =~= events);
    let a = |i: int| input_of(events[i], now) is Some;
    let b = |i: int|
        events[i].frame == now && (events[i].kind == "mouse_move"@ || ((events[i].kind == "key_press"@
            || events[i].kind == "key_release"@) && events[i].key is Some && key_named(events[i].key->0) is Some));
    assert forall|i: int| 0 <= i < n implies #[trigger] a(i) == #[trigger] b(i) by {}
    lemma_select_same(at, n, a, b);
    at
}

proof fn lemma_count(events: Seq<EventView>, kind: Seq<char>, now: u64, n: int) -> (at: Seq<int>)
    requires
        0 <= n <= events.len(),
    ensures
        is_selection(at, n, |i: int| events[i].frame == now && events[i].kind == kind),
        count_at(events.take(n), kind, now) == at.len(),
    decreases n,
{
    let wanted = |i: int| events[i].frame == now && events[i].kind == kind;
    if n == 0 {
        lemma_select_none(wanted);
        Seq::<int>::empty()
    } else {
        let front = lemma_count(events, kind, now, n - 1);
        assert(events.take(n).drop_last() =~= events.take(n - 1));
        assert(events.take(n).last() == events[n - 1]);
        lemma_select_next(front, n - 1, wanted)
    }
}

/// As many screenshots, or exits, are due in a frame as there are events of that
/// kind in it.
pub proof fn every_event_of_a_kind_is_counted(events: Seq<EventView>, kind: Seq<char>, now: u64) -> (at: Seq<int>)
    ensures
        is_selection(
            at,
            events.len() as int,
            |i: int| events[i].frame == now && events[i].kind == kind,
        ),
        count_at(events, kind, now) == at.len(),
{
    let at = lemma_count(events, kind, now, events.len() as int);
    assert(events.take(events.len() as int) =~= events);
    at
}

/// The last event frame is that of some event.
pub proof fn last_frame_is_reached(events: Seq<EventView>) -> (i: int)
    requires
        events.len() > 0,
    ensures
        0 <= i < events.len(),
        events[i].frame == last_frame(events),
    decreases events.len(),
{
    if events.len() == 1 {
        assert(last_frame(events.drop_last()) == 0);
        assert(events.last() == events[0]);
        0
    } else {
        let i = last_frame_is_reached(events.drop_last());
        if events.last().frame > last_frame(events.drop_last()) {
            events.len() - 1
        } else {
            i
        }
    }
}

/// An event can be played.
pub open spec fn is_sound(ev: EventView) -> bool {
    ||| ev.kind == "screenshot"@
    ||| ev.kind == "exit"@
    ||| ev.kind == "mouse_move"@ && (ev.dx is Some || ev.dy is Some)
    ||| (ev.kind == "key_press"@ || ev.kind == "key_release"@ || ev.kind == "key_tap"@) && ev.key is Some
        && key_named(ev.key->0) is Some
}

proof fn lemma_fault(idx: int, ev: EventView)
    ensures
        event_fault(idx, ev) is None <==> is_sound(ev),
{
    reveal_strlit("key_press");
    reveal_strlit("key_release");
    reveal_strlit("key_tap");
    reveal_strlit("mouse_move");
    reveal_strlit("screenshot");
    reveal_strlit("exit");
    assert("mouse_move"@.len() == 10 && "screenshot"@.len() == 10);
    assert("mouse_move"@[0] != "screenshot"@[0]);
    assert("key_press"@.len() == 9 && "key_release"@.len() == 11 && "key_tap"@.len() == 7 && "exit"@.len()
        == 4);
}

/// A scenario is refused exactly where some event cannot be played, and then for
/// the first such event.
pub proof fn the_first_unsound_event_is_reported(events: Seq<EventView>)
    ensures
        first_fault(events) is None <==> forall|i: int|
            0 <= i < events.len() ==> ({
                let ev = #[trigger] events[i];
                ||| ev.kind == "screenshot"@
                ||| ev.kind == "exit"@
                ||| ev.kind == "mouse_move"@ && (ev.dx is Some || ev.dy is Some)
                ||| (ev.kind == "key_press"@ || ev.kind == "key_release"@ || ev.kind == "key_tap"@) && ev.key is Some
                    && key_named(ev.key->0) is Some
            }),
        first_fault(events) is Some ==> exists|i: int|
            0 <= i < events.len() && !is_sound(#[trigger] events[i]) && first_fault(events) == event_fault(
                i,
                events[i],
            ) && forall|j: int| 0 <= j < i ==> is_sound(#[trigger] events[j]),
    decreases events.len(),
{
    if events.len() > 0 {
        let front = events.drop_last();
        let n = events.len() - 1;
        the_first_unsound_event_is_reported(front);
        lemma_fault(n, events.last());
        assert(events[n] == events.last());
        if first_fault(front) is Some {
            let i = choose|i: int|
                0 <= i < front.len() && !is_sound(#[trigger] front[i]) && first_fault(front) == event_fault(
                    i,
                    front[i],
                ) && forall|j: int| 0 <= j < i ==> is_sound(#[trigger] front[j]);
            assert(events[i] == front[i]);
            assert forall|j: int| 0 <= j < i implies is_sound(#[trigger] events[j]) by {
                assert(front[j] == events[j]);
            }
        } else {
            assert forall|j: int| 0 <= j < n implies is_sound(#[trigger] events[j]) by {
                assert(front[j] == events[j]);
            }
            if first_fault(events) is Some {
                assert(!is_sound(events[n]));
            }
        }
    }
}

proof fn lemma_expanded_in(events: Seq<EventView>, i: int, k: int)
    requires
        0 <= i < events.len(),
        0 <= k < expand(events[i]).len(),
    ensures
        expand_all(events).contains(expand(events[i])[k]),
    decreases events.len(),
{
    let all = expand_all(events);
    let front = expand_all(events.drop_last());
    if i == events.len() - 1 {
        assert(all[front.len() + k] == expand(events[i])[k]);
    } else {
        assert(events.drop_last()[i] == events[i]);
        lemma_expanded_in(events.drop_last(), i, k);
        let p = front.index_of(expand(events[i])[k]);
        assert(all[p] == expand(events[i])[k]);
    }
}

/// Every event of a file is in the loaded scenario, the warm-up later: a press,
/// a release, a move, a screenshot and an exit as they are, and a tap as a press
/// followed one frame later by a release of the same key.
pub proof fn every_listed_event_is_scheduled(
    events: Seq<EventView>,
    warmup: u64,
    loaded: Seq<EventView>,
    i: int,
)
    requires
        is_sorted_by_frame(delayed(expand_all(events), warmup), loaded),
        0 <= i < events.len(),
        events[i].frame + warmup < u64::MAX,
    ensures
        events[i].kind != "key_tap"@ ==> loaded.contains(
            EventView { frame: (events[i].frame + warmup) as u64, ..events[i] },
        ),
        events[i].kind == "key_tap"@ ==> exists|p: int, q: int|
            0 <= p < loaded.len() && 0 <= q < loaded.len() && (#[trigger] loaded[p]).kind == "key_press"@
                && loaded[p].key == events[i].key && loaded[p].frame == events[i].frame + warmup
                && (#[trigger] loaded[q]).kind == "key_release"@ && loaded[q].key == events[i].key
                && loaded[q].frame == events[i].frame + warmup + 1,
{
    let plain = expand_all(events);
    let late = delayed(plain, warmup);
    assert forall|k: int| 0 <= k < expand(events[i]).len() implies loaded.contains(
        EventView {
            frame: later((#[trigger] expand(events[i])[k]).frame, warmup),
            ..expand(events[i])[k]
        },
    ) by {
        lemma_expanded_in(events, i, k);
        let p = plain.index_of(expand(events[i])[k]);
        sorting_keeps_every_event(late, loaded, p);
        assert(late[p] == (EventView { frame: later(plain[p].frame, warmup), ..plain[p] }));
    }
    if events[i].kind == "key_tap"@ {
        let (a, b) = (expand(events[i])[0], expand(events[i])[1]);
        let p = loaded.index_of(EventView { frame: later(a.frame, warmup), ..a });
        let q = loaded.index_of(EventView { frame: later(b.frame, warmup), ..b });
        assert(loaded[p].kind == "key_press"@ && loaded[q].kind == "key_release"@);
        assert(loaded[p].frame == events[i].frame + warmup);
        assert(loaded[q].frame == events[i].frame + warmup + 1);
    } else {
        assert(expand(events[i])[0] == events[i]);
    }
}

/// A fault is reported with the number of its event and what was written in it:
/// the kind, and the key where its name is unknown.
pub proof fn a_fault_names_its_event(idx: int, ev: EventView)
    ensures
        ({
            let event = "event #"@ + decimal(idx as nat);
            let key_event = ev.kind == "key_press"@ || ev.kind == "key_release"@ || ev.kind == "key_tap"@;
            let known = key_event || ev.kind == "mouse_move"@ || ev.kind == "screenshot"@ || ev.kind == "exit"@;
            &&& key_event && ev.key is None ==> event_fault(idx, ev) == Some(
                event + " ("@ + ev.kind + "): missing `key`"@,
            )
            &&& key_event && ev.key is Some && key_named(ev.key->0) is None ==> event_fault(idx, ev) == Some(
                event + " ("@ + ev.kind + "): unknown key `"@ + ev.key->0 + "`"@,
            )
            &&& ev.kind == "mouse_move"@ && ev.dx is None && ev.dy is None ==> event_fault(idx, ev) == Some(
                event + " (mouse_move): at least one of `dx`/`dy` required"@,
            )
            &&& !known ==> event_fault(idx, ev) == Some(event + ": unknown kind `"@ + ev.kind + "`"@)
        }),
{
    reveal_strlit("key_press");
    reveal_strlit("key_release");
    reveal_strlit("key_tap");
    reveal_strlit("mouse_move");
    assert("key_press"@.len() == 9);
    assert("key_release"@.len() == 11);
    assert("key_tap"@.len() == 7);
    assert("mouse_move"@.len() == 10);
}

} // verus!
