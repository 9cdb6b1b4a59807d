//! The walking character: jump, crouch and flight.
//!
//! The physics engine moves the character's capsule; what it is asked to do is
//! decided here. Sums and products of speeds are computed outside and handed
//! in.

use crate::measure::Real32;
use crate::physics::config::PhysicsConfig;
use crate::view_mode::ViewMode;
use vstd::prelude::*;

verus! {

/// Radius of the capsule: 0.3 meters.
pub const CAPSULE_RADIUS: u32 = 0x3e99_999a;

/// Lower end of the capsule's axis: 0.3 meters above the feet.
pub const CAPSULE_FOOT_Y: u32 = 0x3e99_999a;

/// Upper end of the axis, standing: 1.5 meters above the feet.
pub const CAPSULE_HEAD_Y_STAND: u32 = 0x3fc0_0000;

/// Upper end of the axis, crouched: 0.6 meters above the feet.
pub const CAPSULE_HEAD_Y_CROUCH: u32 = 0x3f19_999a;

/// Walking speed: 4 meters per second.
pub const WALK_SPEED: u32 = 0x4080_0000;

/// Sprinting speed: 12 meters per second.
pub const SPRINT_SPEED: u32 = 0x4140_0000;

/// Walking speed, crouched: half of it.
pub const CROUCH_WALK_SPEED: u32 = 0x4000_0000;

/// Sprinting speed, crouched: half of it.
pub const CROUCH_SPRINT_SPEED: u32 = 0x40c0_0000;

/// Take-off speed of a jump: 7 meters per second.
pub const JUMP_SPEED: u32 = 0x40e0_0000;

/// Pull that keeps the character on the ground: 1 meter per second, down.
pub const GROUND_STICK: u32 = 0xbf80_0000;

/// Two taps within this time toggle flight: 0.3 seconds.
pub const DOUBLE_TAP_WINDOW_S: u32 = 0x3e99_999a;

/// Flying speed: 8 meters per second.
pub const FLY_SPEED: u32 = 0x4100_0000;

/// Fast flying speed: 20 meters per second.
pub const FLY_SPRINT_SPEED: u32 = 0x41a0_0000;

/// Rising speed in flight: 6 meters per second.
pub const FLY_VERTICAL_SPEED: u32 = 0x40c0_0000;

/// Fast rising speed in flight: 16 meters per second.
pub const FLY_SPRINT_VERTICAL_SPEED: u32 = 0x4180_0000;

/// Where the capsule's axis begins and ends above the feet, and its radius.
/// Crouching lowers the head alone.
pub fn capsule_endpoints(crouched: bool) -> (r: (Real32, Real32, Real32))
    ensures
        r.0.bits == CAPSULE_FOOT_Y,
        r.1.bits == (if crouched {
            CAPSULE_HEAD_Y_CROUCH
        } else {
            CAPSULE_HEAD_Y_STAND
        }),
        r.2.bits == CAPSULE_RADIUS,
        r.0.bits == 0x3e99_999a && r.2.bits == 0x3e99_999a,
        crouched ==> r.1.bits == 0x3f19_999a,
        !crouched ==> r.1.bits == 0x3fc0_0000,
{
    let head: u32 = if crouched {
        CAPSULE_HEAD_Y_CROUCH
    } else {
        CAPSULE_HEAD_Y_STAND
    };
    (Real32 { bits: CAPSULE_FOOT_Y }, Real32 { bits: head }, Real32 { bits: CAPSULE_RADIUS })
}

/// Whether the character crouches: while the key is held, and as long as there
/// is no headroom to stand.
pub fn resolve_crouch_state(intent_crouch: bool, headroom_clear: bool) -> (r: bool)
    ensures
        r == (intent_crouch || !headroom_clear),
{
    intent_crouch || !headroom_clear
}

/// The character's state.
#[derive(Clone, Copy, Debug)]
pub struct CharacterState {
    pub spawned: bool,
    pub entity: Option<u64>,
    pub vertical_velocity: Real32,
    pub grounded: bool,
    /// Height that a fall is undone to.
    pub spawn_y: Real32,
    pub crouched: bool,
    pub flying: bool,
    /// Time of the last tap of the space key that may begin a double tap.
    pub last_space_tap: Option<Real32>,
}

impl Default for CharacterState {
    fn default() -> (r: Self)
        ensures
            !r.spawned,
            r.entity is None,
            r.vertical_velocity.bits == 0,
            !r.grounded,
            r.spawn_y.bits == 0,
            !r.crouched,
            !r.flying,
            r.last_space_tap is None,
    {
        CharacterState {
            spawned: false,
            entity: None,
            vertical_velocity: Real32 { bits: 0 },
            grounded: false,
            spawn_y: Real32 { bits: 0 },
            crouched: false,
            flying: false,
            last_space_tap: None,
        }
    }
}

pub open spec fn is_active(cfg: PhysicsConfig, mode: ViewMode, state: CharacterState) -> bool {
    cfg.enabled && mode is Fp && state.spawned
}

/// Whether the character owns the movement: physics is on, the view is first
/// person, and the character exists.
pub fn character_active(cfg: &PhysicsConfig, mode: ViewMode, state: &CharacterState) -> (r: bool)
    ensures
        r == is_active(*cfg, mode, *state),
        r <==> cfg.enabled && mode is Fp && state.spawned,
{
    cfg.enabled && mode == ViewMode::Fp && state.spawned
}

/// Whether to spawn the character: once, in first person, when the scene is
/// ready.
pub fn spawn_player(state: &CharacterState, mode: ViewMode, ready: bool) -> (r: bool)
    ensures
        r == (!state.spawned && mode is Fp && ready),
{
    !state.spawned && mode == ViewMode::Fp && ready
}

impl CharacterState {
    /// Takes note of the character's entity and height; everything else starts
    /// afresh.
    pub fn note_spawned(&mut self, entity: u64, y: Real32)
        ensures
            *final(self) == (CharacterState {
                spawned: true,
                entity: Some(entity),
                vertical_velocity: Real32 { bits: 0 },
                grounded: false,
                spawn_y: y,
                crouched: false,
                flying: false,
                last_space_tap: None,
            }),
    {
        self.spawned = true;
        self.entity = Some(entity);
        self.spawn_y = y;
        self.vertical_velocity = Real32 { bits: 0 };
        self.grounded = false;
        self.flying = false;
        self.last_space_tap = None;
        self.crouched = false;
    }
}

/// The vertical speed after a step. A jump takes off from the ground only; at
/// rest or descending on the ground the character sticks to it; otherwise it
/// falls, `fallen` being the speed that gravity leaves.
pub open spec fn stepped(vel: Real32, grounded: bool, jump: bool, fallen: Real32) -> Real32 {
    if jump && grounded {
        Real32 { bits: JUMP_SPEED }
    } else if grounded && vel.less_or_equal(Real32 { bits: 0 }) {
        Real32 { bits: GROUND_STICK }
    } else {
        fallen
    }
}

/// The vertical speed after a step.
pub fn step_vertical(vel: Real32, grounded: bool, jump: bool, fallen: Real32) -> (r: Real32)
    ensures
        r == stepped(vel, grounded, jump, fallen),
        grounded && jump ==> r.bits == 0x40e0_0000,
        grounded && !jump && vel.less_or_equal(Real32 { bits: 0 }) ==> r.bits == 0xbf80_0000,
        !grounded ==> r == fallen,
        grounded && !jump && !vel.less_or_equal(Real32 { bits: 0 }) ==> r == fallen,
{
    if jump && grounded {
        return Real32 { bits: JUMP_SPEED };
    }
    if grounded && vel.le(Real32 { bits: 0 }) {
        return Real32 { bits: GROUND_STICK };
    }
    fallen
}

/// In the air a jump changes nothing.
pub proof fn no_double_jump(vel: Real32, fallen: Real32)
    ensures
        stepped(vel, false, true, fallen) == stepped(vel, false, false, fallen),
{
}

/// Registers a tap of the space key at `now`. `since` is the time since the
/// last tap. Two taps within `window` make a double tap, which uses up both; a
/// third starts over.
pub fn register_space_tap(
    last: Option<Real32>,
    now: Real32,
    since: Real32,
    window: Real32,
) -> (r: (Option<Real32>, bool))
    ensures
        r.1 == (last is Some && since.less_or_equal(window)),
        r.0 == (if r.1 {
            None
        } else {
            Some(now)
        }),
{
    match last {
        Some(_) => {
            if since.le(window) {
                (None, true)
            } else {
                (Some(now), false)
            }
        },
        None => (Some(now), false),
    }
}

/// The vertical speed in flight: up, down, or none where neither or both keys
/// are held.
pub open spec fn fly_velocity(up: bool, down: bool, sprint: bool) -> Real32 {
    let speed = if sprint {
        FLY_SPRINT_VERTICAL_SPEED
    } else {
        FLY_VERTICAL_SPEED
    };
    if up == down {
        Real32 { bits: 0 }
    } else if up {
        Real32 { bits: speed }
    } else {
        Real32 { bits: (speed + 0x8000_0000) as u32 }
    }
}

/// The vertical speed in flight.
pub fn fly_vertical_velocity(up: bool, down: bool, sprint: bool) -> (r: Real32)
    ensures
        r == fly_velocity(up, down, sprint),
        up && !down ==> r.bits == (if sprint {
            0x4180_0000u32
        } else {
            0x40c0_0000u32
        }),
        down && !up ==> r.bits == (if sprint {
            0xc180_0000u32
        } else {
            0xc0c0_0000u32
        }),
        r.rank() == (if up == down {
            0
        } else if up {
            fly_velocity(true, false, sprint).rank()
        } else {
            -fly_velocity(true, false, sprint).rank()
        }),
{
    let speed: u32 = if sprint {
        FLY_SPRINT_VERTICAL_SPEED
    } else {
        FLY_VERTICAL_SPEED
    };
    if up == down {
        Real32 { bits: 0 }
    } else if up {
        Real32 { bits: speed }
    } else {
        Real32 { bits: speed + 0x8000_0000 }
    }
}

/// A frame's taps of the space key: a double tap toggles flight and stops the
/// vertical motion. `now` is the time and `since` the time since the last tap.
pub fn tap_space(state: &mut CharacterState, pressed: bool, now: Real32, since: Real32) -> (toggled: bool)
    ensures
        toggled == (pressed && old(state).last_space_tap is Some && since.less_or_equal(
            Real32 { bits: DOUBLE_TAP_WINDOW_S },
        )),
        toggled <==> pressed && old(state).last_space_tap is Some && since.less_or_equal(
            Real32 { bits: 0x3e99_999a },
        ),
        *final(state) == (if toggled {
            CharacterState {
                last_space_tap: None,
                flying: !old(state).flying,
                vertical_velocity: Real32 { bits: 0 },
                ..*old(state)
            }
        } else if pressed {
            CharacterState { last_space_tap: Some(now), ..*old(state) }
        } else {
            *old(state)
        }),
{
    if !pressed {
        return false;
    }
    let tap: (Option<Real32>, bool) = register_space_tap(
        state.last_space_tap,
        now,
        since,
        Real32 { bits: DOUBLE_TAP_WINDOW_S },
    );
    state.last_space_tap = tap.0;
    if tap.1 {
        state.flying = !state.flying;
        state.vertical_velocity = Real32 { bits: 0 };
    }
    tap.1
}

/// Whether the room above the head has to be probed: only to stand up.
pub fn needs_headroom_probe(state: &CharacterState, crouch_held: bool) -> (r: bool)
    ensures
        r == (state.crouched && !crouch_held),
{
    state.crouched && !crouch_held
}

/// What a frame asks of the character.
#[derive(Clone, Copy, Debug)]
pub struct DriveInput {
    pub crouch: bool,
    pub sprint: bool,
    /// The result of the probe above the head; only read to stand up.
    pub headroom_clear: bool,
    /// The space key went down.
    pub jump: bool,
    /// The space key is held.
    pub up: bool,
    /// A control key is held.
    pub down: bool,
    /// The vertical speed that gravity leaves.
    pub fallen: Real32,
}

/// What the physics engine is asked to do.
#[derive(Clone, Copy, Debug, PartialEq, Eq, Structural)]
pub struct DriveOutcome {
    /// The capsule changes to this stance.
    pub resize: Option<bool>,
    pub speed: Real32,
    /// The capsule is pulled down to the ground.
    pub snap: bool,
}

/// The stance after a frame.
pub open spec fn next_stance(state: CharacterState, input: DriveInput) -> bool {
    input.crouch || (state.crouched && !input.headroom_clear)
}

/// The horizontal speed of a frame.
pub open spec fn drive_speed(flying: bool, sprint: bool, crouched: bool) -> Real32 {
    Real32 {
        bits: if flying {
            if sprint {
                FLY_SPRINT_SPEED
            } else {
                FLY_SPEED
            }
        } else if crouched {
            if sprint {
                CROUCH_SPRINT_SPEED
            } else {
                CROUCH_WALK_SPEED
            }
        } else if sprint {
            SPRINT_SPEED
        } else {
            WALK_SPEED
        },
    }
}

/// Drives the character for a frame: resizes the capsule when the stance flips,
/// sets the vertical speed by flight or by gravity and jump, and chooses the
/// horizontal speed. The capsule is not pulled down while it flies or rises.
pub fn drive_character(state: &mut CharacterState, input: &DriveInput) -> (r: DriveOutcome)
    ensures
        ({
            let stance = next_stance(*old(state), *input);
            let velocity = if old(state).flying {
                fly_velocity(input.up, input.down, input.sprint)
            } else {
                stepped(old(state).vertical_velocity, old(state).grounded, input.jump, input.fallen)
            };
            &&& *final(state) == (CharacterState {
                crouched: stance,
                vertical_velocity: velocity,
                ..*old(state)
            })
            &&& r.resize == (if stance != old(state).crouched {
                Some(stance)
            } else {
                None
            })
            &&& r.speed == drive_speed(old(state).flying, input.sprint, stance)
            &&& r.snap == (!old(state).flying && !(Real32 { bits: 0 }).less(velocity))
        }),
        !old(state).flying && !final(state).crouched ==> r.speed.bits == (if input.sprint {
            SPRINT_SPEED
        } else {
            WALK_SPEED
        }),
        !old(state).flying && !final(state).crouched && input.sprint ==> r.speed.bits == 0x4140_0000,
        !old(state).flying && !final(state).crouched && !input.sprint ==> r.speed.bits == 0x4080_0000,
        !old(state).flying && final(state).crouched && input.sprint ==> r.speed.bits == 0x40c0_0000,
        !old(state).flying && final(state).crouched && !input.sprint ==> r.speed.bits == 0x4000_0000,
        old(state).flying && input.sprint ==> r.speed.bits == 0x41a0_0000,
        old(state).flying && !input.sprint ==> r.speed.bits == 0x4100_0000,
        final(state).crouched <==> input.crouch || (old(state).crouched && !input.headroom_clear),
        r.resize is Some <==> final(state).crouched != old(state).crouched,
        r.resize is Some ==> r.resize == Some(final(state).crouched),
        r.snap ==> !old(state).flying,
        final(state).flying == old(state).flying,
{
    let clear: bool = if needs_headroom_probe(state, input.crouch) {
        input.headroom_clear
    } else {
        true
    };
    let effective: bool = resolve_crouch_state(input.crouch, clear);
    let resize: Option<bool> = if effective != state.crouched {
        Some(effective)
    } else {
        None
    };
    state.crouched = effective;
    if state.flying {
        state.vertical_velocity = fly_vertical_velocity(input.up, input.down, input.sprint);
        let speed: u32 = if input.sprint {
            FLY_SPRINT_SPEED
        } else {
            FLY_SPEED
        };
        DriveOutcome { resize, speed: Real32 { bits: speed }, snap: false }
    } else {
        state.vertical_velocity = step_vertical(
            state.vertical_velocity,
            state.grounded,
            input.jump,
            input.fallen,
        );
        let speed: u32 = if effective {
            if input.sprint {
                CROUCH_SPRINT_SPEED
            } else {
                CROUCH_WALK_SPEED
            }
        } else if input.sprint {
            SPRINT_SPEED
        } else {
            WALK_SPEED
        };
        let rising: bool = (Real32 { bits: 0 }).lt(state.vertical_velocity);
        DriveOutcome { resize, speed: Real32 { bits: speed }, snap: !rising }
    }
}

/// The character cannot stand up into a ceiling: without headroom a crouched
/// character stays crouched.
pub proof fn no_standing_into_a_ceiling(state: CharacterState, input: DriveInput)
    requires
        state.crouched,
        !input.headroom_clear,
    ensures
        next_stance(state, input),
{
}

/// Where the character stands after the physics engine moved it.
#[derive(Clone, Copy, Debug, PartialEq, Eq, Structural)]
pub struct Writeback {
    pub y: Real32,
    /// The character fell out of the world and is put back.
    pub respawn: bool,
}

/// Takes over what the physics engine made of a frame: whether the character
/// touches the ground, where downward speed ends; and its height `y`, which is
/// reset if it lies below `kill_y`.
pub fn writeback_character(
    state: &mut CharacterState,
    grounded: Option<bool>,
    y: Real32,
    kill_y: Real32,
) -> (r: Writeback)
    ensures
        ({
            let on_ground = grounded == Some(true);
            let fell = y.less(kill_y);
            let landed = on_ground && old(state).vertical_velocity.less(Real32 { bits: 0 });
            &&& *final(state) == (CharacterState {
                grounded: on_ground,
                vertical_velocity: if fell || landed {
                    Real32 { bits: 0 }
                } else {
                    old(state).vertical_velocity
                },
                ..*old(state)
            })
            &&& r.respawn == fell
            &&& r.y == (if fell {
                old(state).spawn_y
            } else {
                y
            })
        }),
{
    state.grounded = match grounded {
        Some(g) => g,
        None => false,
    };
    if state.grounded && state.vertical_velocity.lt(Real32 { bits: 0 }) {
        state.vertical_velocity = Real32 { bits: 0 };
    }
    if y.lt(kill_y) {
        state.vertical_velocity = Real32 { bits: 0 };
        Writeback { y: state.spawn_y, respawn: true }
    } else {
        Writeback { y, respawn: false }
    }
}

/// On the ground the character walks at 4 and sprints at 12 meters per second,
/// standing; in the air it flies at 8 and at 20, whatever its stance.
pub proof fn speeds_by_stance(sprint: bool, crouched: bool)
    ensures
        drive_speed(false, true, false).bits == SPRINT_SPEED,
        drive_speed(false, false, false).bits == WALK_SPEED,
        drive_speed(true, true, crouched).bits == FLY_SPRINT_SPEED,
        drive_speed(true, false, crouched).bits == FLY_SPEED,
        WALK_SPEED == 0x4080_0000 && SPRINT_SPEED == 0x4140_0000,
        FLY_SPEED == 0x4100_0000 && FLY_SPRINT_SPEED == 0x41a0_0000,
{
}

/// In every stance sprinting is faster than not, and every speed is positive.
pub proof fn sprinting_is_faster(flying: bool, crouched: bool)
    ensures
        drive_speed(flying, false, crouched).less(drive_speed(flying, true, crouched)),
        (Real32 { bits: 0 }).less(drive_speed(flying, false, crouched)),
{
}

/// Crouching halves the speed on the ground, sprinting or not: the numbers
/// differ by one in the exponent alone. In flight it changes nothing, and flight
/// is faster than the ground.
pub proof fn crouching_halves_the_speed(sprint: bool)
    ensures
        drive_speed(false, sprint, true).bits + 0x0080_0000 == drive_speed(false, sprint, false).bits,
        drive_speed(true, sprint, true) == drive_speed(true, sprint, false),
        drive_speed(false, sprint, false).less(drive_speed(true, sprint, false)),
{
}

/// A jump from the ground rises, at 7 meters per second whatever came before. At
/// rest or sinking on the ground the character is pulled down. In the air, and
/// while it rises from the ground, it has the speed that gravity leaves.
pub proof fn vertical_speed_by_footing(vel: Real32, jump: bool, fallen: Real32)
    ensures
        (Real32 { bits: 0 }).less(stepped(vel, true, true, fallen)),
        stepped(vel, true, true, fallen).bits == 0x40e0_0000,
        vel.less_or_equal(Real32 { bits: 0 }) ==> stepped(vel, true, false, fallen).less(
            Real32 { bits: 0 },
        ) && stepped(vel, true, false, fallen).bits == 0xbf80_0000,
        (Real32 { bits: 0 }).less(vel) ==> stepped(vel, true, false, fallen) == fallen,
        stepped(vel, false, jump, fallen) == fallen,
{
}

/// In flight the up key rises and the down key sinks equally fast, faster while
/// sprinting; neither or both keep the height.
pub proof fn flight_follows_the_keys(sprint: bool)
    ensures
        (Real32 { bits: 0 }).less(fly_velocity(true, false, sprint)),
        fly_velocity(false, true, sprint).rank() == -fly_velocity(true, false, sprint).rank(),
        fly_velocity(true, false, false).less(fly_velocity(true, false, true)),
        fly_velocity(true, false, false).bits == 0x40c0_0000,
        fly_velocity(true, false, true).bits == 0x4180_0000,
        fly_velocity(false, false, sprint).bits == 0,
        fly_velocity(true, true, sprint).bits == 0,
{
}

/// Holding the key crouches. Without it a standing character stays up, and a
/// crouched one stands up exactly where there is headroom.
pub proof fn stance_follows_the_key_and_the_ceiling(state: CharacterState, input: DriveInput)
    ensures
        input.crouch ==> next_stance(state, input),
        !input.crouch && !state.crouched ==> !next_stance(state, input),
        !input.crouch && state.crouched ==> next_stance(state, input) == !input.headroom_clear,
{
}

} // verus!
