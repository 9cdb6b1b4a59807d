//! The shell of far terrain between the loaded bricks and the horizon: when it
//! is shown, and when it is built anew.

use crate::measure::Real64;
use crate::ticket::{a_ticket_does_not_come_again, goes_on, is_run, next_ticket, ticket_after};
use crate::world_stream::DVec3;
use vstd::prelude::*;

verus! {

/// The shell in place and the one that is being built.
#[derive(Clone, Copy, Debug, PartialEq, Eq, Structural)]
pub struct HorizonShellRuntime {
    pub current_mesh: Option<u64>,
    pub current_entity: Option<u64>,
    /// Where the observer stood for the mesh in place.
    pub built_for: Option<ShellPose>,
    /// Where the observer stood for the mesh that is being built.
    pub rebuild: Option<DVec3>,
    /// The ticket of the build that was started last.
    pub ticket: u64,
}

/// The pose and the digest of a built mesh.
#[derive(Clone, Copy, Debug, PartialEq, Eq, Structural)]
pub struct ShellPose {
    pub observer: DVec3,
    pub source_digest: u64,
}

/// What is heard of a mesh that is being built.
#[derive(Clone, Copy, Debug, PartialEq, Eq, Structural)]
pub enum ShellNews {
    /// The mesh of this ticket is there; this is its digest.
    Finished { ticket: u64, digest: u64 },
    Pending,
    /// The builder of this ticket is gone without a result.
    Lost { ticket: u64 },
}

/// What a frame does to the shell at first.
#[derive(Clone, Copy, Debug, PartialEq, Eq, Structural)]
pub struct ShellFrame {
    /// The shell is shown, and other systems may rely on it.
    pub visible: bool,
    /// The shell follows the observer.
    pub follow: bool,
    /// The built mesh is to be put in place.
    pub install: bool,
}

impl Default for HorizonShellRuntime {
    fn default() -> (r: Self)
        ensures
            r == (HorizonShellRuntime {
                current_mesh: None,
                current_entity: None,
                built_for: None,
                rebuild: None,
                ticket: 0,
            }),
    {
        HorizonShellRuntime {
            current_mesh: None,
            current_entity: None,
            built_for: None,
            rebuild: None,
            ticket: 0,
        }
    }
}

impl HorizonShellRuntime {
    /// Whether to spawn the shell's entity: once, as soon as there is a camera.
    pub fn ensure_horizon_shell(&self, has_camera: bool) -> (r: bool)
        ensures
            r == (self.current_entity is None && has_camera),
    {
        self.current_entity.is_none() && has_camera
    }

    /// Takes note of the shell's entity and its placeholder mesh.
    pub fn spawned(&mut self, mesh: u64, entity: u64)
        ensures
            *final(self) == (HorizonShellRuntime {
                current_mesh: Some(mesh),
                current_entity: Some(entity),
                ..*old(self)
            }),
    {
        self.current_mesh = Some(mesh);
        self.current_entity = Some(entity);
    }

    /// Takes note of the mesh that took the place of the one before, whose slot
    /// was given up in the meantime.
    pub fn replaced_mesh(&mut self, mesh: u64)
        ensures
            *final(self) == (HorizonShellRuntime { current_mesh: Some(mesh), ..*old(self) }),
    {
        self.current_mesh = Some(mesh);
    }

    /// What a frame makes of the shell. A disabled shell drops the mesh that is
    /// being built; an enabled one takes it in when it is there. News of another
    /// build than the one under way changes nothing.
    pub open spec fn synced(self, enabled: bool, news: ShellNews) -> Self {
        if !enabled {
            HorizonShellRuntime { rebuild: None, ..self }
        } else {
            match (self.rebuild, news) {
                (Some(pose), ShellNews::Finished { ticket, digest }) if ticket == self.ticket => {
                    HorizonShellRuntime {
                        rebuild: None,
                        built_for: Some(ShellPose { observer: pose, source_digest: digest }),
                        ..self
                    }
                },
                (Some(_), ShellNews::Lost { ticket }) if ticket == self.ticket => {
                    HorizonShellRuntime { rebuild: None, ..self }
                },
                _ => self,
            }
        }
    }

    /// The news brings the mesh that is being built.
    pub open spec fn awaits(self, news: ShellNews) -> bool {
        self.rebuild is Some && (news matches ShellNews::Finished { ticket, .. } && ticket == self.ticket)
    }

    /// Begins a frame. The shell is shown where it is enabled and a mesh is in
    /// place.
    pub fn sync_horizon_shell(&mut self, enabled: bool, news: ShellNews) -> (r: ShellFrame)
        ensures
            *final(self) == old(self).synced(enabled, news),
            final(self).current_mesh == old(self).current_mesh,
            final(self).current_entity == old(self).current_entity,
            final(self).ticket == old(self).ticket,
            !enabled ==> final(self).rebuild is None && !r.install,
            !r.install ==> final(self).built_for == old(self).built_for,
            r.install <==> enabled && old(self).rebuild is Some && (news matches ShellNews::Finished { ticket, .. }
                && ticket == old(self).ticket),
            r.install ==> final(self).rebuild is None && final(self).built_for == Some(
                ShellPose { observer: old(self).rebuild->0, source_digest: news->digest },
            ),
            enabled && !r.install && (news matches ShellNews::Lost { ticket } && ticket == old(self).ticket)
                ==> final(self).rebuild is None,
            enabled && !r.install && !(news matches ShellNews::Lost { ticket } && ticket == old(self).ticket)
                ==> final(self).rebuild == old(self).rebuild,
            r.visible == (enabled && old(self).built_for is Some),
            r.follow == enabled,
            r.install == (enabled && old(self).awaits(news)),
    {
        let visible: bool = enabled && self.built_for.is_some();
        if !enabled {
            self.rebuild = None;
            return ShellFrame { visible, follow: false, install: false };
        }
        let mut install: bool = false;
        match self.rebuild {
            Some(pose) => match news {
                ShellNews::Finished { ticket, digest } => {
                    if ticket == self.ticket {
                        self.rebuild = None;
                        self.built_for = Some(ShellPose { observer: pose, source_digest: digest });
                        install = true;
                    }
                },
                ShellNews::Pending => {},
                ShellNews::Lost { ticket } => {
                    if ticket == self.ticket {
                        self.rebuild = None;
                    }
                },
            },
            None => {},
        }
        ShellFrame { visible, follow: true, install }
    }

    /// A mesh has to be built: none is being built, and there is none or the
    /// observer has moved too far from where it was built.
    pub open spec fn is_due(&self, drift: Real64, limit: Real64) -> bool {
        self.rebuild is None && (self.built_for is None || limit.less(drift))
    }

    /// The shell with a build under way for `observer`.
    pub open spec fn claimed(self, observer: DVec3) -> Self {
        HorizonShellRuntime {
            rebuild: Some(observer),
            ticket: ticket_after(self.ticket, 1),
            ..self
        }
    }

    /// Ends a frame of an enabled shell: claims a new mesh where one is due,
    /// the active world is known, and there is room between the radii. `drift`
    /// is the observer's distance from where the mesh in place was built.
    /// A ticket means that the caller has to start building, and send the mesh
    /// back with the ticket.
    pub fn claim_rebuild(
        &mut self,
        observer: DVec3,
        drift: Real64,
        limit: Real64,
        has_world: bool,
        inner_radius: Real64,
        outer_radius: Real64,
    ) -> (r: Option<u64>)
        ensures
            r is Some <==> (old(self).is_due(drift, limit) && has_world && !outer_radius.less_or_equal(
                inner_radius,
            )),
            r is Some ==> r == Some(final(self).ticket),
            r is Some <==> old(self).rebuild is None && (old(self).built_for is None || limit.less(drift)) && has_world
                && !outer_radius.less_or_equal(inner_radius),
            r is Some ==> final(self).rebuild == Some(observer) && final(self).ticket != old(self).ticket,
            final(self).built_for == old(self).built_for,
            final(self).current_mesh == old(self).current_mesh,
            final(self).current_entity == old(self).current_entity,
            r is None ==> final(self).rebuild == old(self).rebuild && final(self).ticket == old(self).ticket,
            *final(self) == (if r is Some {
                old(self).claimed(observer)
            } else {
                *old(self)
            }),
    {
        let need: bool = match self.built_for {
            None => self.rebuild.is_none(),
            Some(_) => self.rebuild.is_none() && limit.lt(drift),
        };
        if !need || !has_world {
            return None;
        }
        if outer_radius.le(inner_radius) {
            return None;
        }
        self.rebuild = Some(observer);
        self.ticket = next_ticket(self.ticket);
        Some(self.ticket)
    }
}

/// What happens to the shell.
pub ghost enum ShellEvent {
    Frame { enabled: bool, news: ShellNews },
    /// A build is started.
    Claim(DVec3),
    Replace(u64),
}

/// What an event makes of the shell. A build is started only while none is under
/// way.
pub open spec fn shell_after(shell: HorizonShellRuntime, event: ShellEvent) -> HorizonShellRuntime {
    match event {
        ShellEvent::Frame { enabled, news } => shell.synced(enabled, news),
        ShellEvent::Claim(observer) => if shell.rebuild is None {
            shell.claimed(observer)
        } else {
            shell
        },
        ShellEvent::Replace(mesh) => HorizonShellRuntime { current_mesh: Some(mesh), ..shell },
    }
}

/// `shells` is what the shell is before, between and after `events`.
pub open spec fn is_shell_history(shells: Seq<HorizonShellRuntime>, events: Seq<ShellEvent>) -> bool {
    &&& shells.len() == events.len() + 1
    &&& forall|n: int|
        #![trigger events[n]]
        0 <= n < events.len() ==> shells[n + 1] == shell_after(shells[n], events[n])
}

proof fn lemma_started_since(
    shells: Seq<HorizonShellRuntime>,
    events: Seq<ShellEvent>,
    j: int,
    k: int,
) -> (m: int)
    requires
        is_shell_history(shells, events),
        0 <= j < k <= events.len(),
        events[j] matches ShellEvent::Frame { enabled, .. } && !enabled,
    ensures
        shells[k].rebuild is Some ==> j < m < k && shells[m + 1].ticket == ticket_after(shells[m].ticket, 1),
    decreases k - j,
{
    assert(shells[(k - 1) + 1] == shell_after(shells[k - 1], events[k - 1]));
    if k == j + 1 {
        0
    } else {
        let m = lemma_started_since(shells, events, j, k - 1);
        if shells[k - 1].rebuild is Some {
            m
        } else {
            k - 1
        }
    }
}

/// A mesh whose build was dropped by a disabled frame is never put in place,
/// however late it arrives and whatever was started since, within two to the
/// power of 64 events.
pub proof fn a_dropped_mesh_is_never_installed(
    shells: Seq<HorizonShellRuntime>,
    events: Seq<ShellEvent>,
    i: int,
    j: int,
    k: int,
    enabled: bool,
    digest: u64,
)
    requires
        is_shell_history(shells, events),
        events.len() < 0x1_0000_0000_0000_0000,
        0 <= i < j < k < events.len(),
        events[i] is Claim,
        shells[i].rebuild is None,
        events[j] matches ShellEvent::Frame { enabled, .. } && !enabled,
        events[k] == (ShellEvent::Frame {
            enabled,
            news: ShellNews::Finished { ticket: shells[i + 1].ticket, digest },
        }),
    ensures
        !shells[k].awaits(ShellNews::Finished { ticket: shells[i + 1].ticket, digest }),
        shells[k + 1].built_for == shells[k].built_for,
{
    assert(shells[k + 1] == shell_after(shells[k], events[k]));
    if shells[k].rebuild is Some {
        let m = lemma_started_since(shells, events, j, k);
        let tickets = Seq::new(shells.len(), |n: int| shells[n].ticket);
        assert forall|n: int| 0 <= n < tickets.len() - 1 implies #[trigger] goes_on(tickets, n) by {
            assert(shells[n + 1] == shell_after(shells[n], events[n]));
        }
        assert(is_run(tickets));
        a_ticket_does_not_come_again(tickets, i + 1, m, k);
    }
}

/// What a world's macro state depends on.
#[derive(Clone, Copy, Debug, PartialEq, Eq, Structural)]
pub struct WorldKey {
    pub seed: u64,
    pub shape: WorldShape,
}

/// The shape of a world and its size in meters.
#[derive(Clone, Copy, Debug, PartialEq, Eq, Structural)]
pub enum WorldShape {
    Cube { edge_m: Real64 },
    Sphere { radius_m: Real64 },
}

/// Two sizes are equal as numbers: zeros of either sign are, and what is not a
/// number equals nothing.
pub open spec fn same_size(a: Real64, b: Real64) -> bool {
    a.less_or_equal(b) && b.less_or_equal(a)
}

impl WorldShape {
    /// The shapes are of one kind and of equal size.
    pub open spec fn same(self, other: Self) -> bool {
        match (self, other) {
            (WorldShape::Cube { edge_m: a }, WorldShape::Cube { edge_m: b }) => same_size(a, b),
            (WorldShape::Sphere { radius_m: a }, WorldShape::Sphere { radius_m: b }) => same_size(a, b),
            _ => false,
        }
    }

    /// Whether the shapes are of one kind and of equal size.
    pub fn is_same(self, other: Self) -> (r: bool)
        ensures
            r == self.same(other),
            r ==> (self is Cube <==> other is Cube),
            self is Cube && other is Cube ==> (r <==> self->edge_m.less_or_equal(other->edge_m)
                && other->edge_m.less_or_equal(self->edge_m)),
            self is Sphere && other is Sphere ==> (r <==> self->radius_m.less_or_equal(other->radius_m)
                && other->radius_m.less_or_equal(self->radius_m)),
    {
        match (self, other) {
            (WorldShape::Cube { edge_m: a }, WorldShape::Cube { edge_m: b }) => a.le(b) && b.le(a),
            (WorldShape::Sphere { radius_m: a }, WorldShape::Sphere { radius_m: b }) => a.le(b) && b.le(a),
            _ => false,
        }
    }
}

/// Remembers which world's macro state is cached.
#[derive(Debug)]
pub struct MacroStateProvider {
    pub cached: Option<WorldKey>,
}

impl Default for MacroStateProvider {
    fn default() -> (r: Self)
        ensures
            r.cached is None,
    {
        MacroStateProvider { cached: None }
    }
}

impl MacroStateProvider {
    /// The macro state of a world is cached.
    pub open spec fn knows(&self, seed: u64, shape: WorldShape) -> bool {
        self.cached is Some && self.cached->0.seed == seed && self.cached->0.shape.same(shape)
    }

    /// Whether the macro state of a world has to be computed; it then takes the
    /// place of the one that was cached.
    pub fn get(&mut self, seed: u64, shape: WorldShape) -> (r: bool)
        ensures
            r == !old(self).knows(seed, shape),
            !r <==> old(self).cached is Some && old(self).cached->0.seed == seed && old(self).cached->0.shape.same(shape),
            final(self).cached == (if r {
                Some(WorldKey { seed, shape })
            } else {
                old(self).cached
            }),
    {
        let known: bool = match self.cached {
            Some(k) => k.seed == seed && k.shape.is_same(shape),
            None => false,
        };
        if !known {
            self.cached = Some(WorldKey { seed, shape });
        }
        !known
    }
}

} // verus!
