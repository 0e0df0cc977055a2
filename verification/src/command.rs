use vstd::prelude::*;

use crate::particle::{PersistedParticle, MASS_DEFAULT_BITS};
use crate::state::{fresh_particle, SimulationState};

verus! {

/// A discrete command issued by the input collaborator.  Scalars are double
/// bit patterns, as everywhere in the core.
#[derive(Clone, Copy, Debug)]
pub enum Command {
    /// Place a particle at the given position using the pending defaults.
    AddParticle { x: u64, y: u64 },
    /// Remove every particle.
    ClearAll,
    /// Flip the running flag.
    ToggleRunning,
    /// Flip the anchor placement mode.
    ToggleAnchorMode,
    /// Nudge the pending velocity by the given deltas.
    AdjustPendingVelocity { dx: u64, dy: u64 },
    /// Nudge the pending mass by the given delta.
    AdjustPendingMass { dm: u64 },
    /// Reset the pending mass and velocity to their defaults.
    ResetPendingDefaults,
}

/// The state after a placement command: one particle appended, made from the
/// position and the pending defaults, everything else untouched.
pub open spec fn placed(pre: SimulationState, post: SimulationState, x: u64, y: u64) -> bool {
    &&& post.particles@.len() == pre.particles@.len() + 1
    &&& forall|i: int| 0 <= i < pre.particles@.len() ==> post.particles@[i] == pre.particles@[i]
    &&& fresh_particle(
        post.particles@.last(),
        PersistedParticle {
            x,
            y,
            xv: pre.pending_xv,
            yv: pre.pending_yv,
            stationary: pre.pending_anchor,
            mass: pre.pending_mass,
        },
    )
    &&& post.pending_anchor == pre.pending_anchor
    &&& post.pending_xv == pre.pending_xv
    &&& post.pending_yv == pre.pending_yv
    &&& post.pending_mass == pre.pending_mass
    &&& post.running == pre.running
}

/// Dispatch one command to the state mutation it names.  The addition on
/// double bit patterns is supplied by the caller and is only consulted by the
/// two adjustment commands.
pub fn apply_command<FAdd: Fn(u64, u64) -> u64>(
    state: &mut SimulationState,
    cmd: Command,
    fadd: &FAdd,
)
    requires
        old(state).wf(),
        forall|a: u64, b: u64| call_requires(*fadd, (a, b)),
    ensures
        final(state).wf(),
        match cmd {
            Command::AddParticle { x, y } => placed(*old(state), *final(state), x, y),
            Command::ClearAll => final(state).particles@ =~= Seq::<
                crate::particle::Particle,
            >::empty() && (*final(state) == (SimulationState {
                particles: final(state).particles,
                ..*old(state)
            })),
            Command::ToggleRunning => *final(state) == (SimulationState {
                running: !old(state).running,
                ..*old(state)
            }),
            Command::ToggleAnchorMode => *final(state) == (SimulationState {
                pending_anchor: !old(state).pending_anchor,
                ..*old(state)
            }),
            Command::AdjustPendingVelocity { dx, dy } => {
                &&& call_ensures(*fadd, (old(state).pending_xv, dx), final(state).pending_xv)
                &&& call_ensures(*fadd, (old(state).pending_yv, dy), final(state).pending_yv)
                &&& *final(state) == (SimulationState {
                    pending_xv: final(state).pending_xv,
                    pending_yv: final(state).pending_yv,
                    ..*old(state)
                })
            },
            Command::AdjustPendingMass { dm } => {
                &&& call_ensures(*fadd, (old(state).pending_mass, dm), final(state).pending_mass)
                &&& *final(state) == (SimulationState {
                    pending_mass: final(state).pending_mass,
                    ..*old(state)
                })
            },
            Command::ResetPendingDefaults => *final(state) == (SimulationState {
                pending_xv: 0,
                pending_yv: 0,
                pending_mass: MASS_DEFAULT_BITS,
                ..*old(state)
            }),
        },
{
    match cmd {
        Command::AddParticle { x, y } => state.place_at(x, y),
        Command::ClearAll => state.clear(),
        Command::ToggleRunning => state.toggle_running(),
        Command::ToggleAnchorMode => state.toggle_anchor_mode(),
        Command::AdjustPendingVelocity { dx, dy } => state.adjust_pending_velocity(dx, dy, fadd),
        Command::AdjustPendingMass { dm } => state.adjust_pending_mass(dm, fadd),
        Command::ResetPendingDefaults => state.reset_pending_defaults(),
    }
}

} // verus!
