use gravity_sim::command::{apply_command, Command};
use gravity_sim::particle::{Particle, MASS_DEFAULT_BITS};
use gravity_sim::state::SimulationState;

fn fadd(a: u64, b: u64) -> u64 {
    (f64::from_bits(a) + f64::from_bits(b)).to_bits()
}

#[test]
fn fresh_state_has_documented_defaults() {
    let state = SimulationState::new();
    assert_eq!(state.particles.len(), 0);
    assert!(!state.pending_anchor);
    assert_eq!(f64::from_bits(state.pending_xv), 0.0);
    assert_eq!(f64::from_bits(state.pending_yv), 0.0);
    assert_eq!(f64::from_bits(state.pending_mass), 10.0);
    assert_eq!(MASS_DEFAULT_BITS, 10.0f64.to_bits());
    assert!(state.running);
}

#[test]
fn new_particle_defaults() {
    let p = Particle::new(4.0f64.to_bits(), 5.0f64.to_bits());
    assert_eq!(f64::from_bits(p.x), 4.0);
    assert_eq!(f64::from_bits(p.y), 5.0);
    assert_eq!(f64::from_bits(p.xv), 0.0);
    assert_eq!(f64::from_bits(p.yv), 0.0);
    assert_eq!(f64::from_bits(p.mass), 10.0);
    assert!(!p.anchor);
    assert_eq!(p.trail.len(), 0);
}

#[test]
fn placement_uses_pending_defaults() {
    let mut state = SimulationState::new();
    apply_command(
        &mut state,
        Command::AdjustPendingVelocity {
            dx: 0.1f64.to_bits(),
            dy: (-0.1f64).to_bits(),
        },
        &fadd,
    );
    apply_command(
        &mut state,
        Command::AdjustPendingMass { dm: 10.0f64.to_bits() },
        &fadd,
    );
    apply_command(&mut state, Command::ToggleAnchorMode, &fadd);
    apply_command(
        &mut state,
        Command::AddParticle { x: 7.0f64.to_bits(), y: 8.0f64.to_bits() },
        &fadd,
    );
    let p = &state.particles[0];
    assert_eq!(f64::from_bits(p.x), 7.0);
    assert_eq!(f64::from_bits(p.y), 8.0);
    assert_eq!(f64::from_bits(p.xv), 0.1);
    assert_eq!(f64::from_bits(p.yv), -0.1);
    assert_eq!(f64::from_bits(p.mass), 20.0);
    assert!(p.anchor);
    assert_eq!(p.trail.len(), 0);
}

#[test]
fn reset_pending_defaults_keeps_anchor_mode() {
    let mut state = SimulationState::new();
    apply_command(&mut state, Command::ToggleAnchorMode, &fadd);
    apply_command(
        &mut state,
        Command::AdjustPendingVelocity {
            dx: 0.1f64.to_bits(),
            dy: 0.1f64.to_bits(),
        },
        &fadd,
    );
    apply_command(
        &mut state,
        Command::AdjustPendingMass { dm: (-10.0f64).to_bits() },
        &fadd,
    );
    apply_command(&mut state, Command::ResetPendingDefaults, &fadd);
    assert_eq!(f64::from_bits(state.pending_xv), 0.0);
    assert_eq!(f64::from_bits(state.pending_yv), 0.0);
    assert_eq!(f64::from_bits(state.pending_mass), 10.0);
    // The anchor placement mode deliberately survives the reset.
    assert!(state.pending_anchor);
}

#[test]
fn clear_removes_everything_unconditionally() {
    let mut state = SimulationState::new();
    apply_command(
        &mut state,
        Command::AddParticle { x: 0, y: 0 },
        &fadd,
    );
    apply_command(
        &mut state,
        Command::AddParticle { x: 1, y: 1 },
        &fadd,
    );
    assert_eq!(state.particles.len(), 2);
    apply_command(&mut state, Command::ClearAll, &fadd);
    assert_eq!(state.particles.len(), 0);
    assert!(state.running);
}

#[test]
fn toggle_running_flips_the_flag() {
    let mut state = SimulationState::new();
    assert!(state.running);
    apply_command(&mut state, Command::ToggleRunning, &fadd);
    assert!(!state.running);
    apply_command(&mut state, Command::ToggleRunning, &fadd);
    assert!(state.running);
    state.set_running(false);
    assert!(!state.running);
}

#[test]
fn persisted_conversions_agree() {
    let mut state = SimulationState::new();
    state.add_particle(
        1.0f64.to_bits(),
        2.0f64.to_bits(),
        3.0f64.to_bits(),
        4.0f64.to_bits(),
        5.0f64.to_bits(),
        true,
    );
    let rec = state.particles[0].to_persisted();
    assert_eq!(rec.x, 1.0f64.to_bits());
    assert_eq!(rec.yv, 4.0f64.to_bits());
    assert!(rec.stationary);
    let back = Particle::from_persisted(rec);
    assert_eq!(back.x, state.particles[0].x);
    assert_eq!(back.mass, state.particles[0].mass);
    assert_eq!(back.anchor, state.particles[0].anchor);
    assert_eq!(back.trail.len(), 0);
}

#[test]
fn negative_mass_is_accepted_verbatim() {
    let mut state = SimulationState::new();
    state.add_particle(0, 0, 0, 0, (-3.5f64).to_bits(), false);
    assert_eq!(f64::from_bits(state.particles[0].mass), -3.5);
}
