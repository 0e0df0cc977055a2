use gravity_sim::particle::TRAIL_CAP;
use gravity_sim::physics::{tick, PairAccel, PairInput};
use gravity_sim::state::SimulationState;

const G: f64 = 0.006674;

fn fadd(a: u64, b: u64) -> u64 {
    (f64::from_bits(a) + f64::from_bits(b)).to_bits()
}

fn pair_accel(inp: PairInput) -> PairAccel {
    let xi = f64::from_bits(inp.xi);
    let yi = f64::from_bits(inp.yi);
    let xj = f64::from_bits(inp.xj);
    let yj = f64::from_bits(inp.yj);
    let mi = f64::from_bits(inp.mi);
    let mj = f64::from_bits(inp.mj);
    let dx = xj - xi;
    let dy = yj - yi;
    let r = (dx * dx + dy * dy).sqrt();
    let angle = dy.atan2(dx);
    let mag = G * (mj * mi) / r / mi;
    PairAccel {
        dist: r.to_bits(),
        dvx: (mag * angle.cos()).to_bits(),
        dvy: (mag * angle.sin()).to_bits(),
    }
}

fn step(state: &mut SimulationState) {
    tick(state, &pair_accel, &fadd);
}

fn add(state: &mut SimulationState, x: f64, y: f64, xv: f64, yv: f64, mass: f64, anchor: bool) {
    state.add_particle(
        x.to_bits(),
        y.to_bits(),
        xv.to_bits(),
        yv.to_bits(),
        mass.to_bits(),
        anchor,
    );
}

#[test]
fn velocity_change_matches_force_formula() {
    let mut state = SimulationState::new();
    add(&mut state, 0.0, 0.0, 0.0, 0.0, 10.0, false);
    add(&mut state, 100.0, 0.0, 0.0, 0.0, 20.0, false);
    step(&mut state);
    // Force on the first particle from the second: r = 100, angle = 0.
    let expected_a = G * (20.0 * 10.0) / 100.0 / 10.0;
    let vxa = f64::from_bits(state.particles[0].xv);
    let vya = f64::from_bits(state.particles[0].yv);
    assert!((vxa - expected_a).abs() < 1e-12, "vxa = {vxa}");
    assert!(vya.abs() < 1e-12);
    // Force on the second from the first: r = 100, angle = pi.
    let expected_b = G * (10.0 * 20.0) / 100.0 / 20.0;
    let vxb = f64::from_bits(state.particles[1].xv);
    assert!((vxb + expected_b).abs() < 1e-12, "vxb = {vxb}");
}

#[test]
fn anchor_never_moves_and_keeps_no_trail() {
    let mut state = SimulationState::new();
    add(&mut state, 5.0, -3.0, 0.0, 0.0, 50.0, true);
    add(&mut state, 100.0, 0.0, 1.0, 0.0, 10.0, false);
    for _ in 0..200 {
        step(&mut state);
    }
    let a = &state.particles[0];
    assert_eq!(f64::from_bits(a.x), 5.0);
    assert_eq!(f64::from_bits(a.y), -3.0);
    assert_eq!(f64::from_bits(a.xv), 0.0);
    assert_eq!(f64::from_bits(a.yv), 0.0);
    assert_eq!(a.trail.len(), 0);
    // The non-anchor was pulled by the anchor all along.
    assert!(f64::from_bits(state.particles[1].xv) < 1.0);
}

#[test]
fn non_anchor_feels_force_from_anchor() {
    let mut state = SimulationState::new();
    add(&mut state, 0.0, 0.0, 0.0, 0.0, 10.0, true);
    add(&mut state, 100.0, 0.0, 0.0, 0.0, 10.0, false);
    step(&mut state);
    // The free particle gains a leftward velocity, toward the anchor.
    assert!(f64::from_bits(state.particles[1].xv) < 0.0);
    // The anchor is unchanged.
    assert_eq!(f64::from_bits(state.particles[0].x), 0.0);
    assert_eq!(f64::from_bits(state.particles[0].xv), 0.0);
}

#[test]
fn trail_is_bounded_and_front_is_prior_position() {
    let mut state = SimulationState::new();
    add(&mut state, 0.0, 0.0, 1.5, -0.5, 10.0, false);
    let mut prior = (0.0f64, 0.0f64);
    for k in 0..60 {
        let before = (
            f64::from_bits(state.particles[0].x),
            f64::from_bits(state.particles[0].y),
        );
        step(&mut state);
        prior = before;
        let len = state.particles[0].trail.len();
        assert!(len <= TRAIL_CAP);
        assert_eq!(len, (k + 1).min(TRAIL_CAP));
    }
    assert_eq!(state.particles[0].trail.len(), TRAIL_CAP);
    let front = state.particles[0].trail[0];
    assert_eq!(f64::from_bits(front.0), prior.0);
    assert_eq!(f64::from_bits(front.1), prior.1);
}

#[test]
fn paused_simulation_is_frozen() {
    let mut state = SimulationState::new();
    add(&mut state, 0.0, 0.0, 0.0, 0.0, 10.0, false);
    add(&mut state, 1.0, 2.0, 3.0, 4.0, 10.0, false);
    state.set_running(false);
    let before: Vec<(u64, u64, u64, u64, usize)> = state
        .particles
        .iter()
        .map(|p| (p.x, p.y, p.xv, p.yv, p.trail.len()))
        .collect();
    for _ in 0..10 {
        step(&mut state);
    }
    let after: Vec<(u64, u64, u64, u64, usize)> = state
        .particles
        .iter()
        .map(|p| (p.x, p.y, p.xv, p.yv, p.trail.len()))
        .collect();
    assert_eq!(before, after);
    assert!(!state.running);
}

#[test]
fn coincident_pair_exerts_no_force() {
    let mut state = SimulationState::new();
    add(&mut state, 0.0, 0.0, 0.0, 0.0, 10.0, false);
    add(&mut state, 0.0, 0.0, 0.0, 0.0, 10.0, false);
    step(&mut state);
    for p in state.particles.iter() {
        assert_eq!(f64::from_bits(p.xv), 0.0);
        assert_eq!(f64::from_bits(p.yv), 0.0);
        assert!(f64::from_bits(p.x).is_finite());
        assert!(!f64::from_bits(p.xv).is_nan());
    }
}

#[test]
fn end_to_end_anchor_attracts_free_particle() {
    let mut state = SimulationState::new();
    assert_eq!(state.particles.len(), 0);
    add(&mut state, 0.0, 0.0, 0.0, 0.0, 10.0, true);
    add(&mut state, 100.0, 0.0, 0.0, 0.0, 10.0, false);
    step(&mut state);
    let b = &state.particles[1];
    assert!(f64::from_bits(b.xv) < 0.0);
    let a = &state.particles[0];
    assert_eq!(f64::from_bits(a.x), 0.0);
    assert_eq!(f64::from_bits(a.y), 0.0);
}
