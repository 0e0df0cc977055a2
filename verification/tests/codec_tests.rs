use gravity_sim::codec::{decode, encode, SnapshotError};
use gravity_sim::state::SimulationState;

fn add(state: &mut SimulationState, x: f64, y: f64, xv: f64, yv: f64, mass: f64, anchor: bool) {
    state.add_particle(
        x.to_bits(),
        y.to_bits(),
        xv.to_bits(),
        yv.to_bits(),
        mass.to_bits(),
        anchor,
    );
}

fn record_text(x: f64, y: f64, xv: f64, yv: f64, anchor: bool, mass: f64) -> String {
    format!(
        "{{\"x\":{},\"y\":{},\"xv\":{},\"yv\":{},\"stationary\":{},\"mass\":{}}}",
        x.to_bits(),
        y.to_bits(),
        xv.to_bits(),
        yv.to_bits(),
        anchor,
        mass.to_bits()
    )
}

#[test]
fn encode_empty_list() {
    let state = SimulationState::new();
    assert_eq!(state.save_snapshot(), b"[]".to_vec());
}

#[test]
fn encode_has_exact_shape() {
    let mut state = SimulationState::new();
    add(&mut state, 1.5, -2.0, 0.25, 0.0, 10.0, true);
    let expected = format!("[{}]", record_text(1.5, -2.0, 0.25, 0.0, true, 10.0));
    assert_eq!(String::from_utf8(state.save_snapshot()).unwrap(), expected);
}

#[test]
fn round_trip_zero_one_many() {
    let cases: Vec<Vec<(f64, f64, f64, f64, f64, bool)>> = vec![
        vec![],
        vec![(0.0, 0.0, 0.0, 0.0, 10.0, false)],
        vec![
            (1.25, -7.5, 0.001, 1e30, 10.0, false),
            (-0.0, 3.75, -12.5, 0.0, -4.0, true),
            (2.0, 2.0, 0.0, -0.125, 0.0, false),
        ],
    ];
    for case in cases {
        let mut state = SimulationState::new();
        for &(x, y, xv, yv, mass, anchor) in &case {
            add(&mut state, x, y, xv, yv, mass, anchor);
        }
        let bytes = state.save_snapshot();
        let records = decode(&bytes).expect("decode of an encoding");
        assert_eq!(records.len(), case.len());
        for (rec, &(x, y, xv, yv, mass, anchor)) in records.iter().zip(case.iter()) {
            assert_eq!(rec.x, x.to_bits());
            assert_eq!(rec.y, y.to_bits());
            assert_eq!(rec.xv, xv.to_bits());
            assert_eq!(rec.yv, yv.to_bits());
            assert_eq!(rec.mass, mass.to_bits());
            assert_eq!(rec.stationary, anchor);
        }
    }
}

#[test]
fn round_trip_preserves_every_bit_pattern() {
    let mut state = SimulationState::new();
    state.add_particle(
        f64::NAN.to_bits(),
        f64::INFINITY.to_bits(),
        f64::NEG_INFINITY.to_bits(),
        (-0.0f64).to_bits(),
        f64::MIN_POSITIVE.to_bits() >> 5,
        false,
    );
    let bytes = state.save_snapshot();
    let records = decode(&bytes).expect("decode of an encoding");
    assert_eq!(records[0].x, f64::NAN.to_bits());
    assert_eq!(records[0].y, f64::INFINITY.to_bits());
    assert_eq!(records[0].xv, f64::NEG_INFINITY.to_bits());
    assert_eq!(records[0].yv, (-0.0f64).to_bits());
    assert_eq!(records[0].mass, f64::MIN_POSITIVE.to_bits() >> 5);
}

#[test]
fn malformed_snapshots_are_parse_errors() {
    let cases: Vec<&[u8]> = vec![
        b"",
        b"[",
        b"]",
        b"{}",
        b"[{}]",
        b"[{\"x\":1}]",
        b"[{\"x\":1,\"y\":2,\"xv\":3,\"yv\":4,\"stationary\":maybe,\"mass\":5}]",
        b"[{\"x\":1,\"y\":2,\"xv\":3,\"yv\":4,\"stationary\":true,\"mass\":5}",
        b"[{\"x\":1,\"y\":2,\"xv\":3,\"yv\":4,\"stationary\":true,\"mass\":5}] ",
        b"[{\"x\":1,\"y\":2,\"xv\":3,\"yv\":4,\"stationary\":true,\"mass\":5},]",
        b"[{\"x\":99999999999999999999999,\"y\":2,\"xv\":3,\"yv\":4,\"stationary\":true,\"mass\":5}]",
        b"[{\"x\":1.5,\"y\":2,\"xv\":3,\"yv\":4,\"stationary\":true,\"mass\":5}]",
    ];
    for case in cases {
        match decode(case) {
            Err(SnapshotError::ParseError) => {}
            other => panic!("expected a parse error for {:?}, got {:?}", case, other),
        }
    }
}

#[test]
fn decode_accepts_handwritten_snapshot() {
    let text = format!(
        "[{},{}]",
        record_text(0.0, 0.0, 0.0, 0.0, true, 10.0),
        record_text(100.0, 0.0, 0.0, 0.0, false, 10.0)
    );
    let records = decode(text.as_bytes()).expect("well-formed snapshot");
    assert_eq!(records.len(), 2);
    assert!(records[0].stationary);
    assert!(!records[1].stationary);
    assert_eq!(records[1].x, 100.0f64.to_bits());
}

#[test]
fn load_replaces_state_and_pauses() {
    let mut donor = SimulationState::new();
    add(&mut donor, 3.0, 4.0, 0.5, -0.5, 20.0, false);
    add(&mut donor, -1.0, 2.0, 0.0, 0.0, 10.0, true);
    let bytes = donor.save_snapshot();

    let mut state = SimulationState::new();
    add(&mut state, 9.0, 9.0, 9.0, 9.0, 9.0, false);
    assert!(state.running);
    state.load_snapshot(Some(&bytes)).expect("load");
    assert!(!state.running);
    assert_eq!(state.particles.len(), 2);
    assert_eq!(f64::from_bits(state.particles[0].x), 3.0);
    assert_eq!(f64::from_bits(state.particles[0].mass), 20.0);
    assert!(state.particles[1].anchor);
    for p in &state.particles {
        assert_eq!(p.trail.len(), 0);
    }
}

#[test]
fn failed_read_is_io_error_and_leaves_state() {
    let mut state = SimulationState::new();
    add(&mut state, 1.0, 2.0, 3.0, 4.0, 5.0, false);
    let before = state.save_snapshot();
    match state.load_snapshot(None) {
        Err(SnapshotError::IoError) => {}
        other => panic!("expected an io error, got {:?}", other),
    }
    assert!(state.running);
    assert_eq!(state.save_snapshot(), before);
}

#[test]
fn failed_parse_leaves_state() {
    let mut state = SimulationState::new();
    add(&mut state, 1.0, 2.0, 3.0, 4.0, 5.0, false);
    let before = state.save_snapshot();
    match state.load_snapshot(Some(b"not a snapshot")) {
        Err(SnapshotError::ParseError) => {}
        other => panic!("expected a parse error, got {:?}", other),
    }
    assert_eq!(state.save_snapshot(), before);
    assert!(state.running);
}
