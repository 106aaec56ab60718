use whisper::envelope::{DURATION_MIN_US, UNIT};
use whisper::params::{
    clamp_parameter, parameter_name, MixParameters, SharedParameters, DEFAULT_DURATION_US,
};

#[test]
fn defaults() {
    let p = MixParameters::new();
    assert_eq!(p.get_parameter(0), UNIT as u32);
    for i in 1..10 {
        assert_eq!(p.get_parameter(i), 0);
    }
    assert_eq!(p.get_parameter(10), DEFAULT_DURATION_US);
    assert_eq!(p.get_parameter(11), DEFAULT_DURATION_US);
    assert!(p.is_enabled(0));
    assert!(!p.is_enabled(1));
}

#[test]
fn durations_are_floored() {
    assert_eq!(clamp_parameter(10, 0), DURATION_MIN_US);
    assert_eq!(clamp_parameter(11, 5), DURATION_MIN_US);
    assert_eq!(clamp_parameter(11, 250_000), 250_000);
}

#[test]
fn amounts_are_capped() {
    assert_eq!(clamp_parameter(4, 2_000_000), UNIT as u32);
    assert_eq!(clamp_parameter(4, 300), 300);
    assert_eq!(clamp_parameter(12, 300), 0);
    assert_eq!(clamp_parameter(-1, 300), 0);
}

#[test]
fn set_and_get_by_index() {
    let mut p = MixParameters::new();
    p.set_parameter(7, 123_456);
    p.set_parameter(10, 0);
    let before = p;
    p.set_parameter(40, 9);
    assert_eq!(p, before);
    assert_eq!(p.get_parameter(7), 123_456);
    assert_eq!(p.get_parameter(10), DURATION_MIN_US);
    assert_eq!(p.get_parameter(40), 0);
}

#[test]
fn names() {
    assert_eq!(parameter_name(0), "White");
    assert_eq!(parameter_name(4), "RidgedMulti");
    assert_eq!(parameter_name(9), "BasicMulti");
    assert_eq!(parameter_name(10), "Attack");
    assert_eq!(parameter_name(11), "Release");
    assert_eq!(parameter_name(12), "");
}

#[test]
fn rates_follow_durations() {
    let mut p = MixParameters::new();
    p.set_parameter(10, 1_000_000);
    p.set_parameter(11, 2_000_000);
    assert_eq!(p.attack_rate(1000), 1000);
    assert_eq!(p.release_rate(1000), 500);
}

#[test]
fn shared_cells_snapshot() {
    let shared = SharedParameters::new(&MixParameters::new());
    shared.set_parameter(2, 700_000);
    shared.set_parameter(11, 1);
    shared.set_parameter(0, 5_000_000);
    let s = shared.snapshot();
    assert_eq!(s.amounts[2], 700_000);
    assert_eq!(s.amounts[0], UNIT as u32);
    assert_eq!(s.release_us, DURATION_MIN_US);
    assert_eq!(shared.get_parameter(2), 700_000);
    assert_eq!(shared.get_parameter(99), 0);
}
