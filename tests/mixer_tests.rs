use whisper::envelope::{Voice, EPSILON, UNIT};
use whisper::mixer::{mix_sample, voice_contribution, white_reading, NOISE_ONE, SAMPLE_ONE};
use whisper::params::MixParameters;

#[test]
fn white_reading_spans_the_range() {
    assert_eq!(white_reading(0), -NOISE_ONE);
    assert_eq!(white_reading(u32::MAX), NOISE_ONE);
    assert_eq!(white_reading(0x8000_0000), 0);
}

#[test]
fn contribution_of_one_source() {
    let mut p = MixParameters::new();
    p.set_parameter(0, 0);
    p.set_parameter(3, 250_000);
    let v = Voice { pitch: 60, level: 400_000, released: false };
    let r = [0, 0, 0, 2000, 0, 0, 0, 0, 0, 0];
    assert_eq!(voice_contribution(&v, &p, &r), 2000i128 * 100_000);
}

#[test]
fn inaudible_voice_adds_nothing() {
    let p = MixParameters::new();
    let v = Voice { pitch: 60, level: EPSILON, released: true };
    let r = [NOISE_ONE; 10];
    assert_eq!(voice_contribution(&v, &p, &r), 0);
}

#[test]
fn amount_at_threshold_adds_nothing() {
    let mut p = MixParameters::new();
    p.set_parameter(0, EPSILON as u32);
    let v = Voice { pitch: 60, level: UNIT, released: false };
    let r = [NOISE_ONE; 10];
    assert_eq!(voice_contribution(&v, &p, &r), 0);
}

#[test]
fn voices_are_summed_without_normalisation() {
    let p = MixParameters::new();
    let v = Voice { pitch: 60, level: UNIT, released: false };
    let voices = vec![v, v, v];
    let rows = vec![[NOISE_ONE, 0, 0, 0, 0, 0, 0, 0, 0, 0]; 3];
    assert_eq!(mix_sample(&voices, &p, &rows), 3 * SAMPLE_ONE);
}

#[test]
fn no_voices_mix_to_zero() {
    let p = MixParameters::new();
    assert_eq!(mix_sample(&Vec::new(), &p, &Vec::new()), 0);
}

#[test]
fn weight_rounds_down() {
    let mut p = MixParameters::new();
    p.set_parameter(0, 333_333);
    let v = Voice { pitch: 60, level: 700_001, released: false };
    let r = [10, 0, 0, 0, 0, 0, 0, 0, 0, 0];
    // 333333 * 700001 / 1000000 = 233333.43...
    assert_eq!(voice_contribution(&v, &p, &r), 10 * 233_333);
}
