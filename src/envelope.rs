//! Envelope levels and the per-sample envelope recurrence of one voice.
use vstd::prelude::*;

verus! {

/// Full envelope level, and full mix amount: one million parts.
pub const UNIT: i64 = 1_000_000;

/// A level or amount at or below this is inaudible (a ten-thousandth of full).
pub const EPSILON: i64 = 100;

/// Microseconds in one second.
pub const MICROS_PER_SECOND: u64 = 1_000_000;

/// Shortest envelope duration, in microseconds (a millisecond).
pub const DURATION_MIN_US: u32 = 1000;

/// Largest per-sample rate: a one-millisecond ramp at one sample per second
/// covers a thousand full levels in a single sample.
pub const MAX_RATE: i64 = 1_000_000_000;

/// Largest level a voice can hold: just below full level, plus one largest step.
pub const MAX_LEVEL: i64 = 1_001_000_000;

/// One sounding or decaying note.
#[derive(Clone, Copy, Debug, PartialEq, Eq)]
pub struct Voice {
    /// Note number, 69 being A4.
    pub pitch: u8,
    /// Envelope level in millionths of full level.
    pub level: i64,
    /// Whether the note's key has been let go.
    pub released: bool,
}

impl Voice {
    /// Whether the voice is loud enough to be mixed in.
    pub fn audible(&self) -> (r: bool)
        ensures
            r == (self.level > EPSILON),
    {
        self.level > EPSILON
    }
}

/// The voice that a note-on creates: silent, held.
pub open spec fn fresh_voice(pitch: u8) -> Voice {
    Voice { pitch, level: 0, released: false }
}

/// The level after one sample: a held voice below full level rises by the
/// attack rate, a released voice falls by the release rate.
pub open spec fn step_level(v: Voice, attack: int, release: int) -> int {
    if v.released {
        v.level - release
    } else if v.level < UNIT {
        v.level + attack
    } else {
        v.level as int
    }
}

/// The voice after one sample of its envelope.
pub open spec fn step_voice(v: Voice, attack: int, release: int) -> Voice {
    Voice { level: step_level(v, attack, release) as i64, ..v }
}

/// A voice as the engine keeps it between samples.
pub open spec fn voice_in_range(v: Voice) -> bool {
    0 <= v.level <= MAX_LEVEL
}

/// A per-sample rate: a positive step no larger than a one-millisecond ramp at
/// one sample per second makes.
pub open spec fn rate_in_range(rate: int) -> bool {
    1 <= rate <= MAX_RATE
}

/// The voice after `k` samples of its envelope with fixed rates.
pub open spec fn steps(v: Voice, attack: int, release: int, k: nat) -> Voice
    decreases k,
{
    if k == 0 {
        v
    } else {
        step_voice(steps(v, attack, release, (k - 1) as nat), attack, release)
    }
}

/// Per-sample rate for a ramp over `duration_us` at `sample_rate` Hz: full level
/// divided by the number of samples in the ramp, rounded up. A ramp shorter than
/// a sample overshoots full level in its one step.
pub open spec fn rate_for(sample_rate: int, duration_us: int) -> int {
    let samples_scaled = sample_rate * duration_us;
    (UNIT * MICROS_PER_SECOND + samples_scaled - 1) / samples_scaled
}

/// Number of whole samples, rounded up, that a ramp over `duration_us` spans.
pub open spec fn ramp_samples(sample_rate: int, duration_us: int) -> int {
    (sample_rate * duration_us + MICROS_PER_SECOND - 1) / (MICROS_PER_SECOND as int)
}

/// The per-sample envelope step for a ramp of `duration_us` microseconds at
/// `sample_rate` Hz: `(1 / sample_rate) / duration` of full level, rounded up so
/// that the ramp completes within its duration.
pub fn envelope_rate(sample_rate: u32, duration_us: u32) -> (r: i64)
    requires
        sample_rate > 0,
        duration_us >= DURATION_MIN_US,
    ensures
        r == rate_for(sample_rate as int, duration_us as int),
        rate_in_range(r as int),
{
    assert(sample_rate as int * duration_us as int <= u64::MAX) by (nonlinear_arith)
        requires
            sample_rate <= u32::MAX,
            duration_us <= u32::MAX,
    ;
    let samples_scaled: u64 = sample_rate as u64 * duration_us as u64;
    assert(1000 <= samples_scaled) by (nonlinear_arith)
        requires
            samples_scaled == sample_rate as int * duration_us as int,
            sample_rate >= 1,
            duration_us >= 1000,
    ;
    let numerator: u128 = 1_000_000_000_000u128 + samples_scaled as u128 - 1;
    let exact_up: u128 = numerator / samples_scaled as u128;
    assert(1 <= exact_up <= 1_000_000_000) by (nonlinear_arith)
        requires
            exact_up as int == numerator as int / samples_scaled as int,
            numerator == 1_000_000_000_000 + samples_scaled - 1,
            samples_scaled >= 1000,
    ;
    exact_up as i64
}

/// One sample of the envelope, as the engine applies it to each voice.
pub fn step(v: Voice, attack: i64, release: i64) -> (r: Voice)
    requires
        voice_in_range(v),
        rate_in_range(attack as int),
        rate_in_range(release as int),
    ensures
        r == step_voice(v, attack as int, release as int),
{
    if v.released {
        Voice { level: v.level - release, ..v }
    } else if v.level < UNIT {
        Voice { level: v.level + attack, ..v }
    } else {
        v
    }
}

/// A voice starts silent. While it is held its level never falls, and rises by
/// exactly the attack rate for as long as it is below full level; once it is
/// released its level falls by the release rate at every sample.
pub proof fn lemma_envelope_monotone(v: Voice, attack: int, release: int)
    requires
        voice_in_range(v),
        rate_in_range(attack),
        rate_in_range(release),
    ensures
        fresh_voice(v.pitch).level == 0,
        !fresh_voice(v.pitch).released,
        !v.released ==> step_voice(v, attack, release).level >= v.level,
        !v.released && v.level < UNIT ==> step_voice(v, attack, release).level == v.level + attack,
        v.released ==> step_voice(v, attack, release).level == v.level - release,
        v.released ==> step_voice(v, attack, release).level < v.level,
        step_voice(v, attack, release).released == v.released,
        step_voice(v, attack, release).pitch == v.pitch,
{
}

/// A held voice that starts silent stays held, stays below full level plus one
/// step, and after `k` samples has reached at least `k` steps or full level.
pub proof fn lemma_held_progress(pitch: u8, attack: int, release: int, k: nat)
    requires
        rate_in_range(attack),
        rate_in_range(release),
    ensures
        !steps(fresh_voice(pitch), attack, release, k).released,
        0 <= steps(fresh_voice(pitch), attack, release, k).level < UNIT + attack,
        steps(fresh_voice(pitch), attack, release, k).level >= k * attack
            || steps(fresh_voice(pitch), attack, release, k).level >= UNIT,
    decreases k,
{
    if k > 0 {
        lemma_held_progress(pitch, attack, release, (k - 1) as nat);
        let prev = steps(fresh_voice(pitch), attack, release, (k - 1) as nat);
        assert((k - 1) * attack + attack == k * attack) by (nonlinear_arith);
        assert(steps(fresh_voice(pitch), attack, release, k) == step_voice(prev, attack, release));
    }
}

/// With the rate that `envelope_rate` derives from a sample rate and an attack
/// duration, a new held voice reaches full level within the number of samples
/// that the duration spans.
pub proof fn lemma_attack_completes(pitch: u8, sample_rate: u32, duration_us: u32, release: int)
    requires
        sample_rate > 0,
        duration_us >= DURATION_MIN_US,
        rate_in_range(release),
    ensures
        steps(
            fresh_voice(pitch),
            rate_for(sample_rate as int, duration_us as int),
            release,
            ramp_samples(sample_rate as int, duration_us as int) as nat,
        ).level >= UNIT,
{
    let sr = sample_rate as int;
    let d = duration_us as int;
    let a = rate_for(sr, d);
    let n = ramp_samples(sr, d);
    let m = MICROS_PER_SECOND as int;
    let big = UNIT * MICROS_PER_SECOND;
    let scaled = sr * d;
    assert(scaled >= 1000) by (nonlinear_arith)
        requires
            scaled == sr * d,
            sr >= 1,
            d >= 1000,
    ;
    assert(a * scaled >= big && 1 <= a <= 1_000_000_000) by (nonlinear_arith)
        requires
            a == (big + scaled - 1) / scaled,
            big == 1_000_000_000_000,
            scaled >= 1000,
    ;
    assert(n * m >= scaled && n >= 1) by (nonlinear_arith)
        requires
            n == (scaled + m - 1) / m,
            m == 1_000_000,
            scaled >= 1,
    ;
    assert(n * a >= UNIT) by (nonlinear_arith)
        requires
            a * scaled >= big,
            n * m >= scaled,
            n >= 1,
            a >= 1,
            m == 1_000_000,
            big == 1_000_000 * m,
            UNIT == 1_000_000,
    ;
    lemma_held_progress(pitch, a, release, n as nat);
}

} // verus!
