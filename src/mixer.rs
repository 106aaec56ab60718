//! Accumulation of noise readings into one sample: for every voice and every
//! enabled source, the reading scaled by the source's amount and the voice's level.
use vstd::prelude::*;
use crate::envelope::{UNIT, EPSILON, MAX_LEVEL, Voice, voice_in_range};
use crate::params::{MixParameters, SOURCE_COUNT};

verus! {

/// A noise reading of 1.0.
pub const NOISE_ONE: i32 = 32768;

/// Largest magnitude of a reading the mixer takes: 16.0, room enough for
/// sources whose range is only approximately [-1, 1].
pub const READING_LIMIT: i32 = 524_288;

/// A sample of 1.0: a reading of 1.0 at full amount and full level.
pub const SAMPLE_ONE: i128 = 32_768_000_000;

/// Largest contribution of one voice, in sample units: ten sources, each at
/// most a reading of `READING_LIMIT` at full amount and the largest level.
pub const VOICE_BOUND: i128 = 5_248_245_760_000_000;

/// Relies on rand::random::<u32>, which draws from the thread-local generator;
/// nothing is known of the value beyond its type.
#[verifier::external_body]
fn random_u32() -> u32 {
    rand::random::<u32>()
}

/// A reading the mixer takes.
pub open spec fn reading_in_range(x: int) -> bool {
    -READING_LIMIT <= x <= READING_LIMIT
}

/// A reading between -1.0 and 1.0.
pub open spec fn reading_within_one(x: int) -> bool {
    -NOISE_ONE <= x <= NOISE_ONE
}

/// Every reading of a voice, one per source, lies in range.
pub open spec fn readings_in_range(r: [i32; 10]) -> bool {
    forall|s: int| 0 <= s < SOURCE_COUNT ==> reading_in_range(#[trigger] r[s] as int)
}

/// Every reading of a voice lies between -1.0 and 1.0.
pub open spec fn readings_within_one(r: [i32; 10]) -> bool {
    forall|s: int| 0 <= s < SOURCE_COUNT ==> reading_within_one(#[trigger] r[s] as int)
}

/// The white-noise reading that a uniform 32-bit draw stands for: the draw
/// scaled onto `[-NOISE_ONE, NOISE_ONE]`.
pub open spec fn white_of(draw: int) -> int {
    (draw * (2 * NOISE_ONE + 1)) / 0x1_0000_0000 - NOISE_ONE
}

/// The weight of a reading: amount times level, in millionths of full level.
pub open spec fn weight(level: int, amount: int) -> int {
    (amount * level) / (UNIT as int)
}

/// What one source adds for one voice: nothing unless both the source's amount
/// and the voice's level are above the inaudible threshold.
pub open spec fn term(level: int, amount: int, reading: int) -> int {
    if amount > EPSILON && level > EPSILON {
        reading * weight(level, amount)
    } else {
        0
    }
}

/// What the first `n` sources add for voice `v`.
pub open spec fn voice_sum(v: Voice, p: MixParameters, r: [i32; 10], n: int) -> int
    decreases n,
{
    if n <= 0 {
        0
    } else {
        voice_sum(v, p, r, n - 1) + term(v.level as int, p.amounts[n - 1] as int, r[n - 1] as int)
    }
}

/// The sample that the first `n` voices make, each with its own readings.
pub open spec fn mix_prefix(vs: Seq<Voice>, p: MixParameters, rs: Seq<[i32; 10]>, n: int) -> int
    decreases n,
{
    if n <= 0 {
        0
    } else {
        mix_prefix(vs, p, rs, n - 1) + voice_sum(vs[n - 1], p, rs[n - 1], SOURCE_COUNT as int)
    }
}

/// The sample that all voices make: the sum over voices and sources, with no
/// normalisation by their number.
pub open spec fn mix(vs: Seq<Voice>, p: MixParameters, rs: Seq<[i32; 10]>) -> int {
    mix_prefix(vs, p, rs, vs.len() as int)
}

/// How many of the first `n` sources are enabled.
pub open spec fn enabled_count(p: MixParameters, n: int) -> int
    decreases n,
{
    if n <= 0 {
        0
    } else {
        enabled_count(p, n - 1) + if p.enabled(n - 1) { 1int } else { 0int }
    }
}

/// The white-noise reading for a uniform 32-bit draw.
pub fn white_reading(draw: u32) -> (r: i32)
    ensures
        r == white_of(draw as int),
        reading_within_one(r as int),
{
    proof {
        let d = draw as int;
        assert(0 <= d * 65537 <= 0xffff_ffff * 65537) by (nonlinear_arith)
            requires
                0 <= d <= 0xffff_ffff,
        ;
        assert(0 <= (d * 65537) / 0x1_0000_0000 <= 65536) by (nonlinear_arith)
            requires
                0 <= d * 65537 <= 0xffff_ffff * 65537,
        ;
    }
    let scaled: u64 = draw as u64 * (2 * NOISE_ONE as u64 + 1);
    ((scaled / 0x1_0000_0000u64) as i64 - NOISE_ONE as i64) as i32
}

/// A fresh white-noise reading.
pub fn draw_white() -> (r: i32)
    ensures
        reading_within_one(r as int),
{
    white_reading(random_u32())
}

proof fn lemma_weight_bound(level: int, amount: int)
    requires
        0 <= level,
        0 <= amount <= UNIT,
    ensures
        0 <= weight(level, amount) <= level,
{
    assert(0 <= (amount * level) / (UNIT as int) <= level) by (nonlinear_arith)
        requires
            0 <= level,
            0 <= amount <= 1_000_000,
            UNIT == 1_000_000,
    ;
}

proof fn lemma_term_bound(level: int, amount: int, reading: int)
    requires
        0 <= level <= MAX_LEVEL,
        0 <= amount <= UNIT,
        reading_in_range(reading),
    ensures
        -READING_LIMIT * MAX_LEVEL <= term(level, amount, reading) <= READING_LIMIT * MAX_LEVEL,
{
    lemma_weight_bound(level, amount);
    let w = weight(level, amount);
    assert(-READING_LIMIT * MAX_LEVEL <= reading * w <= READING_LIMIT * MAX_LEVEL) by (nonlinear_arith)
        requires
            0 <= w <= MAX_LEVEL,
            -READING_LIMIT <= reading <= READING_LIMIT,
    ;
}

proof fn lemma_voice_sum_bound(v: Voice, p: MixParameters, r: [i32; 10], n: int)
    requires
        voice_in_range(v),
        p.wf(),
        readings_in_range(r),
        0 <= n <= SOURCE_COUNT,
    ensures
        -n * READING_LIMIT * MAX_LEVEL <= voice_sum(v, p, r, n) <= n * READING_LIMIT * MAX_LEVEL,
    decreases n,
{
    if n > 0 {
        lemma_voice_sum_bound(v, p, r, n - 1);
        assert(reading_in_range(r[n - 1] as int));
        assert(p.amounts[n - 1] <= UNIT);
        lemma_term_bound(v.level as int, p.amounts[n - 1] as int, r[n - 1] as int);
    }
}

/// What voice `v` adds to the sample, given its readings `r`.
pub fn voice_contribution(v: &Voice, p: &MixParameters, r: &[i32; 10]) -> (s: i128)
    requires
        voice_in_range(*v),
        p.wf(),
        readings_in_range(*r),
    ensures
        s == voice_sum(*v, *p, *r, SOURCE_COUNT as int),
        -VOICE_BOUND <= s <= VOICE_BOUND,
{
    let mut acc: i128 = 0;
    let mut i: usize = 0;
    while i < SOURCE_COUNT
        invariant
            i <= SOURCE_COUNT,
            voice_in_range(*v),
            p.wf(),
            readings_in_range(*r),
            acc == voice_sum(*v, *p, *r, i as int),
        decreases SOURCE_COUNT - i,
    {
        proof {
            lemma_voice_sum_bound(*v, *p, *r, i as int);
            assert(reading_in_range(r[i as int] as int));
            assert(p.amounts[i as int] <= UNIT);
            lemma_term_bound(v.level as int, p.amounts[i as int] as int, r[i as int] as int);
        }
        let amount = p.amounts[i];
        if amount as i64 > EPSILON && v.level > EPSILON {
            assert(amount * v.level <= UNIT * MAX_LEVEL) by (nonlinear_arith)
                requires
                    0 <= amount <= UNIT,
                    0 <= v.level <= MAX_LEVEL,
            ;
            let w: u64 = (amount as u64 * v.level as u64) / UNIT as u64;
            proof {
                lemma_weight_bound(v.level as int, amount as int);
            }
            let t: i128 = r[i] as i128 * w as i128;
            acc = acc + t;
        }
        i = i + 1;
    }
    proof {
        lemma_voice_sum_bound(*v, *p, *r, SOURCE_COUNT as int);
    }
    acc
}

/// The first `n` sources of a voice add up to the white-noise term alone when
/// no other source is audible.
proof fn lemma_only_white(v: Voice, p: MixParameters, r: [i32; 10], n: int)
    requires
        1 <= n <= SOURCE_COUNT,
        forall|s: int| 1 <= s < SOURCE_COUNT ==> #[trigger] p.amounts[s] <= EPSILON,
    ensures
        voice_sum(v, p, r, n) == term(v.level as int, p.amounts[0] as int, r[0] as int),
    decreases n,
{
    if n > 1 {
        lemma_only_white(v, p, r, n - 1);
        assert(p.amounts[n - 1] <= EPSILON);
    } else {
        assert(voice_sum(v, p, r, 0) == 0);
    }
}

/// One voice at full level, with white noise at full amount and no other source
/// audible, makes its white reading at full amount and level: a sample within
/// [-1, 1].
pub proof fn lemma_single_white_voice(v: Voice, p: MixParameters, r: [i32; 10])
    requires
        p.wf(),
        v.level == UNIT,
        p.amounts[0] == UNIT,
        forall|s: int| 1 <= s < SOURCE_COUNT ==> #[trigger] p.amounts[s] <= EPSILON,
        reading_within_one(r[0] as int),
    ensures
        mix(seq![v], p, seq![r]) == r[0] * UNIT,
        -SAMPLE_ONE <= mix(seq![v], p, seq![r]) <= SAMPLE_ONE,
{
    lemma_only_white(v, p, r, SOURCE_COUNT as int);
    assert(mix_prefix(seq![v], p, seq![r], 0) == 0);
    assert(seq![v][0] == v);
    assert(seq![r][0] == r);
    assert(weight(UNIT as int, UNIT as int) == UNIT) by (nonlinear_arith)
        requires
            UNIT == 1_000_000,
    ;
    let x = r[0] as int;
    assert(-SAMPLE_ONE <= x * UNIT <= SAMPLE_ONE) by (nonlinear_arith)
        requires
            -32768 <= x <= 32768,
            UNIT == 1_000_000,
            SAMPLE_ONE == 32_768_000_000,
    ;
}

proof fn lemma_voice_sum_within_sources(v: Voice, p: MixParameters, r: [i32; 10], n: int)
    requires
        0 <= v.level <= UNIT,
        p.wf(),
        readings_within_one(r),
        0 <= n <= SOURCE_COUNT,
    ensures
        -enabled_count(p, n) * SAMPLE_ONE <= voice_sum(v, p, r, n) <= enabled_count(p, n) * SAMPLE_ONE,
    decreases n,
{
    if n > 0 {
        lemma_voice_sum_within_sources(v, p, r, n - 1);
        let amount = p.amounts[n - 1] as int;
        let x = r[n - 1] as int;
        assert(reading_within_one(x));
        assert(amount <= UNIT);
        lemma_weight_bound(v.level as int, amount);
        let w = weight(v.level as int, amount);
        assert(-SAMPLE_ONE <= x * w <= SAMPLE_ONE) by (nonlinear_arith)
            requires
                0 <= w <= 1_000_000,
                -32768 <= x <= 32768,
                SAMPLE_ONE == 32_768_000_000,
        ;
    }
}

proof fn lemma_mix_prefix_within_sources(vs: Seq<Voice>, p: MixParameters, rs: Seq<[i32; 10]>, n: int)
    requires
        p.wf(),
        0 <= n <= vs.len(),
        vs.len() == rs.len(),
        forall|i: int| 0 <= i < vs.len() ==> 0 <= #[trigger] vs[i].level <= UNIT,
        forall|i: int| 0 <= i < rs.len() ==> readings_within_one(#[trigger] rs[i]),
    ensures
        -n * (enabled_count(p, SOURCE_COUNT as int) * SAMPLE_ONE) <= mix_prefix(vs, p, rs, n)
            <= n * (enabled_count(p, SOURCE_COUNT as int) * SAMPLE_ONE),
    decreases n,
{
    if n > 0 {
        lemma_mix_prefix_within_sources(vs, p, rs, n - 1);
        assert(0 <= vs[n - 1].level <= UNIT);
        assert(readings_within_one(rs[n - 1]));
        lemma_voice_sum_within_sources(vs[n - 1], p, rs[n - 1], SOURCE_COUNT as int);
        let c = enabled_count(p, SOURCE_COUNT as int) * SAMPLE_ONE;
        assert((n - 1) * c + c == n * c && -(n - 1) * c - c == -n * c) by (nonlinear_arith);
    }
}

/// With any parameters in range, which is all that a snapshot of the shared
/// parameter cells can hold whatever is written to them meanwhile, voices at
/// most at full level and readings within [-1, 1], the sample lies within the
/// number of voices times the number of enabled sources.
pub proof fn lemma_mix_bounded(vs: Seq<Voice>, p: MixParameters, rs: Seq<[i32; 10]>)
    requires
        p.wf(),
        vs.len() == rs.len(),
        forall|i: int| 0 <= i < vs.len() ==> 0 <= #[trigger] vs[i].level <= UNIT,
        forall|i: int| 0 <= i < rs.len() ==> readings_within_one(#[trigger] rs[i]),
    ensures
        -vs.len() * (enabled_count(p, SOURCE_COUNT as int) * SAMPLE_ONE) <= mix(vs, p, rs)
            <= vs.len() * (enabled_count(p, SOURCE_COUNT as int) * SAMPLE_ONE),
{
    lemma_mix_prefix_within_sources(vs, p, rs, vs.len() as int);
}

proof fn lemma_mix_prefix_bound(vs: Seq<Voice>, p: MixParameters, rs: Seq<[i32; 10]>, n: int)
    requires
        p.wf(),
        0 <= n <= vs.len(),
        vs.len() == rs.len(),
        forall|i: int| 0 <= i < vs.len() ==> voice_in_range(#[trigger] vs[i]),
        forall|i: int| 0 <= i < rs.len() ==> readings_in_range(#[trigger] rs[i]),
    ensures
        -n * VOICE_BOUND <= mix_prefix(vs, p, rs, n) <= n * VOICE_BOUND,
    decreases n,
{
    if n > 0 {
        lemma_mix_prefix_bound(vs, p, rs, n - 1);
        assert(voice_in_range(vs[n - 1]));
        assert(readings_in_range(rs[n - 1]));
        lemma_voice_sum_bound(vs[n - 1], p, rs[n - 1], SOURCE_COUNT as int);
    }
}

/// The sample that `voices` make with their readings, one row per voice.
pub fn mix_sample(voices: &Vec<Voice>, p: &MixParameters, readings: &Vec<[i32; 10]>) -> (s: i128)
    requires
        p.wf(),
        voices.len() == readings.len(),
        forall|i: int| 0 <= i < voices.len() ==> voice_in_range(#[trigger] voices[i]),
        forall|i: int| 0 <= i < readings.len() ==> readings_in_range(#[trigger] readings[i]),
    ensures
        s == mix(voices@, *p, readings@),
{
    let mut acc: i128 = 0;
    let mut i: usize = 0;
    while i < voices.len()
        invariant
            i <= voices.len(),
            p.wf(),
            voices.len() == readings.len(),
            forall|k: int| 0 <= k < voices.len() ==> voice_in_range(#[trigger] voices[k]),
            forall|k: int| 0 <= k < readings.len() ==> readings_in_range(#[trigger] readings[k]),
            acc == mix_prefix(voices@, *p, readings@, i as int),
        decreases voices.len() - i,
    {
        proof {
            lemma_mix_prefix_bound(voices@, *p, readings@, i as int);
            assert(i * VOICE_BOUND <= usize::MAX * VOICE_BOUND) by (nonlinear_arith)
                requires
                    i <= usize::MAX,
            ;
        }
        let c = voice_contribution(&voices[i], p, &readings[i]);
        acc = acc + c;
        i = i + 1;
    }
    acc
}

} // verus!
