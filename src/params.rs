//! Mix amounts and envelope durations: a plain snapshot that the renderer reads,
//! and a set of independently atomic cells that a control surface writes.
use vstd::prelude::*;
use std::sync::atomic::{AtomicU32, Ordering};
use crate::envelope::{UNIT, EPSILON, DURATION_MIN_US, envelope_rate, rate_for, rate_in_range};

verus! {

/// Number of noise sources; source 0 is white noise, the others are noise fields.
pub const SOURCE_COUNT: usize = 10;

/// Number of parameters: one mix amount per source, then attack and release.
pub const PARAMETER_COUNT: i32 = 12;

/// Parameter index of the attack duration.
pub const ATTACK_INDEX: i32 = 10;

/// Parameter index of the release duration.
pub const RELEASE_INDEX: i32 = 11;

/// Envelope duration of a new instrument, in microseconds.
pub const DEFAULT_DURATION_US: u32 = 500_000;

/// The value that a parameter takes when `value` is written to it: a mix amount
/// is at most full, a duration at least a millisecond, an unknown index holds 0.
pub open spec fn clamped_value(index: int, value: int) -> int {
    if 0 <= index < SOURCE_COUNT {
        if value > UNIT { UNIT as int } else { value }
    } else if index == ATTACK_INDEX || index == RELEASE_INDEX {
        if value < DURATION_MIN_US { DURATION_MIN_US as int } else { value }
    } else {
        0
    }
}

/// Clamps a value written to parameter `index` into that parameter's range.
pub fn clamp_parameter(index: i32, value: u32) -> (r: u32)
    ensures
        r == clamped_value(index as int, value as int),
{
    if 0 <= index && index < SOURCE_COUNT as i32 {
        if value > UNIT as u32 { UNIT as u32 } else { value }
    } else if index == ATTACK_INDEX || index == RELEASE_INDEX {
        if value < DURATION_MIN_US { DURATION_MIN_US } else { value }
    } else {
        0
    }
}

/// The display name of parameter `index`; empty for an unknown index.
pub open spec fn name_of(index: int) -> Seq<char> {
    if index == 0 { "White"@ }
    else if index == 1 { "Perlin"@ }
    else if index == 2 { "Value"@ }
    else if index == 3 { "Worley"@ }
    else if index == 4 { "RidgedMulti"@ }
    else if index == 5 { "OpenSimplex"@ }
    else if index == 6 { "Billow"@ }
    else if index == 7 { "Cylinders"@ }
    else if index == 8 { "HybridMulti"@ }
    else if index == 9 { "BasicMulti"@ }
    else if index == 10 { "Attack"@ }
    else if index == 11 { "Release"@ }
    else { ""@ }
}

/// The display name of parameter `index`.
pub fn parameter_name(index: i32) -> (r: &'static str)
    ensures
        r@ == name_of(index as int),
{
    match index {
        0 => "White",
        1 => "Perlin",
        2 => "Value",
        3 => "Worley",
        4 => "RidgedMulti",
        5 => "OpenSimplex",
        6 => "Billow",
        7 => "Cylinders",
        8 => "HybridMulti",
        9 => "BasicMulti",
        10 => "Attack",
        11 => "Release",
        _ => "",
    }
}

/// The values the renderer reads for one sample: a mix amount per source, in
/// millionths, and the attack and release durations, in microseconds.
#[derive(Clone, Copy, Debug, PartialEq, Eq)]
pub struct MixParameters {
    pub amounts: [u32; 10],
    pub attack_us: u32,
    pub release_us: u32,
}

impl MixParameters {
    /// Every amount is at most full, and both durations at least a millisecond.
    pub open spec fn wf(&self) -> bool {
        &&& forall|i: int| 0 <= i < SOURCE_COUNT ==> #[trigger] self.amounts[i] <= UNIT
        &&& self.attack_us >= DURATION_MIN_US
        &&& self.release_us >= DURATION_MIN_US
    }

    /// The value of parameter `index`; 0 for an unknown index.
    pub open spec fn parameter(&self, index: int) -> int {
        if 0 <= index < SOURCE_COUNT {
            self.amounts[index] as int
        } else if index == ATTACK_INDEX {
            self.attack_us as int
        } else if index == RELEASE_INDEX {
            self.release_us as int
        } else {
            0
        }
    }

    /// Whether source `source` is mixed in at all.
    pub open spec fn enabled(&self, source: int) -> bool {
        self.amounts[source] > EPSILON
    }

    /// White noise at full amount, every noise field off, half-second envelope.
    pub fn new() -> (r: MixParameters)
        ensures
            r.wf(),
            r.amounts[0] == UNIT,
            forall|i: int| 1 <= i < SOURCE_COUNT ==> #[trigger] r.amounts[i] == 0,
            r.attack_us == DEFAULT_DURATION_US,
            r.release_us == DEFAULT_DURATION_US,
    {
        MixParameters {
            amounts: [UNIT as u32, 0, 0, 0, 0, 0, 0, 0, 0, 0],
            attack_us: DEFAULT_DURATION_US,
            release_us: DEFAULT_DURATION_US,
        }
    }

    /// The value of parameter `index`.
    pub fn get_parameter(&self, index: i32) -> (r: u32)
        ensures
            r == self.parameter(index as int),
    {
        if 0 <= index && index < SOURCE_COUNT as i32 {
            self.amounts[index as usize]
        } else if index == ATTACK_INDEX {
            self.attack_us
        } else if index == RELEASE_INDEX {
            self.release_us
        } else {
            0
        }
    }

    /// Writes `value`, clamped, to parameter `index`; an unknown index changes nothing.
    pub fn set_parameter(&mut self, index: i32, value: u32)
        requires
            old(self).wf(),
        ensures
            final(self).wf(),
            forall|i: int| 0 <= i < PARAMETER_COUNT ==> #[trigger] final(self).parameter(i) == if i == index {
                clamped_value(index as int, value as int)
            } else {
                old(self).parameter(i)
            },
            !(0 <= index < PARAMETER_COUNT) ==> *final(self) == *old(self),
    {
        let v = clamp_parameter(index, value);
        if 0 <= index && index < SOURCE_COUNT as i32 {
            self.amounts[index as usize] = v;
        } else if index == ATTACK_INDEX {
            self.attack_us = v;
        } else if index == RELEASE_INDEX {
            self.release_us = v;
        }
    }

    /// Whether source `source` is mixed in: its amount is above the inaudible threshold.
    pub fn is_enabled(&self, source: usize) -> (r: bool)
        requires
            source < SOURCE_COUNT,
        ensures
            r == self.enabled(source as int),
    {
        self.amounts[source] as i64 > EPSILON
    }

    /// Per-sample attack step at `sample_rate` Hz.
    pub fn attack_rate(&self, sample_rate: u32) -> (r: i64)
        requires
            self.wf(),
            sample_rate > 0,
        ensures
            r == rate_for(sample_rate as int, self.attack_us as int),
            rate_in_range(r as int),
    {
        envelope_rate(sample_rate, self.attack_us)
    }

    /// Per-sample release step at `sample_rate` Hz.
    pub fn release_rate(&self, sample_rate: u32) -> (r: i64)
        requires
            self.wf(),
            sample_rate > 0,
        ensures
            r == rate_for(sample_rate as int, self.release_us as int),
            rate_in_range(r as int),
    {
        envelope_rate(sample_rate, self.release_us)
    }
}

/// Parameter values shared between a control surface and the renderer: each
/// value is an atomic cell of its own, written and read without a lock, so a
/// reader sees for each parameter some value that was written whole.
pub struct SharedParameters {
    cells: [AtomicU32; 12],
}

impl SharedParameters {
    /// Cells that hold the values of `p`.
    pub fn new(p: &MixParameters) -> (r: SharedParameters) {
        SharedParameters {
            cells: [
                AtomicU32::new(p.amounts[0]),
                AtomicU32::new(p.amounts[1]),
                AtomicU32::new(p.amounts[2]),
                AtomicU32::new(p.amounts[3]),
                AtomicU32::new(p.amounts[4]),
                AtomicU32::new(p.amounts[5]),
                AtomicU32::new(p.amounts[6]),
                AtomicU32::new(p.amounts[7]),
                AtomicU32::new(p.amounts[8]),
                AtomicU32::new(p.amounts[9]),
                AtomicU32::new(p.attack_us),
                AtomicU32::new(p.release_us),
            ],
        }
    }

    /// Stores `value`, clamped into the parameter's range, in cell `index`; an
    /// unknown index changes nothing.
    pub fn set_parameter(&self, index: i32, value: u32) {
        if 0 <= index && index < PARAMETER_COUNT {
            let v = clamp_parameter(index, value);
            self.cells[index as usize].store(v, Ordering::Relaxed);
        }
    }

    /// The value in cell `index`, within the parameter's range; 0 for an unknown index.
    pub fn get_parameter(&self, index: i32) -> (r: u32)
        ensures
            clamped_value(index as int, r as int) == r,
            !(0 <= index < PARAMETER_COUNT) ==> r == 0,
    {
        if 0 <= index && index < PARAMETER_COUNT {
            let v = self.cells[index as usize].load(Ordering::Relaxed);
            clamp_parameter(index, v)
        } else {
            0
        }
    }

    /// Reads every cell once into a snapshot for the renderer. Whatever values
    /// other threads are writing meanwhile, the snapshot is within range.
    pub fn snapshot(&self) -> (r: MixParameters)
        ensures
            r.wf(),
    {
        let mut amounts: [u32; 10] = [0, 0, 0, 0, 0, 0, 0, 0, 0, 0];
        let mut i: usize = 0;
        while i < SOURCE_COUNT
            invariant
                i <= SOURCE_COUNT,
                forall|j: int| 0 <= j < i ==> #[trigger] amounts[j] <= UNIT,
            decreases SOURCE_COUNT - i,
        {
            amounts[i] = self.get_parameter(i as i32);
            i = i + 1;
        }
        let attack_us = self.get_parameter(ATTACK_INDEX);
        let release_us = self.get_parameter(RELEASE_INDEX);
        MixParameters { amounts, attack_us, release_us }
    }
}

} // verus!
