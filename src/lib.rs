//! Signal core of a polyphonic noise instrument: a pool of voices driven by a
//! linear attack/release envelope, and a mixer that blends noise readings into
//! one sample per frame. Levels, amounts and samples are fixed-point integers.
use vstd::prelude::*;

pub mod envelope;
pub mod params;
pub mod mixer;
pub mod engine;

verus! {

} // verus!
