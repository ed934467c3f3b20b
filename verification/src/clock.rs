//! The wall clock, as far as an evaluation needs it.
//!
//! The library holds elapsed time as the bit pattern of a single-precision
//! number of seconds, and never computes with it.

use std::time::{Duration, Instant};
use vstd::prelude::*;

verus! {

/// `std::time::Instant`, carried through as it is.
#[verifier::external_type_specification]
#[verifier::external_body]
pub struct ExInstant(Instant);

/// `Instant::now`: the present moment. Nothing is claimed of it.
#[verifier::external_body]
pub(crate) fn now() -> (t: Instant) {
    Instant::now()
}

/// `Instant::elapsed`: the time gone by since `start`. Nothing is claimed of
/// it.
#[verifier::external_body]
pub(crate) fn elapsed(start: &Instant) -> (d: Duration) {
    start.elapsed()
}

/// `Duration::as_secs_f32`: the seconds of `d` in single precision, handed on
/// as their bit pattern. Nothing is claimed of it.
#[verifier::external_body]
pub(crate) fn seconds(d: &Duration) -> (bits: u32) {
    d.as_secs_f32().to_bits()
}

} // verus!
