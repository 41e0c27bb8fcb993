//! Processor timing support.
//!
//! The loader has no calibrated time source: busy waits are derived
//! from a nominal clock frequency and the time-stamp counter.  Reading
//! the counter and spinning on it are hardware operations performed by
//! the embedding program; the conversion from durations to cycle counts
//! is here.

use vstd::prelude::*;

verus! {

/// The nominal clock frequency, in Hertz, assumed when none has been
/// measured.
pub const DEFAULT_HZ: u64 = 2_000_000_000;

/// Returns the clock frequency of the current CPU in Hertz.
pub fn frequency() -> (r: u64)
    ensures
        r == DEFAULT_HZ,
{
    DEFAULT_HZ
}

/// How many cycles of the nominal clock make up `ns` nanoseconds.
pub fn cycles_for_nanos(ns: u64) -> (r: u64)
    requires
        ns <= 0x7FFF_FFFF_FFFF_FFFFu64 / 2,
    ensures
        r == ns as int * DEFAULT_HZ / 1_000_000_000,
        r == ns * 2,
    {
    proof {
        let n = ns as int;
        assert(n * 2_000_000_000 == (n * 2) * 1_000_000_000) by (nonlinear_arith);
        vstd::arithmetic::div_mod::lemma_div_by_multiple(n * 2, 1_000_000_000);
    }
    ns * 2
}

} // verus!
