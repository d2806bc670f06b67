//! A toy evolutionary search: a population of random character genomes
//! evolves toward a fixed target phrase under fitness-proportional
//! selection, single-point crossover, and per-character mutation.
//!
//! Fitness is kept as an exact integer score (the number of genome
//! positions matching the target); the conventional fitness fraction is
//! `score / target_len`. Probabilities are integer numerators over
//! [`RATE_DENOM`] parts, so every rule of the search is stated and proved
//! over exact arithmetic.

use vstd::prelude::*;

pub mod dna;
pub mod population;
pub mod rng;

verus! {

/// Denominator of every probability in this crate: a rate `r` stands for
/// the probability `r / RATE_DENOM`, so `RATE_DENOM` itself is certainty.
pub const RATE_DENOM: u64 = 1000000;

} // verus!
