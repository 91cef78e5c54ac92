//! Genome-to-fitness evaluation for evolving return-oriented payloads.
//!
//! A payload is a chromosome of 64-bit words. The modules below hold the
//! chromosome and its genetic operators (`genotype`), the target's memory as
//! the operators see it (`memory`, `word`), the novelty sketches that reward
//! rarely seen behaviour (`sketch`), the record of a run (`profile`,
//! `coverage`), the register pattern (`pattern`), fitness as scores under
//! weights (`score`, `fitness`), the fitness policies (`fitness_functions`),
//! and the staged pipeline that takes an individual from chromosome to score
//! (`creature`, `evaluation`).
//!
//! Random draws and counting bits stand in `chance` and `bits`.
//!
//! Scores are fixed-point numbers. No function panics on the inputs that its
//! `requires` admits. A call into another crate stands in a small function
//! of its own, whose comment says what is believed of the call.

pub mod bits;
pub mod chance;
pub mod config;
pub mod coverage;
pub mod creature;
pub mod evaluation;
pub mod fitness;
pub mod fitness_functions;
pub mod genotype;
pub mod memory;
pub mod pattern;
pub mod profile;
pub mod score;
pub mod sketch;
pub mod word;
