//! A linear-genetic-programming core, verified end to end: register-machine
//! programs — fixed-length register files, two-operand instructions with
//! dual addressing modes, and a unique-maximum classification rule — evolved
//! by a driver that evaluates, ranks, selects, and refills a
//! capacity-bounded population generation by generation.
//!
//! Floating values are carried as monotone 64-bit order codes, so every
//! comparison the logic makes is total and exact; the floating arithmetic of
//! the operation registry, dataset input, and process plumbing live outside
//! the library and hand plain values in.

pub mod algorithm;
pub mod chromosomes;
pub mod common_traits;
pub mod display;
pub mod errors;
pub mod population;
pub mod program;
pub mod registers;
pub mod rng;
