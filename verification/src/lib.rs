//! Electron-temperature estimation from pairs of spectral emission lines.
//!
//! For each energy threshold and each ordered pair of lines, the temperature
//! is sought at which the ratio of two energy-weighted integrals of
//! cross-section data meets an observed intensity ratio. This crate holds
//! what is discrete in that: the tables and their truncation, the
//! enumeration of pairs, the stopping rule of the iteration and the layout
//! of the report.
//!
//! Every real number that passes through the crate is an IEEE 754 binary64
//! value held by its bit pattern in a `u64`. The crate orders, classifies
//! and routes such values; the arithmetic on them is the caller's.

pub mod binary64;
pub mod pairs;
pub mod report;
pub mod solver;
pub mod table;
