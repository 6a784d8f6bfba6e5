//! Sampling-and-state engine of a terminal resource dashboard.
//!
//! The crate holds the verified core: bounded history windows that feed the
//! charts, cumulative-counter-to-rate conversion for disk I/O, the sort/search
//! state machine for the process table, the process ordering engine, and the
//! unit-scaling logic used to render magnitudes.  Reading the metrics from the
//! operating system and drawing the widgets are left to the surrounding
//! program, which hands this crate plain values.

use vstd::prelude::*;

pub mod app;
pub mod color;
pub mod disk;
pub mod history;
pub mod input;
pub mod lex;
pub mod process;
pub mod text;
pub mod units;

verus! {

/// Number of samples every history window holds at all times.
pub const HISTORY_LEN: usize = 64;

} // verus!
