//! Hardware specs and stress-test bookkeeping for a desktop system
//! monitor: parsing what Linux reports about the machine, following CPU
//! usage and sensors, and keeping track of a `stress-ng` run.
use vstd::prelude::*;

pub mod hardware;
pub mod monitor;
pub mod pattern;
pub mod stability;
pub mod stress;
pub mod text;

verus! {

} // verus!
