//! Index-level core of a frame-based formant and pitch analyser.
//!
//! The numerical stages (windowing, autocorrelation, Levinson-Durbin,
//! frequency response, root angles, YIN) work on real samples. What this
//! crate states and proves is the part of them that does not depend on the
//! arithmetic: which samples a stage reads, in which order it overwrites
//! them, and how its results are laid out.
use vstd::prelude::*;

pub mod formant;
pub mod lpc;
pub mod signal;

verus! {

} // verus!
