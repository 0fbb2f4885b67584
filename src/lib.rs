//! Renders the indentation silhouette of a source tree: discovery of files,
//! extraction of per-line indentation offsets, and the plan of a layered plot.
use vstd::prelude::*;

pub mod file_obtainer;
pub mod offset_calculator;
pub mod plotter;

verus! {

} // verus!
