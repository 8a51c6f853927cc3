use vstd::prelude::*;

pub mod display;
pub mod history;
pub mod pattern;
pub mod registry;
pub mod report;
pub mod scheduler;

pub use pattern::{PatternError, PatternGroup, PlotKind};

verus! {

/// Entry point for setting up metric collection.
pub struct PlotlyRecorderBuilder {}

impl PlotlyRecorderBuilder {
    pub fn new() -> (r: Self) {
        PlotlyRecorderBuilder {  }
    }
}

impl Default for PlotlyRecorderBuilder {
    fn default() -> (r: Self) {
        Self::new()
    }
}

} // verus!
