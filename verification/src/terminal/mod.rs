//! Terminal panes: cells, rows of text, styled output, captures and the engine.
use vstd::prelude::*;

pub mod capture;
pub mod cell;
pub mod composer;
pub mod engine;
pub mod row;
pub mod screen;
pub mod snapshot;
pub mod style;
pub mod transcript;

verus! {

} // verus!
