//! The session model and the terminal engine of a terminal workspace manager.
use vstd::prelude::*;

pub mod app;
pub mod config;
pub mod docks;
pub mod geometry;
pub mod grouping;
pub mod ids;
pub mod layout;
pub mod menus;
pub mod paths;
pub mod popup;
pub mod ring;
pub mod selection;
pub mod status;
pub mod terminal;
pub mod text;
pub mod workspace;

verus! {

} // verus!
