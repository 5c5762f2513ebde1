//! Verified core of a landscape merging tool for TES3 plugins.
use vstd::prelude::*;

pub mod cli;
pub mod config;
pub mod io;
pub mod land;
pub mod merge;
pub mod path;
pub mod repair;
pub mod term_style;
pub mod text;

verus! {
} // verus!
