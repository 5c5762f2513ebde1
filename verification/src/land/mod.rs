pub mod grid;
pub mod landscape_diff;
