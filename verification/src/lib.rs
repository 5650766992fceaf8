//! A fixed-size 2-D grid of optional tile-entity references with two
//! interchangeable backing representations: a dense slot-per-cell vector,
//! or a sparse index-mapped arena that only stores occupied cells.

pub mod helpers;
pub mod map;
pub mod tiles;
