//! Terrain analysis around a river: distance to water, slope, flatness and the choice of
//! cells where objects can stand, on integer grids with every result proved.

pub mod grid;
pub mod distance;
pub mod placement;
pub mod slope;
pub mod flatness;
pub mod river;
pub mod export;
