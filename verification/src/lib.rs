use vstd::prelude::*;

pub mod model;
pub mod grid_model;
mod rng;
pub mod field;
pub mod session;

verus! {

/// Number of single-cell ships placed on each side's grid; a side whose
/// score reaches this count has destroyed every enemy ship.
pub const SHIP_COUNT: i32 = 7;

} // verus!
