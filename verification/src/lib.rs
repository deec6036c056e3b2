use vstd::prelude::*;

pub mod unordered_triples;
pub mod utils;
pub mod mesh;
pub mod grid_faces;
pub mod marching_squares;
pub mod cylinder_marching_squares;
pub mod uniform_polytwister;
pub mod polytwister;
pub mod adaptive_sampling;

verus! {
} // verus!
