//! Tabu search for the symmetric travelling salesman problem on integer
//! points in the plane.

pub mod geometry;
pub mod tour;
pub mod error;
mod random;
pub mod neighborhood;
pub mod tabu;
pub mod search;
