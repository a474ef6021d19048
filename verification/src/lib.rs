//! A discrete-time simulation of groups of point particles in a fixed box.
//!
//! The particles of a group share mass, colour and radius. A group feels an
//! inverse-square force from every group that its interaction map names; the
//! particles bounce off the walls of the box from minus one to one. One tick
//! derives a whole new world from the current one.
//!
//! All numbers are fixed-point scalars (see [`fixed`]), so a run is the same
//! on every machine, and every function is defined on every input.
//!
//! - [`fixed`]: scalars, their arithmetic and square roots.
//! - [`vec2`]: vectors in the plane, their length and direction.
//! - [`particle`]: one particle, and how it moves and bounces.
//! - [`group`]: groups of particles, and the forces between groups.
//! - [`world`]: the tick, and the world that a run starts from.
//! - [`render`]: colours and requests to draw.
//! - [`random`]: the random draws, which other crates make.

pub mod fixed;
pub mod group;
pub mod particle;
pub mod random;
pub mod render;
pub mod vec2;
pub mod world;
