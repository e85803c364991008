//! Particle life: many particles of a few cultures in a rectangular world,
//! where every particle is drawn to or driven from every other one within a
//! fixed distance, with a strength that depends on the two cultures alone.
//!
//! All numbers are fixed-point (`fixed`), so that every tick is the same on
//! every machine and sums of forces do not depend on their order. A world
//! (`sim`) is made from a configuration (`config`, `founding`) and advanced
//! tick by tick: forces are computed by the Barnes-Hut approximation over one
//! quadtree to a culture (`qt`, `query`), pair by pair, or over a uniform grid
//! (`grid`, `neighbors`, `grid_force`); then every particle is damped, turned
//! at the walls and moved (`particle`). What holds of every tick is proved in
//! `laws` and `exact`.

pub mod clock;
pub mod config;
pub mod culture;
pub mod exact;
pub mod fixed;
pub mod founding;
pub mod gpu;
pub mod grid;
pub mod grid_force;
pub mod kernel;
pub mod laws;
pub mod mesh;
pub mod neighbors;
pub mod particle;
pub mod qt;
pub mod query;
pub mod sim;
pub mod sums;
pub mod util;
pub mod vector;
pub mod views;
