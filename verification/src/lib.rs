//! A falling-sand simulation on a three-dimensional voxel grid.
//!
//! The crate holds the grid and its one-tick update, the extraction of the
//! grid's visible surface as a triangle list, and the choice of the cell that
//! a pointer ray targets. Every function is verified against the contract
//! written on it, but for three small wrappers around calls into `rand` and
//! `egui`, whose contracts are taken on trust and say so.

pub mod color;
pub mod grid;
pub mod laws;
pub mod mesh;
pub mod pick;
pub mod sim;
pub mod surface;
pub mod voxel_manager;
