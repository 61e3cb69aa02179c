//! A bounded playfield of moving dots that build up, emit and pass on charge.
//!
//! Every quantity is a fixed-point integer: positions, velocities and radii
//! count millionths of a world unit, charge levels count millionths of a full
//! charge.

pub mod charge;
pub mod config;
pub mod controls;
pub mod geometry;
pub mod index;
pub mod motion;
pub mod population;
pub mod render;
pub mod simulation;
pub mod update;
