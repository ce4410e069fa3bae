//! A hexagonal rail network and the trains that run on it: hex geometry,
//! the double-track rail graph, train trails, coupling and uncoupling,
//! driving, crash policy and the save-game document.

pub mod tilemap;
pub mod railroad;
pub mod trains;
pub mod trainbuilder;
pub mod driving;
pub mod collisions;
pub mod savegame;
