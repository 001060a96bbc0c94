//! Procedural spaceship deck layouts: a seeded random source, room placement
//! along a spine, a proximity graph over the rooms and a spanning forest of it.

pub mod xoshiro;
pub mod rand;
pub mod map;
pub mod sector;
pub mod room;
pub mod params;
pub mod placement;
pub mod graph;
pub mod forest;
pub mod ship;
