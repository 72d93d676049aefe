//! Klondike solitaire: the card model, the zones of the table, the rules that
//! move cards between them, and the quads handed to a renderer.
//!
//! Everything here works on whole numbers. Positions are units of a virtual
//! screen centred on the origin with the y axis pointing up; time is counted
//! in nanoseconds. Drawing, sound, the window and the clock are left to the
//! program around this library.

pub mod geometry;
pub mod card;
pub mod zone;
pub mod model;
pub mod counting;
pub mod laws;
pub mod shuffle;
pub mod game;
pub mod render;
pub mod census;
