//! Tick-by-tick simulation of a bounded arena: one avatar steered by
//! directional input, a fixed set of roamers that bounce off the walls, and
//! contact between the avatar and any roamer ending the session.
//!
//! All quantities are integers. Lengths are thousandths of a pixel, speeds
//! are length units per second, elapsed time is in microseconds, and a
//! direction is a vector whose unit length is `DIR_ONE`.

pub mod geometry;
pub mod entities;
pub mod systems;
pub mod arena;
