//! Converts a rhythm-game chart in the compact line-oriented SSF notation
//! into a structured XML sequence description for a playback engine.
//!
//! The pipeline: the loader (`parse`) drives the note codec (`note`) and
//! builds the chart grid (`grid`); the waypoint resolver (`resolver`)
//! reconnects each hold/slide/skid start to its waypoints and terminator;
//! the emitter (`emit`) turns every event into a step record with times
//! from the timing model (`timing`); and `xml` assembles the output
//! document from those records.

pub mod note;
pub mod timing;
pub mod grid;
pub mod parse;
pub mod resolver;
pub mod emit;
pub mod xml;
