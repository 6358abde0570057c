//! Dual-role key engine for the X Window System: a key that acts as a
//! modifier while held and as another key when tapped alone.

pub mod context;
pub mod error;
pub mod args;
pub mod state;
pub mod runner;
pub mod xutil;
pub mod laws;
