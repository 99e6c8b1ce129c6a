//! Plate Studio: Chinese licence-plate numbers, their rules, and the state
//! and request logic around generating them.

pub mod text;
pub mod rng;
pub mod clock;
pub mod state;
pub mod encoding;
pub mod api;
pub mod generator;
pub mod ui;
pub mod netutil;
pub mod plate_number;
