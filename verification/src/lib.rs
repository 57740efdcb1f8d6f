//! Core logic of a bar-simulation game: taps are routed to colored or mixing
//! outputs, a scheduler dispenses colored drops, generated orders are assigned
//! to idle taps, poured liquid is evaluated against each order's recipe, and a
//! failure state machine ends the session after too many failed orders.
//!
//! Everything here works on plain values (integer color channels, millisecond
//! timers, entity ids); the host engine delivers events (key presses, collision
//! starts, frame deltas) and carries out the returned decisions.

pub mod assign;
pub mod color;
pub mod controls;
pub mod game;
pub mod orders;
pub mod rng;
pub mod tap_state;
pub mod taps;
pub mod timer;
