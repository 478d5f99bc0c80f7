//! Jump Cube: the rules of a small jumping game. The player cube climbs a
//! walled arena of blocks towards a goal block; each goal reached moves the
//! run to the next stage, and after the last stage the ending is shown.
//!
//! This crate holds the game's rules over plain values: stage layouts,
//! stage progression, the player's jump and landing state, and the texts
//! shown on screen. Rendering, input, sound and the floating-point physics
//! are left to the program that drives it.
pub mod define;
pub mod text;
pub mod block;
pub mod state;
