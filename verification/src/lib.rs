//! A grid-based puzzle game core: a snake-like chain of segments navigates a
//! tile map containing walls, doors, pressure plates, spikes and an exit.
//!
//! The library is the authoritative state machine of the game: the grid of
//! tiles, the chain of snake segments, the movement engine that grows the
//! chain, the rewind engine that truncates it against a budget, and the
//! plate/door reaction. Rendering, audio and input devices are left to the
//! surrounding program, which drives this core with plain values and reacts
//! to the events it returns.

pub mod door;
pub mod grid;
pub mod input;
pub mod laws;
pub mod level;
pub mod movement;
pub mod rewind;
pub mod snake;
pub mod spike;
