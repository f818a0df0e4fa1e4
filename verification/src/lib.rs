//! Game rules of "Fever": program and overlay state machines, the level
//! registry, scoring and win/lose flow, input decisions and world setup
//! bookkeeping, each stated over plain values and proved.

pub mod states;
pub mod text;
pub mod level_state;
pub mod span;
pub mod game;
pub mod logic;
pub mod gui;
pub mod world;
pub mod skycache;
pub mod animation;
