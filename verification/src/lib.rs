//! Edge-matching tile puzzle: board rules, screen layout and pointer handling.

pub mod kmath;
pub mod text;
pub mod rect;
pub mod level;
pub mod gui;
pub mod application;
pub mod levels;
pub mod editor;
