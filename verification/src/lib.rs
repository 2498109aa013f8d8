//! A small grid raycaster: the framebuffer, the maze, the bitmap font,
//! the colour rules and the game's state machine, with their contracts.
pub mod palette;
pub mod framebuffer;
pub mod text;
pub mod maze;
pub mod render;
pub mod game;
