//! A tiling terminal multiplexer's core: a cell grid, the VT parser that drives
//! it, terminal windows with their mouse and keyboard handling, the window
//! stack, and the frame renderer.

pub mod grid;
pub mod parser;
pub mod window;
pub mod screen;
pub mod render;
pub mod replay;
