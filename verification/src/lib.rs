//! Conway's Game of Life in a window: the rules of the game, the geometry of the
//! picture, the choice of a graphics device and the reaction to window events.

pub mod single;
pub mod layout;
pub mod grid;
pub mod life;
pub mod render;
pub mod device;
pub mod game;
