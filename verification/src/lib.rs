pub mod counting;
pub mod game;
pub mod laws;
pub mod tui;
pub mod util;
