//! The two games and the state machine that switches between them.

pub mod flappy_bird;
pub mod snake;
pub mod game_state;
