//! Rules of a small arcade: a pipe-dodging game, a grid snake, the menu that
//! starts them and the score table they feed.
//!
//! Everything here is game logic over integers; the one thing taken from
//! outside is chance. Drawing, input devices, the clock and the score file
//! belong to the program that embeds this crate; it hands events in and paints
//! what the state describes.

pub mod game_menu;
pub mod games;
pub mod geometry;
pub mod grid;
pub mod input;
pub mod leaderboard;
pub mod random;
pub mod score_file;
pub mod score_round_trip;
