//! xMahjong: the game logic of a Mahjong solitaire game, verified.
//!
//! The board and its freeness rules, solvable deals, play (selection, undo,
//! shuffle, hints), the level system, the clocks and their displays, saved
//! records, and the decisions around input, sound and start-up.

pub mod audio;
pub mod board;
pub mod calendar;
pub mod clock;
pub mod dispatch;
pub mod display;
pub mod effects;
pub mod game_state;
pub mod generator;
pub mod input;
pub mod levels;
pub mod logic;
pub mod menu;
pub mod play;
pub mod rng;
pub mod session;
pub mod startup;
pub mod storage;
pub mod text;
pub mod timer;
pub mod version;
