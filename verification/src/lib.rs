//! A verified tic-tac-toe engine: a generalized N x N board, win/draw rules,
//! and an unbeatable move-selection strategy (minimax with alpha-beta
//! pruning), together with the player types built on them.

pub mod board;
pub mod game;
pub mod player;
pub mod presenter;
pub mod rules;
pub mod script;
pub mod setup;
pub mod token;
pub mod ui;

pub use token::Token;
