//! A verified core for two-player turn-based games recorded as hash-linked
//! chains of move entries: turn-order and chain-pointer validation, state
//! reconstruction by replay, and a chess instantiation of the rules.
pub mod records;
pub mod rules;
pub mod chain;
pub mod validate;
pub mod reconstruct;
pub mod chess_game;
