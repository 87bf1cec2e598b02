//! Core of a falling-block puzzle game: the playing field, the piece under
//! control with its rotation rules, the piece queue, garbage rows and the
//! tick-driven game state machine.

pub mod mino;
pub mod field;
pub mod controlled_mino;
pub mod random_source;
pub mod next_generator;
pub mod garbage_block_generator;
pub mod game_master;

