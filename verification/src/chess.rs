pub mod bitboard_util;
pub mod color;
pub mod piece;
pub mod text;
pub mod position;
pub mod direction;
pub mod fen;
pub mod cmove;
pub mod board;
pub mod castle_utils;

pub mod move_executor;
pub mod move_table;
pub mod move_generator;
pub mod validity;
pub mod move_effect;
pub mod reachable;
pub mod move_api;
pub mod geometry;
pub mod attacks;
pub mod fen_round_trip;
