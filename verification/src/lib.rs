pub mod api;
pub mod chess;
pub mod game;
