pub mod chess_api;
