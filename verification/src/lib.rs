//! A rules and search engine for Capablanca-family chess variants.
pub mod ai;
pub mod attack;
pub mod board;
pub mod chess_match;
pub mod client;
pub mod fen;
pub mod fen_round_trip;
pub mod game;
pub mod hub;
pub mod legal;
pub mod menu;
pub mod movegen;
pub mod multiplayer;
pub mod mv;
pub mod position;
pub mod protocol;
pub mod rules;
pub mod search;
pub mod server;
pub mod text;
pub mod types;
pub mod variant;
pub mod view_state;
