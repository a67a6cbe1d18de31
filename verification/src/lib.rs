pub mod text;
pub mod protocol;
pub mod lobby;
pub mod rps;
pub mod pd;
pub mod ttt;
pub mod xiangqi;
pub mod poker;
pub mod holdem;
pub mod chess;
pub mod playground;
pub mod xiangqi_bot;
pub mod chess_bot;
pub mod poker_bot;
pub mod jog;
pub mod game;
pub mod ttt_match;
pub mod rps_match;
pub mod pd_match;
pub mod capacity;
pub mod config;
pub mod room;
pub mod submission;
pub mod socket;
pub mod sandbox;
pub mod poker_chips;
