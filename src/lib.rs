//! A chess rule engine together with the room history and the coordinator
//! logic of a shared, multiplayer chess board.
pub mod castle_rules;
pub mod class_list;
pub mod chess_board;
pub mod enums;
pub mod events;
pub mod messages;
pub mod moves;
pub mod notification;
pub mod passants;
pub mod position;
pub mod room;
pub mod rules;
pub mod server;
pub mod session;
pub mod stone;
pub mod stone_signal;
pub mod stones;
pub mod style;
pub mod text;
pub mod turns;
pub mod web_stone;
