//! Verified core of a TeamSpeak client library: chat formatting and history,
//! channel trees, server state queries, bot commands and stream metadata.

pub mod connection;
pub mod events;

pub mod text;
pub mod scan;
pub mod render;
pub mod markup;
pub mod passes;
pub mod bbcode;
pub mod message;
pub mod history;
pub mod state;
pub mod tree;
pub mod error;
pub mod command;
pub mod bot_config;
pub mod manager;
pub mod streams;
pub mod audio;
pub mod mixing;
pub mod timing;
pub mod broadcast;
pub mod signaling;
pub mod session;
pub mod convert;
pub mod config;
pub mod ffi;
