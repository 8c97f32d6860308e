//! Core of a terminal chat client: the conversation transcript, the
//! adapters that turn it into provider request bodies and read provider
//! responses back, the streaming-frame accumulator, the command table with
//! its edit-distance suggestions, and the configuration rules.
//!
//! Everything here is pure with respect to the outside world; reading the
//! terminal, the file system and the network is left to the binary that
//! embeds this library.

pub mod conversation;
pub mod chat_client;
pub mod commands;
pub mod json;
pub mod message_printer;
pub mod messages;
pub mod preview_md;
pub mod run;
pub mod tc_config;
pub mod utils;

pub use conversation::{ConversationContext, Message};
