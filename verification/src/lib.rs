//! A karma bot for chat slash commands: it decodes the form body of a slash
//! command, keeps one integer score per user name, and prepares the message
//! that reports a new score back to the chat.

pub mod scan;
pub mod form;
pub mod text;
pub mod incoming;
pub mod scores;
pub mod karma;
pub mod json;
pub mod outgoing;
pub mod server;
