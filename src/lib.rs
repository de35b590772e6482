//! A client library for the WeeChat relay protocol: a decoder for its binary
//! messages, the records they carry, the password handshake, the state
//! machine of a connected session, and the line editor that feeds it.
pub mod auth;
pub mod colors;
pub mod config;
pub mod input;
pub mod messages;
pub mod session;
pub mod text;
pub mod wire;
