//! Core of an end-to-end encrypted messaging overlay on a public social
//! network: the conversation data model, the collision-safe message log, the
//! directory that names conversations, the cryptographic envelope, the filter
//! on the network-wide stream of commits with the reader of the block store
//! that a commit carries, and the decisions of the engine.
//!
//! The library does no input or output. Where the engine has to fetch or to
//! store, it says so in the value it returns, and takes the outcome as an
//! event.

pub mod active_time;
pub mod blocks;
pub mod conf;
pub mod conversation;
pub mod directory;
pub mod engine;
pub mod errors;
pub mod firehose;
pub mod ids;
pub mod key;
pub mod loader;
pub mod log;
pub mod message;
pub mod participants;
pub mod profile;
pub mod send;
pub mod text;
pub mod ui;
