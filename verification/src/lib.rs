//! Protocol core of a remote file browser: the length-framed wire codec, the
//! command vocabulary, the server's per-connection session and the client's
//! navigation state, all as functions on plain values.

pub mod bytes;
pub mod command;
pub mod frame;
pub mod info;
pub mod keys;
pub mod listing;
pub mod mode;
pub mod navigator;
pub mod paths;
pub mod save;
pub mod session;
pub mod text;
pub mod viewer;
