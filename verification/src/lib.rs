//! A proxy that serves a text-generation backend to local clients over Unix
//! domain sockets. This crate holds its rules: the framing of the wire, the
//! shape of a conversation, the life of a connection and of a listener, and
//! the checks made before any socket is bound.

pub mod connection;
pub mod conversation;
pub mod engine;
pub mod error;
pub mod frame;
pub mod listener;
pub mod registry;
pub mod session;
pub mod supervisor;
pub mod text;
