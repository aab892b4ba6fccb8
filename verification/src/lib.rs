//! Verified core of a collective-communication network plugin that moves
//! tensors over a user-space TCP stack and mirrors them to storage servers.

pub mod config;
pub mod env;
pub mod interface;
pub mod plugin;
pub mod reader;
pub mod receiver;
pub mod repeater;
pub mod request;
pub mod roundtrip;
pub mod sender;
pub mod sending;
pub mod tcp;
pub mod text;
pub mod wire;
pub mod writer;
