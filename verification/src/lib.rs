//! Core of a real-time lobby/session signaling backend for a multiplayer
//! game.  Clients connect over a persistent bidirectional channel,
//! authenticate through an external identity service, and create or join
//! rooms (game lobbies) whose membership is kept in a shared store.
//!
//! This crate holds the verified core: the room entity and its membership
//! rules, the room store over a hash-style key-value model, the auth
//! delegation decisions, the connection registry, and the command
//! dispatch/validation pipeline.  Process bootstrap, the wire transport and
//! the network calls themselves live outside the library and only hand
//! plain values in and out.

pub mod codec;
pub mod handle_req;
pub mod json;
pub mod laws;
pub mod player;
pub mod registry;
pub mod req_utils;
pub mod room;
pub mod store;
pub mod strutil;
pub mod wrapper;
pub mod ws_status;
