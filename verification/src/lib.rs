//! The core of a server that keeps rooms of keys and values in step between clients.
//!
//! A room holds fragments: values under keys, in buckets or named containers. Every change
//! gets a version of its room, deletions leave tombstones, and clients are shown snapshots
//! and what has changed since the version that they have seen.
//!
//! - `state` and `kernel_state` hold the rooms, with named containers and with numbered
//!   buckets. `state_laws` and `kernel_state_laws` say what holds of them as a whole.
//! - `kernel` carries out commands, `upstream` serves the calls of application servers,
//!   `kernel_laws` says what holds of both.
//! - `room_hub` and `hub` know who is connected and who gets which update; `room_connection`,
//!   `bucket_connection` and `downstream_connection` decide on each connection from its first
//!   frame to its end; `wire` writes what clients are sent.
//! - `auth`, `downstream_auth` and `tokens` deal with tokens, `rate_limiter` with clients that
//!   ask too often.
//! - `persistence` and `bucket_cache` say what is kept of a room on disk and in memory,
//!   `loading` how the two come together. `startup` checks the settings.
//! - `protocol` is the line protocol, `client` keeps a connection for it up.
//!
//! The modules with names in `_laws` say what holds over several operations; those with names in
//! `_calls` say what a caller can rely on, of the arguments and the results of each call alone.

pub mod auth;
pub mod bucket_cache;
pub mod bucket_connection;
pub mod client;
pub mod collections;
pub mod commands;
pub mod connection;
pub mod connection_calls;
pub mod downstream_auth;
pub mod downstream_connection;
pub mod hub;
pub mod hub_laws;
pub mod json;
pub mod kernel;
pub mod kernel_calls;
pub mod kernel_laws;
pub mod kernel_state;
pub mod kernel_state_calls;
pub mod kernel_state_laws;
pub mod loading;
pub mod permissions;
pub mod persistence;
pub mod persistence_calls;
pub mod persistence_laws;
pub mod protocol;
pub mod protocol_calls;
pub mod protocol_laws;
pub mod rate_limiter;
pub mod room_connection;
pub mod room_hub;
pub mod rooms;
pub mod service_calls;
pub mod startup;
pub mod state;
pub mod state_calls;
pub mod state_laws;
pub mod text;
pub mod text_laws;
pub mod tokens;
pub mod upstream;
pub mod upstream_calls;
pub mod wire;
pub mod wire_laws;
