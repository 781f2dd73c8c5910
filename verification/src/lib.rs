//! Verified core of a self-hosted personal file service.
//!
//! The library holds the logic of the service: the binary packet codec of the
//! upload channel, the resumable chunked-upload state machine, the metadata
//! index with its one-time links, the download gate and its counter
//! bookkeeping, the startup reconciliation between index and storage, and the
//! path, token and host-selection rules shared with the terminal client.
//! The surrounding process (HTTP routing, sockets, the database file, the
//! actual byte stores) feeds these functions plain values and carries out the
//! actions they decide on.

pub mod auth;
pub mod client_app;
pub mod client_hosts;
pub mod client_upload;
pub mod config;
pub mod download;
pub mod error;
pub mod ids;
pub mod index;
pub mod listing;
pub mod number;
pub mod protected;
pub mod records;
pub mod simply_packet;
pub mod storage;
pub mod sync;
pub mod text;
pub mod upload;
