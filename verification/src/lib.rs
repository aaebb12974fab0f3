//! Session and key-distribution engine for end-to-end encrypted messaging.
//!
//! The engine never talks to the network and never runs a cipher. It keeps the
//! tables that decide what has to be sent (key uploads, key queries, key
//! claims, room-key deliveries), hands those decisions out as pending requests
//! with stable identifiers, and folds acknowledged responses back into its
//! state. The cipher stays with the host: where a command needs it, the host
//! hands in what the cipher produced, or gets an order for it.
//!
//! - `ids`: identifiers and their validation
//! - `requests`: the queue of pending requests and its acknowledgment rules
//! - `tracking`: the users whose device lists are kept current
//! - `devices`: the catalog of remote devices, their trust and their sessions
//! - `ledger`: this device's one-time keys
//! - `groups`: the group sessions of rooms
//! - `engine`: the aggregate and its commands
//! - `ingest`: how answers of the server are taken in
//! - `sync`: how a sync is taken in, section by section
//! - `persist`: the state as plain values, and back
pub mod error;
pub mod ids;
pub mod requests;
pub mod tracking;
pub mod devices;
pub mod ledger;
pub mod groups;
pub mod engine;
pub mod ingest;
pub mod sync;
pub mod persist;
