//! Akashi: a tamper-evident document ledger.
//!
//! Each work is an append-only chain of signed envelopes. Every envelope names
//! the one before it, so the id of the newest one commits to the whole history.
//! The modules below hold the rules of the ledger as verified functions on plain
//! values; files, sockets, the database and the clock belong to the program
//! around them.

pub mod anchor;
pub mod anchor_laws;
pub mod answer_laws;
pub mod api;
pub mod base58;
pub mod chain_laws;
pub mod ids;
pub mod json;
pub mod laws;
pub mod ledger;
pub mod offline;
pub mod order;
pub mod outside;
pub mod stamp_laws;
pub mod store;
pub mod text;
pub mod text_laws;
pub mod version;
pub mod view_laws;
pub mod work_laws;
