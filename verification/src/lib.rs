//! Metadata engine of a personal file store: directories and files owned by
//! users, shared with groups, and persisted as compact binary records in a
//! transactional key-value store.
//!
//! The modules, from the bottom up:
//!
//! - `bytes`, `codec`: the layout of keys and records, with the proof that
//!   what is written is read back;
//! - `store`: the key-value store, as far as the engine relies on it;
//! - `ops`, with `fs_ops`, `user_ops` and `session_ops`: the operations that
//!   change the store, each of them one transaction, said as functions of
//!   what the store holds (`step`) and carried out (`apply`);
//! - `fs_db`, `user_db`, `database`: the store as the rest of a program sees
//!   it;
//! - `laws`, `found`: what holds of the store whatever is done with it;
//! - `models`, `msg`, `controller`: the entities, requests to change them,
//!   and the rights that such requests are checked against;
//! - `ids`, `clock`, `password`: random identifiers, the time, and password
//!   hashes.

pub mod bytes;
pub mod clock;
pub mod codec;
pub mod controller;
pub mod database;
pub mod error;
pub mod found;
pub mod fs_db;
pub mod fs_ops;
pub mod ids;
pub mod laws;
pub mod models;
pub mod msg;
pub mod ops;
pub mod password;
pub mod session_ops;
pub mod store;
pub mod user_db;
pub mod user_ops;
