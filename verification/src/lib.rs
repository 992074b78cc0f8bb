//! The decisions of a storage node.
//!
//! A node keeps records for a network and names them by keys. This library decides which records
//! a node stores, replaces and hands on (`store`), whom it asks to prove that a record is still
//! held (`fault_detection`), and how the daemon that manages nodes is brought up and answers
//! (`daemon`).
//!
//! The library itself reads no file and sends no message. Where a request needs either, the
//! library says what to do in a step, and its caller reports back what came of it. What holds of
//! a store together with its files is proved in `laws`.

pub mod bytes;
pub mod chunk;
pub mod config;
pub mod content;
pub mod daemon;
pub mod decimal;
pub mod fault_detection;
pub mod header;
pub mod hex;
pub mod key_set;
pub mod keyspace;
pub mod laws;
pub mod record;
pub mod records_iterator;
pub mod spend;
pub mod steps;
pub mod store;
