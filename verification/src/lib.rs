//! A personal network base: links between a base and its peripherals or
//! peers, a router with a directory and event fan-out, a page reconciliation
//! engine for operator interfaces, and an append-only dataset store.
//!
//! The modules here hold the data model and the decision logic of the base.
//! Sockets, files and subprocesses live outside the library; they hand plain
//! values in and take plain values back.

use vstd::prelude::*;

pub mod base_state;
pub mod beacon;
pub mod chord_cache;
pub mod cipher;
pub mod client;
pub mod config;
pub mod dataset;
pub mod directory;
pub mod dataset_data;
pub mod datastore;
pub mod encodings;
pub mod id;
pub mod keyfile;
pub mod keys;
pub mod link_protocol;
pub mod message;
pub mod pending;
pub mod peripherals;
pub mod relation;
pub mod router;
pub mod text;
pub mod ui;
pub mod ui_state;

verus! {

} // verus!
