//! Replicated-log and document-merge core of a clustered JMAP mail server.
//!
//! The crate covers the per-document ORM merge engine that turns logical
//! object updates into indexed document mutations, per-collection document-id
//! assignment, the compact merged-changes bitmap codec, an append-only raft
//! log store, the per-node election state machine, and the per-follower
//! leader replication driver.

pub mod bitmaps;

pub mod changes_merge;

pub mod collection;

pub mod document;

pub mod errors;

pub mod id_assign;

pub mod indexing;

pub mod invocation;

pub mod json;

pub mod leader;

pub mod log_store;

pub mod mail;

pub mod merge;

pub mod orm;

pub mod push;

pub mod raft;

pub mod rpc;

pub mod server;

pub mod strings;

pub mod submission;
