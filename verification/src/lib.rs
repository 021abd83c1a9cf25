//! A personal note store with semantic search, modelled and verified.
//!
//! Notes are persisted together with a vector embedding of their text; search
//! ranks notes by embedding distance to a query embedding. The two pieces with
//! real engineering risk are verified here: the embedding worker protocol
//! (a single, non-reentrant model served through a bounded request queue) and
//! the vector-indexed note store (a primary note table and a derived vector
//! index kept in permanent agreement under insert, update and delete).
//!
//! Blocking inference, the database connection and the GUI shell are external
//! collaborators; this crate holds the decisions and the data they act on.

pub mod embedder;
pub mod embedding;
pub mod laws;
pub mod service;
pub mod store;
