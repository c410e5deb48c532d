//! Core of a table-format engine in the style of Apache Iceberg: a
//! transactional metadata layer over immutable data files in object storage.
//!
//! The library covers the write-side transaction machinery (turning staged
//! operations into new manifests, a manifest list and a snapshot, committed
//! through a catalog contract with optimistic concurrency), the manifest tree
//! manager that keeps the manifest fan-out balanced by partition bounding
//! rectangles, and the refresh state machine for materialized views.
//!
//! All metadata is modelled as plain values so that the engine's invariants
//! (sequence-number monotonicity, tight partition summaries, exact live-file
//! accounting, compare-and-swap ref updates) are stated and proved.

use vstd::prelude::*;

pub mod catalog;
pub mod laws;
pub mod manifest;
pub mod operation;
pub mod pruning;
pub mod refresh;
pub mod rest;
pub mod schema;
pub mod snapshot;
pub mod statistics;
pub mod storage;
pub mod table;
pub mod table_metadata;
pub mod transaction;
pub mod tree;
pub mod util;
pub mod view;

verus! {

/// Error kinds surfaced by the engine.
///
/// `NotFound` carries what was looked for and the key; `Conversion` the source
/// and target of a failed coercion; the others a detail message.
#[derive(Debug)]
pub enum Error {
    /// A namespace, table, snapshot, relation or bounding rectangle is missing.
    NotFound(String, String),
    /// A tabular of the wrong subtype was returned, or a document is corrupt.
    InvalidFormat(String),
    /// A catalog requirement failed; the caller must reload and retry.
    Conflict(String),
    /// The operation is not defined for this entity.
    NotSupported(String),
    /// A value could not be coerced.
    Conversion(String, String),
    /// Object store or transport failure.
    IO(String),
}

impl Error {
    /// A human-readable rendering of the error.
    pub fn message(&self) -> String {
        match self {
            Error::NotFound(what, key) => {
                let mut s = String::from_str("not found: ");
                s.append(what.as_str());
                s.append(" ");
                s.append(key.as_str());
                s
            },
            Error::InvalidFormat(detail) => {
                let mut s = String::from_str("invalid format: ");
                s.append(detail.as_str());
                s
            },
            Error::Conflict(detail) => {
                let mut s = String::from_str("conflict: ");
                s.append(detail.as_str());
                s
            },
            Error::NotSupported(detail) => {
                let mut s = String::from_str("not supported: ");
                s.append(detail.as_str());
                s
            },
            Error::Conversion(from, to) => {
                let mut s = String::from_str("cannot convert ");
                s.append(from.as_str());
                s.append(" into ");
                s.append(to.as_str());
                s
            },
            Error::IO(detail) => {
                let mut s = String::from_str("io error: ");
                s.append(detail.as_str());
                s
            },
        }
    }
}

} // verus!
