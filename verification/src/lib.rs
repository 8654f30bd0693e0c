//! A flat, append-biased catalog of e-book files discovered on disk.
//!
//! Each discovered file is recorded with its identity (absolute path), a
//! 128-bit content hash, and extracted bibliographic metadata.  The core of
//! the crate is the reconciliation engine in [`reconcile`]: the rules by
//! which freshly discovered files, re-scanned files, and records merged from
//! another catalog are folded into a single record set without losing
//! history.  Superseded records are kept, flagged `stale`, until an explicit
//! prune removes them.

pub mod args;
pub mod hash;
pub mod laws;
pub mod metadata;
pub mod model;
pub mod reconcile;
pub mod scan;
pub mod util;
