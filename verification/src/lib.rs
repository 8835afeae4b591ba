//! Storage for a source-control backend.
//!
//! Two stores, both addressed by content:
//!
//! * the graph of changesets: a batch of changesets is saved so that no
//!   changeset is ever recorded before its parents, a batch that fails a
//!   check changes nothing, and saving a batch again is harmless;
//! * auxiliary data of file contents: records of a fixed binary layout in an
//!   append-only, indexed log on disk.

pub mod auxstore;
pub mod blobstore;
pub mod bonsai;
pub mod changesets;
pub mod entry;
pub mod ids;
pub mod options;
pub mod repo;
pub mod response;
pub mod save;
pub mod topo_sort;
pub mod vlq;
