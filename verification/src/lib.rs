//! A host file-integrity auditor: the files that a package manager recorded
//! are reconciled with the files that are on disk.
//!
//! The library holds the tracked-file store, the per-file verifier, the
//! decisions of the filesystem walk, the checksum engine, the ignore matcher
//! and the report. Reading the disk and running the package manager are left
//! to the caller, who hands in plain values.

pub mod path;
pub mod sort;
pub mod package;
pub mod packagefile;
pub mod packagedb;
pub mod text;
pub mod ignore;
pub mod checksum;
pub mod report;
pub mod check;
pub mod verify;
pub mod walk;
pub mod hex;
pub mod manager;
pub mod bytes;
pub mod numbers;
pub mod rpmlist;
pub mod rpmdump;
pub mod dpkgcsums;
pub mod dpkgquery;
