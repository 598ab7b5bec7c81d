//! GCSF: a virtual file system backed by Google Drive.
//!
//! This crate holds the verified core of the file system: the local file
//! tree, the naming of files, the configuration, the in-memory data store
//! and the decisions that the FUSE layer takes.
use vstd::prelude::*;

pub mod text;
pub mod config;
pub mod file;
pub mod tree;
pub mod suffix;
pub mod file_manager;
pub mod sync;
pub mod filesystem;
pub mod fetcher;
pub mod auth;
pub mod laws;

verus! {

} // verus!
