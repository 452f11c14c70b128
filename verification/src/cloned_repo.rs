//! A record of a repository that has been cloned locally.
use vstd::prelude::*;

verus! {

/// A repository that has been successfully cloned: its names, where it
/// lives on disk, and the source files found under it.
pub struct ClonedRepository {
    pub repo_name: String,
    pub full_name: String,
    pub local_path: String,
    pub rust_files: Vec<String>,
}

} // verus!
