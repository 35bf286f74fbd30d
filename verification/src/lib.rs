//! A verified engine for copying and mirroring file trees between two
//! storage namespaces: a device-resident hierarchical content store and a
//! local directory tree, both modelled as in-memory entry trees.
#![verifier::loop_isolation(false)]
use vstd::prelude::*;

pub mod copy;
pub mod copy_operate;
pub mod copy_processor;
pub mod device;
pub mod error;
pub mod find;
pub mod file_info;
pub mod file_reader;
pub mod folder_operate;
pub mod list;
pub mod local_folder_imp;
pub mod namespace;
pub mod path;
pub mod path_matcher;
pub mod sync_laws;
pub mod time_transfer;

verus! {

/// The pair of path arguments of one copy operation.
#[derive(Debug)]
pub struct Paths {
    pub src: String,
    pub dest: String,
}

} // verus!
