//! The copy command: the entry point the command line invokes.
use vstd::prelude::*;
use crate::copy_operate::{command_copy, command_copy_post};
use crate::copy_processor::CopyStats;
use crate::device::Manager;
use crate::error::CopyError;
use crate::namespace::LocalNamespace;
use crate::Paths;

verus! {

/// Copies `paths.src` to `paths.dest`, optionally descending and
/// optionally mirroring, and reports how many file bodies moved.
pub fn copy(
    manager: &mut Manager,
    local: &mut LocalNamespace,
    paths: &Paths,
    recursive: bool,
    mirror: bool,
) -> (r: Result<CopyStats, CopyError>)
    requires
        old(manager).wf(),
        old(local).wf(),
    ensures
        final(local).wf(),
        final(manager).wf(),
        command_copy_post(
            *old(manager),
            *old(local),
            *final(manager),
            *final(local),
            paths.src@,
            paths.dest@,
            recursive,
            mirror,
            r,
        ),
{
    command_copy(manager, local, paths, recursive, mirror)
}

} // verus!
