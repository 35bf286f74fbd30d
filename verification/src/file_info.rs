//! The immutable snapshot of one namespace entry's attributes, and the
//! skip test that makes repeated copies idempotent.
use vstd::prelude::*;
use vstd::string::StringExecFns;
use crate::namespace::{view_node, FsNode, NodeModel};
use crate::time_transfer::{dec_str, u64_to_dec_string, unix_seconds_of};

verus! {

/// The attributes of one file or folder, as one backend reported them.
/// A folder always reports a data size of zero.
#[derive(Debug)]
pub struct FileInfo {
    /// Name to display.
    pub name: String,
    /// Size of the resource data.
    pub data_size: u64,
    /// Whether this entry is a folder.
    pub is_folder: bool,
    /// Hidden flag.
    pub is_hidden: bool,
    /// System flag.
    pub is_system: bool,
    /// Whether the entry can be deleted.
    pub can_delete: bool,
    /// Time created, or None if the backend did not provide it.
    pub time_created: Option<String>,
    /// Time modified, or None if the backend did not provide it.
    pub time_modified: Option<String>,
}

impl FileInfo {
    /// The one invariant of a snapshot: a folder's data size is zero.
    pub open spec fn wf(self) -> bool {
        self.is_folder ==> self.data_size == 0
    }

    /// Whether this snapshot faithfully describes the node `m` under `name`.
    pub open spec fn describes(self, name: Seq<char>, m: NodeModel) -> bool {
        &&& self.name@ == name
        &&& match m {
            NodeModel::File(f) => {
                &&& !self.is_folder
                &&& self.data_size == f.content.len()
                &&& self.is_hidden == f.hidden
                &&& self.is_system == f.system
                &&& self.can_delete == f.can_delete
                &&& crate::namespace::view_opt_string(self.time_created) == f.created
                &&& crate::namespace::view_opt_string(self.time_modified) == f.modified
            },
            NodeModel::Folder(f) => {
                &&& self.is_folder
                &&& self.data_size == 0
                &&& self.is_hidden == f.hidden
                &&& self.is_system == f.system
                &&& self.can_delete == f.can_delete
                &&& crate::namespace::view_opt_string(self.time_created) == f.created
                &&& crate::namespace::view_opt_string(self.time_modified) == f.modified
            },
        }
    }

    /// Builds the snapshot of the node `node` under the name `name`.
    pub fn from_node(name: &String, node: &FsNode) -> (r: FileInfo)
        ensures
            r.describes(name@, view_node(*node)),
            r.wf(),
    {
        match node {
            FsNode::File(f) => FileInfo {
                name: name.clone(),
                data_size: f.content.len() as u64,
                is_folder: false,
                is_hidden: f.hidden,
                is_system: f.system,
                can_delete: f.can_delete,
                time_created: crate::namespace::clone_opt_string(&f.created),
                time_modified: crate::namespace::clone_opt_string(&f.modified),
            },
            FsNode::Folder(f) => FileInfo {
                name: name.clone(),
                data_size: 0,
                is_folder: true,
                is_hidden: f.hidden,
                is_system: f.system,
                can_delete: f.can_delete,
                time_created: crate::namespace::clone_opt_string(&f.created),
                time_modified: crate::namespace::clone_opt_string(&f.modified),
            },
        }
    }
}

/// Two optional modification times allow a skip when both are absent or
/// both are present and equal.
pub open spec fn times_allow_skip(
    src: Option<Seq<char>>,
    dest: Option<Seq<char>>,
) -> bool {
    match (src, dest) {
        (Option::None, Option::None) => true,
        (Option::Some(a), Option::Some(b)) => a == b,
        _ => false,
    }
}

/// The skip test: an existing destination entry may be kept in place of a
/// fresh transfer when it is a file of the source's size and the two
/// modification times are both absent or equal.
pub open spec fn can_skip_spec(src: FileInfo, dest: FileInfo) -> bool {
    &&& !dest.is_folder
    &&& dest.data_size == src.data_size
    &&& times_allow_skip(
        crate::namespace::view_opt_string(src.time_modified),
        crate::namespace::view_opt_string(dest.time_modified),
    )
}

fn opt_string_eq(a: &Option<String>, b: &Option<String>) -> (r: bool)
    ensures
        r == (crate::namespace::view_opt_string(*a) == crate::namespace::view_opt_string(*b)),
{
    match (a, b) {
        (Option::None, Option::None) => true,
        (Option::Some(x), Option::Some(y)) => x.eq(y),
        _ => false,
    }
}

/// Decides whether copying `src` over the existing `dest` may be skipped.
pub fn can_skip_copying(src: &FileInfo, dest: &FileInfo) -> (r: bool)
    ensures
        r == can_skip_spec(*src, *dest),
{
    !dest.is_folder && dest.data_size == src.data_size && opt_string_eq(
        &src.time_modified,
        &dest.time_modified,
    )
}


/// Whether `r` renders the seconds count the way a snapshot timestamp
/// is shown: the decimal count, or an error note for a time before the
/// epoch.
pub open spec fn snapshot_time_rendering(secs: Option<u64>, r: Seq<char>) -> bool {
    match secs {
        Option::Some(n) => r == dec_str(n as nat),
        Option::None => r == "Error: time before the Unix epoch"@,
    }
}

/// The decimal whole-second form of a system time, or a note beginning
/// with "Error:" for a time before the Unix epoch.  The seconds count
/// comes from a trusted call on an opaque value, so the contract
/// promises only that the result is some such rendering.
pub fn system_time_to_string(time: std::time::SystemTime) -> (r: String)
    ensures
        exists|secs: Option<u64>| #[trigger] snapshot_time_rendering(secs, r@),
{
    let secs = unix_seconds_of(&time);
    let r = match secs {
        Option::Some(n) => u64_to_dec_string(n),
        Option::None => String::from_str("Error: time before the Unix epoch"),
    };
    proof {
        assert(snapshot_time_rendering(secs, r@));
    }
    r
}

} // verus!
