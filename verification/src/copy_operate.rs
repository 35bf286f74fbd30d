//! Destination resolution and the orchestration of one copy command:
//! classify both endpoints, resolve the destination container, resolve
//! and snapshot the source, and run the copy engine at the container.
use vstd::prelude::*;
use vstd::string::StringExecFns;
use crate::copy_processor::{copy_node_post, CopyStats, LocalCopyProcessor};
use crate::device::Manager;
use crate::Paths;
use crate::error::CopyError;
use crate::find::{find_file_or_folder, resolve_clone, resolve_node_spec, storage_lookup_outcome};
use crate::folder_operate::FolderOperate;
use crate::local_folder_imp::LocalFolder;
use crate::namespace::{
    find_child, has_name, lemma_lookup_entries, lemma_lookup_insert_entry,
    lemma_lookup_remove_entry, lookup, node_hidden, node_system, view_entry, view_folder,
    view_node, wf_entries, wf_node, FolderData, FsEntry, FsNode, LocalNamespace, NodeModel,
};
use crate::path::{
    get_path_type, seg_split, seq_views, spec_device_form, split_segments, str_has_wildcard,
    DeviceStoragePath, PathType,
};

verus! {

broadcast use crate::namespace::lemma_view_entries_len, crate::namespace::lemma_view_entries_index;

/// What stands at a path: nothing, something hidden or system, a file,
/// or a folder.
#[derive(Clone, Copy, PartialEq, Eq, Structural, Debug)]
pub enum TargetStatus {
    NotExist,
    Hidden,
    File,
    Folder,
}

/// The root folder of one storage of one device.
pub open spec fn m_storage_root(m: Manager, di: int, si: int) -> FolderData {
    m.devices@[di].storages@[si].root
}

/// The status a resolved node classifies as.
pub open spec fn status_of(n: Option<NodeModel>) -> TargetStatus {
    match n {
        Option::None => TargetStatus::NotExist,
        Option::Some(m) => if node_hidden(m) || node_system(m) {
            TargetStatus::Hidden
        } else if m is Folder {
            TargetStatus::Folder
        } else {
            TargetStatus::File
        },
    }
}

/// What inspecting a destination path found: the target's own name and
/// status, and its parent's status and path.
#[derive(Debug)]
pub struct TargetInspectionResult {
    pub target_name: Option<String>,
    pub target_status: TargetStatus,
    pub parent_status: TargetStatus,
    pub parent_path: Option<String>,
}

impl TargetInspectionResult {
    /// A parent that is a folder always comes with its path.
    pub open spec fn wf(&self) -> bool {
        self.parent_status == TargetStatus::Folder ==> self.parent_path is Some
    }
}

/// Classifies the node the first `upto` segments name inside `root`.
fn status_at(root: &FolderData, segs: &Vec<String>, upto: usize) -> (r: TargetStatus)
    requires
        wf_entries(view_folder(*root).entries),
        upto <= segs@.len(),
    ensures
        r == status_of(
            resolve_node_spec(
                NodeModel::Folder(view_folder(*root)),
                seq_views(segs@).take(upto as int),
                0,
            ),
        ),
{
    let ghost svt = seq_views(segs@).take(upto as int);
    let ghost rootm = NodeModel::Folder(view_folder(*root));
    if upto == 0 {
        let r = if root.hidden || root.system {
            TargetStatus::Hidden
        } else {
            TargetStatus::Folder
        };
        return r;
    }
    proof {
        lemma_lookup_entries(view_folder(*root).entries, svt[0]);
    }
    let i0 = match find_child(&root.children, &segs[0]) {
        Option::Some(i) => i,
        Option::None => {
            return TargetStatus::NotExist;
        },
    };
    let mut cur: &FsNode = &root.children[i0].node;
    let mut i: usize = 1;
    proof {
        lemma_lookup_entries(
            view_folder(*root).entries,
            view_folder(*root).entries[i0 as int].name,
        );
        assert(lookup(view_folder(*root).entries, svt[0]) == Option::Some(view_node(*cur)));
        assert(resolve_node_spec(rootm, svt, 0) == resolve_node_spec(view_node(*cur), svt, 1));
        assert(wf_node(view_node(*cur)));
    }
    while i < upto
        invariant
            1 <= i <= upto,
            upto <= segs@.len(),
            svt == seq_views(segs@).take(upto as int),
            resolve_node_spec(rootm, svt, 0) == resolve_node_spec(view_node(*cur), svt, i as int),
            wf_node(view_node(*cur)),
        decreases upto - i,
    {
        match cur {
            FsNode::File(_) => {
                return TargetStatus::NotExist;
            },
            FsNode::Folder(fd) => {
                proof {
                    lemma_lookup_entries(view_folder(*fd).entries, svt[i as int]);
                }
                match find_child(&fd.children, &segs[i]) {
                    Option::Some(j) => {
                        proof {
                            lemma_lookup_entries(
                                view_folder(*fd).entries,
                                view_folder(*fd).entries[j as int].name,
                            );
                            assert(lookup(view_folder(*fd).entries, svt[i as int])
                                == Option::Some(view_node(fd.children@[j as int].node)));
                        }
                        cur = &fd.children[j].node;
                    },
                    Option::None => {
                        return TargetStatus::NotExist;
                    },
                }
            },
        }
        i = i + 1;
    }
    match cur {
        FsNode::File(f) => {
            if f.hidden || f.system {
                TargetStatus::Hidden
            } else {
                TargetStatus::File
            }
        },
        FsNode::Folder(f) => {
            if f.hidden || f.system {
                TargetStatus::Hidden
            } else {
                TargetStatus::Folder
            }
        },
    }
}

/// The segments re-joined with a separator: how an inspected parent
/// path is reported.
pub open spec fn join_spec(sv: Seq<Seq<char>>) -> Seq<char>
    decreases sv.len(),
{
    if sv.len() == 0 {
        Seq::empty()
    } else if sv.len() == 1 {
        sv[0]
    } else {
        join_spec(sv.drop_last()) + seq!['/'] + sv.last()
    }
}

/// Joins the first `upto` segments with `/`.
fn join_segments(segs: &Vec<String>, upto: usize) -> (r: String)
    requires
        upto <= segs@.len(),
    ensures
        r@ == join_spec(seq_views(segs@).take(upto as int)),
{
    let mut r = String::new();
    let mut i: usize = 0;
    proof {
        reveal_strlit("/");
        assert(seq_views(segs@).take(0) =~= Seq::<Seq<char>>::empty());
    }
    while i < upto
        invariant
            i <= upto,
            upto <= segs@.len(),
            r@ == join_spec(seq_views(segs@).take(i as int)),
        decreases upto - i,
    {
        proof {
            reveal_strlit("/");
        }
        if i > 0 {
            r.append("/");
        }
        r.append(segs[i].as_str());
        proof {
            assert(seq_views(segs@).take(i as int + 1).drop_last() =~= seq_views(segs@).take(
                i as int,
            ));
            assert(seq_views(segs@).take(i as int + 1).last() == segs@[i as int]@);
        }
        i = i + 1;
    }
    r
}

/// Inspects a local destination path: the target's status and name, and
/// the parent's status and path.  A path with no segments names the
/// root, which has no usable name: if something stands there, the
/// inspection is refused.
pub fn inspect_local_path(local: &LocalNamespace, path: &str) -> (r: Result<
    TargetInspectionResult,
    CopyError,
>)
    requires
        local.wf(),
    ensures
        match r {
            Result::Ok(insp) => {
                let sv = seg_split(path@);
                let rootm = NodeModel::Folder(view_folder(local.root));
                &&& insp.wf()
                &&& sv.len() > 0
                &&& insp.target_status == status_of(
                    resolve_node_spec(rootm, sv.take(sv.len() as int), 0),
                )
                &&& (sv.len() > 0 ==> {
                    &&& insp.target_name is Some
                    &&& insp.target_name->0@ == sv.last()
                    &&& insp.parent_status == status_of(
                        resolve_node_spec(rootm, sv.take(sv.len() - 1), 0),
                    )
                    &&& insp.parent_path is Some
                })
            },
            Result::Err(e) => {
                let sv = seg_split(path@);
                &&& e == CopyError::InvalidDestination
                &&& sv.len() == 0
                &&& status_of(resolve_node_spec(NodeModel::Folder(view_folder(local.root)), sv.take(sv.len() as int), 0))
                    != TargetStatus::NotExist
            },
        },
{
    let segs = split_segments(path);
    let n = segs.len();
    let target_status = status_at(&local.root, &segs, n);
    if n == 0 {
        // the root always resolves to itself, so it never classifies as
        // absent, and a rootward destination is always refused
        proof {
            assert(seq_views(segs@).take(0) =~= Seq::<Seq<char>>::empty());
        }
        return Result::Err(CopyError::InvalidDestination);
    }
    let target_name = Option::Some(segs[n - 1].clone());
    let parent_status = status_at(&local.root, &segs, n - 1);
    let parent_path = Option::Some(join_segments(&segs, n - 1));
    proof {
        assert(seq_views(segs@).take(seq_views(segs@).len() as int) =~= seq_views(segs@));
        assert(seq_views(segs@).last() == segs@[segs@.len() - 1]@);
    }
    Result::Ok(
        TargetInspectionResult { target_name, target_status, parent_status, parent_path },
    )
}

/// Inspects a device destination path the same way, against the device
/// world.
pub fn inspect_device_path(manager: &Manager, path: &str) -> (r: Result<
    TargetInspectionResult,
    CopyError,
>)
    requires
        manager.wf(),
    ensures
        match r {
            Result::Ok(insp) => {
                &&& insp.wf()
                &&& spec_device_form(path@)
                &&& exists|di: int, si: int|
                    {
                        let sv = seg_split(DeviceStoragePath::spec_path_part(path@));
                        let rootm = NodeModel::Folder(
                            view_folder(m_storage_root(*manager, di, si)),
                        );
                        &&& 0 <= di < manager.devices@.len()
                        &&& 0 <= si < manager.devices@[di].storages@.len()
                        &&& manager.devices@[di].name@ == DeviceStoragePath::spec_device_part(
                            path@,
                        )
                        &&& (#[trigger] manager.devices@[di].storages@[si]).name@
                            == DeviceStoragePath::spec_storage_part(path@)
                        &&& insp.target_status == status_of(
                            resolve_node_spec(rootm, sv.take(sv.len() as int), 0),
                        )
                        &&& (sv.len() == 0 ==> insp.target_name is None && insp.parent_status
                            == TargetStatus::NotExist)
                        &&& (sv.len() > 0 ==> insp.target_name is Some
                            && insp.target_name->0@ == sv.last() && insp.parent_status
                            == status_of(resolve_node_spec(rootm, sv.take(sv.len() - 1), 0)))
                    }
            },
            Result::Err(e) => e == CopyError::ParseError || e == CopyError::NotFound || e
                == CopyError::AmbiguousMatch,
        },
        !spec_device_form(path@) ==> r == Result::<TargetInspectionResult, CopyError>::Err(
            CopyError::ParseError,
        ),
        spec_device_form(path@) ==> (r is Err ==> r->Err_0 != CopyError::ParseError)
            && storage_lookup_outcome(
            *manager,
            DeviceStoragePath::spec_device_part(path@),
            DeviceStoragePath::spec_storage_part(path@),
            r,
        ),
{
    let sp = match DeviceStoragePath::from(path) {
        Result::Ok(p) => p,
        Result::Err(e) => {
            return Result::Err(e);
        },
    };
    let (di, si) = match crate::find::find_storage(manager, &sp) {
        Result::Ok(v) => v,
        Result::Err(e) => {
            return Result::Err(e);
        },
    };
    let storage = &manager.devices[di].storages[si];
    let segs = split_segments(sp.path.as_str());
    let n = segs.len();
    let target_status = status_at(&storage.root, &segs, n);
    if n == 0 {
        return Result::Ok(
            TargetInspectionResult {
                target_name: Option::None,
                target_status,
                parent_status: TargetStatus::NotExist,
                parent_path: Option::None,
            },
        );
    }
    let target_name = Option::Some(segs[n - 1].clone());
    let parent_status = status_at(&storage.root, &segs, n - 1);
    let joined = join_segments(&segs, n - 1);
    let parent = DeviceStoragePath {
        device_name: sp.device_name,
        storage_name: sp.storage_name,
        path: joined,
    };
    let parent_path = Option::Some(parent.full_path());
    Result::Ok(
        TargetInspectionResult { target_name, target_status, parent_status, parent_path },
    )
}

/// Inspects a destination path against whichever namespace it
/// addresses.
pub fn inspect_path(
    manager: &Manager,
    local: &LocalNamespace,
    path: &str,
    path_type: PathType,
) -> (r: Result<TargetInspectionResult, CopyError>)
    requires
        manager.wf(),
        local.wf(),
    ensures
        match r {
            Result::Ok(insp) => insp.wf() && path_type != PathType::Invalid,
            Result::Err(e) => path_type == PathType::Invalid ==> e == CopyError::ParseError,
        },
        path_type == PathType::Local ==> (match r {
            Result::Ok(insp) => {
                let sv = seg_split(path@);
                let rootm = NodeModel::Folder(view_folder(local.root));
                &&& sv.len() > 0
                &&& insp.target_status == status_of(
                    resolve_node_spec(rootm, sv.take(sv.len() as int), 0),
                )
                &&& insp.target_name is Some
                &&& insp.target_name->0@ == sv.last()
                &&& insp.parent_status == status_of(
                    resolve_node_spec(rootm, sv.take(sv.len() - 1), 0),
                )
            },
            Result::Err(e) => e == CopyError::InvalidDestination,
        }),
{
    match path_type {
        PathType::DeviceStorage => inspect_device_path(manager, path),
        PathType::Local => inspect_local_path(local, path),
        PathType::Invalid => Result::Err(CopyError::ParseError),
    }
}

/// Classifies a local path, for callers that hold the segments already.
pub fn inspect_local_path_status(local: &LocalNamespace, segs: &Vec<String>) -> (r: TargetStatus)
    requires
        local.wf(),
    ensures
        r == status_of(
            resolve_node_spec(
                NodeModel::Folder(view_folder(local.root)),
                seq_views(segs@).take(segs@.len() as int),
                0,
            ),
        ),
{
    status_at(&local.root, segs, segs.len())
}

/// Classifies a device path.
pub fn inspect_device_path_status(manager: &Manager, storage_path: &DeviceStoragePath) -> (r:
    Result<TargetStatus, CopyError>)
    requires
        manager.wf(),
    ensures
        storage_lookup_outcome(
            *manager,
            storage_path.device_name@,
            storage_path.storage_name@,
            r,
        ),
        match r {
            Result::Ok(st) => exists|di: int, si: int|
                {
                    &&& 0 <= di < manager.devices@.len()
                    &&& 0 <= si < manager.devices@[di].storages@.len()
                    &&& manager.devices@[di].name@ == storage_path.device_name@
                    &&& (#[trigger] manager.devices@[di].storages@[si]).name@
                        == storage_path.storage_name@
                    &&& st == status_of(
                        resolve_node_spec(
                            NodeModel::Folder(view_folder(m_storage_root(*manager, di, si))),
                            seg_split(storage_path.path@).take(
                                seg_split(storage_path.path@).len() as int,
                            ),
                            0,
                        ),
                    )
                },
            Result::Err(e) => e == CopyError::NotFound || e == CopyError::AmbiguousMatch,
        },
{
    let (di, si) = match crate::find::find_storage(manager, storage_path) {
        Result::Ok(v) => v,
        Result::Err(e) => {
            return Result::Err(e);
        },
    };
    let storage = &manager.devices[di].storages[si];
    let segs = split_segments(storage_path.path.as_str());
    let n = segs.len();
    Result::Ok(status_at(&storage.root, &segs, n))
}

/// Whether the path holds a wildcard where none is allowed.  For a
/// device expression only the path part counts; the device and storage
/// names are plain names.
pub fn has_wildcard(path: &str, path_type: PathType) -> (r: Result<bool, CopyError>)
    ensures
        match r {
            Result::Ok(b) => match path_type {
                PathType::DeviceStorage => spec_device_form(path@) && b
                    == crate::path::has_wildcard_spec(
                    path@.subrange(
                        DeviceStoragePath::spec_second_colon(path@) + 1,
                        path@.len() as int,
                    ),
                ),
                PathType::Local => b == crate::path::has_wildcard_spec(path@),
                PathType::Invalid => b == false,
            },
            Result::Err(e) => e == CopyError::ParseError && path_type == PathType::DeviceStorage
                && !spec_device_form(path@),
        },
{
    match path_type {
        PathType::DeviceStorage => {
            let sp = match DeviceStoragePath::from(path) {
                Result::Ok(p) => p,
                Result::Err(e) => {
                    return Result::Err(e);
                },
            };
            Result::Ok(str_has_wildcard(sp.path.as_str()))
        },
        PathType::Local => Result::Ok(str_has_wildcard(path)),
        PathType::Invalid => Result::Ok(false),
    }
}

/// Resolves a destination inspection into the copy's base container and
/// the explicit name of the target, if any: a hidden target is refused;
/// a missing or file target lands in its parent folder under its own
/// name; an existing folder is itself the container, the source's name
/// kept.
pub fn get_destination_path_info(dest_inspection: &TargetInspectionResult, dest_path: &str) -> (r:
    Result<Option<(String, Option<String>)>, CopyError>)
    requires
        dest_inspection.wf(),
    ensures
        match dest_inspection.target_status {
            TargetStatus::Hidden => r == Result::<
                Option<(String, Option<String>)>,
                CopyError,
            >::Err(CopyError::InvalidDestination),
            TargetStatus::NotExist | TargetStatus::File => (if dest_inspection.parent_status
                == TargetStatus::Folder {
                &&& r is Ok
                &&& r->Ok_0 is Some
                &&& ({
                    let pair = r->Ok_0->0;
                    &&& pair.0@ == dest_inspection.parent_path->0@
                    &&& (match (pair.1, dest_inspection.target_name) {
                        (Option::Some(a), Option::Some(b)) => a@ == b@,
                        (Option::None, Option::None) => true,
                        _ => false,
                    })
                })
            } else {
                r == Result::<Option<(String, Option<String>)>, CopyError>::Ok(Option::None)
            }),
            TargetStatus::Folder => {
                &&& r is Ok
                &&& r->Ok_0 is Some
                &&& ({
                    let pair = r->Ok_0->0;
                    &&& pair.0@ == dest_path@
                    &&& pair.1 is None
                })
            },
        },
{
    match dest_inspection.target_status {
        TargetStatus::Hidden => Result::Err(CopyError::InvalidDestination),
        TargetStatus::NotExist | TargetStatus::File => {
            match dest_inspection.parent_status {
                TargetStatus::Folder => {
                    let base = match &dest_inspection.parent_path {
                        Option::Some(p) => p.clone(),
                        Option::None => String::new(),
                    };
                    let name = match &dest_inspection.target_name {
                        Option::Some(nm) => Option::Some(nm.clone()),
                        Option::None => Option::None,
                    };
                    Result::Ok(Option::Some((base, name)))
                },
                _ => Result::Ok(Option::None),
            }
        },
        TargetStatus::Folder => {
            Result::Ok(Option::Some((String::from_str(dest_path), Option::None)))
        },
    }
}


/// Whether a destination handle came through a call with nothing of it
/// changed: same folder and same retained set.
pub open spec fn dest_untouched<F: FolderOperate>(d0: F, d1: F) -> bool {
    &&& d1.folder_model() == d0.folder_model()
    &&& d1.retained_model() == d0.retained_model()
}

/// The node a local source path names, with the name a copy of it keeps
/// by default (its last segment).
pub open spec fn local_source_spec(local: LocalNamespace, src_path: Seq<char>) -> Option<
    NodeModel,
> {
    resolve_node_spec(NodeModel::Folder(view_folder(local.root)), seg_split(src_path), 0)
}

/// Resolves and snapshots a local source subtree.  A source with no
/// segments is the whole root: it has no name of its own, so it can be
/// copied only under an explicit destination name.
pub fn copy_to_local<F: FolderOperate>(
    local: &LocalNamespace,
    src_path: &str,
    destination_folder: &mut F,
    dest_is_parent_folder: bool,
    dest_name: Option<&String>,
    recursive: bool,
    mirror: bool,
) -> (r: Result<CopyStats, CopyError>)
    requires
        local.wf(),
        wf_entries(old(destination_folder).folder_model().entries),
    ensures
        wf_entries(final(destination_folder).folder_model().entries),
        local_source_spec(*local, src_path@) is None ==> (r == Result::<
            CopyStats,
            CopyError,
        >::Err(CopyError::NotFound) && dest_untouched(
            *old(destination_folder),
            *final(destination_folder),
        )),
        (local_source_spec(*local, src_path@) is Some && dest_name is None && seg_split(
            src_path@,
        ).len() == 0) ==> (r == Result::<CopyStats, CopyError>::Err(CopyError::ParseError)
            && dest_untouched(*old(destination_folder), *final(destination_folder))),
        match r {
            Result::Ok(st) => ({
                let srcm = local_source_spec(*local, src_path@);
                let sv = seg_split(src_path@);
                &&& srcm is Some
                &&& (match dest_name {
                    Option::Some(nm) => copy_node_post(
                        srcm->Some_0,
                        old(destination_folder).folder_model(),
                        old(destination_folder).retained_model(),
                        final(destination_folder).folder_model(),
                        final(destination_folder).retained_model(),
                        dest_is_parent_folder,
                        nm@,
                        recursive,
                        mirror,
                        CopyStats { files_copied: 0 },
                        st,
                    ),
                    Option::None => sv.len() > 0 && copy_node_post(
                        srcm->Some_0,
                        old(destination_folder).folder_model(),
                        old(destination_folder).retained_model(),
                        final(destination_folder).folder_model(),
                        final(destination_folder).retained_model(),
                        dest_is_parent_folder,
                        sv.last(),
                        recursive,
                        mirror,
                        CopyStats { files_copied: 0 },
                        st,
                    ),
                })
            }),
            Result::Err(_) => true,
        },
{
    let segs = split_segments(src_path);
    let node = match resolve_clone(&local.root, &segs) {
        Option::Some(n) => n,
        Option::None => {
            return Result::Err(CopyError::NotFound);
        },
    };
    let real_dest_name: String = match dest_name {
        Option::Some(nm) => nm.clone(),
        Option::None => {
            if segs.len() == 0 {
                // the root has no name to copy under
                return Result::Err(CopyError::ParseError);
            }
            proof {
                assert(seq_views(segs@).last() == segs@[segs@.len() - 1]@);
            }
            segs[segs.len() - 1].clone()
        },
    };
    let processor = LocalCopyProcessor::new(node);
    processor.copy(&real_dest_name, destination_folder, dest_is_parent_folder, recursive, mirror)
}

/// Resolves and snapshots a device source subtree, then runs the copy.
pub fn copy_to_device_storage<F: FolderOperate>(
    manager: &Manager,
    src_path: &str,
    destination_folder: &mut F,
    dest_is_parent_folder: bool,
    dest_name: Option<&String>,
    recursive: bool,
    mirror: bool,
) -> (r: Result<CopyStats, CopyError>)
    requires
        manager.wf(),
        wf_entries(old(destination_folder).folder_model().entries),
    ensures
        wf_entries(final(destination_folder).folder_model().entries),
        !spec_device_form(src_path@) ==> (r == Result::<CopyStats, CopyError>::Err(
            CopyError::ParseError,
        ) && dest_untouched(*old(destination_folder), *final(destination_folder))),
        spec_device_form(src_path@) ==> {
            let dev = DeviceStoragePath::spec_device_part(src_path@);
            let stor = DeviceStoragePath::spec_storage_part(src_path@);
            &&& (crate::find::ambiguous_device(*manager, dev) ==> (r == Result::<
                CopyStats,
                CopyError,
            >::Err(CopyError::AmbiguousMatch) && dest_untouched(
                *old(destination_folder),
                *final(destination_folder),
            )))
            &&& (!crate::find::some_device(*manager, dev) ==> (r == Result::<
                CopyStats,
                CopyError,
            >::Err(CopyError::NotFound) && dest_untouched(
                *old(destination_folder),
                *final(destination_folder),
            )))
            &&& (forall|di: int|
                0 <= di < manager.devices@.len() && (#[trigger] manager.devices@[di]).name@
                    == dev && !crate::find::ambiguous_device(*manager, dev) ==> {
                    &&& (crate::find::ambiguous_storage(manager.devices@[di], stor) ==> (r
                        == Result::<CopyStats, CopyError>::Err(CopyError::AmbiguousMatch)
                        && dest_untouched(
                        *old(destination_folder),
                        *final(destination_folder),
                    )))
                    &&& (!crate::find::some_storage(manager.devices@[di], stor) ==> (r
                        == Result::<CopyStats, CopyError>::Err(CopyError::NotFound)
                        && dest_untouched(
                        *old(destination_folder),
                        *final(destination_folder),
                    )))
                    &&& (forall|si: int|
                        0 <= si < manager.devices@[di].storages@.len() && (
                        #[trigger] manager.devices@[di].storages@[si]).name@ == stor
                            && !crate::find::ambiguous_storage(manager.devices@[di], stor)
                            && crate::find::found_object(
                            *manager,
                            di,
                            si,
                            DeviceStoragePath::spec_path_part(src_path@),
                        ) is None ==> (r == Result::<CopyStats, CopyError>::Err(
                            CopyError::NotFound,
                        ) && dest_untouched(
                            *old(destination_folder),
                            *final(destination_folder),
                        )))
                })
        },
        match r {
            Result::Ok(st) => exists|srcm: NodeModel, sname: Seq<char>|
                {
                    &&& #[trigger] device_source_matches(*manager, src_path@, srcm, sname)
                    &&& copy_node_post(
                        srcm,
                        old(destination_folder).folder_model(),
                        old(destination_folder).retained_model(),
                        final(destination_folder).folder_model(),
                        final(destination_folder).retained_model(),
                        dest_is_parent_folder,
                        (match dest_name {
                            Option::Some(nm) => nm@,
                            Option::None => sname,
                        }),
                        recursive,
                        mirror,
                        CopyStats { files_copied: 0 },
                        st,
                    )
                },
            Result::Err(_) => true,
        },
{
    let sp = match DeviceStoragePath::from(src_path) {
        Result::Ok(p) => p,
        Result::Err(e) => {
            return Result::Err(e);
        },
    };
    let (info, found_name, node) = match find_file_or_folder(manager, &sp) {
        Result::Ok(Option::Some(v)) => v,
        Result::Ok(Option::None) => {
            return Result::Err(CopyError::NotFound);
        },
        Result::Err(e) => {
            return Result::Err(e);
        },
    };
    let ghost srcm_g = view_node(node);
    let ghost sname_g = found_name@;
    proof {
        assert(device_source_matches(*manager, src_path@, srcm_g, sname_g));
    }
    let real_dest_name: String = match dest_name {
        Option::Some(nm) => nm.clone(),
        Option::None => found_name,
    };
    let processor = LocalCopyProcessor::new(node);
    let r = processor.copy(
        &real_dest_name,
        destination_folder,
        dest_is_parent_folder,
        recursive,
        mirror,
    );
    r
}

/// Whether `srcm`, to be copied under `sname` by default, is what the
/// device-side source path names.
pub open spec fn device_source_matches(
    m: Manager,
    src_path: Seq<char>,
    srcm: NodeModel,
    sname: Seq<char>,
) -> bool {
    &&& spec_device_form(src_path)
    &&& exists|di: int, si: int|
        {
            &&& 0 <= di < m.devices@.len()
            &&& 0 <= si < m.devices@[di].storages@.len()
            &&& m.devices@[di].name@ == DeviceStoragePath::spec_device_part(src_path)
            &&& (#[trigger] m.devices@[di].storages@[si]).name@
                == DeviceStoragePath::spec_storage_part(src_path)
            &&& crate::find::found_object(
                m,
                di,
                si,
                DeviceStoragePath::spec_path_part(src_path),
            ) == Option::Some(srcm)
            &&& sname == (if seg_split(DeviceStoragePath::spec_path_part(src_path)).len() == 0 {
                m.devices@[di].storages@[si].name@
            } else {
                seg_split(DeviceStoragePath::spec_path_part(src_path)).last()
            })
        }
}

/// Dispatches the copy on the source path's kind.
pub fn do_copy<F: FolderOperate>(
    manager: &Manager,
    local: &LocalNamespace,
    src_path: &str,
    src_path_type: PathType,
    destination_folder: &mut F,
    dest_is_parent_folder: bool,
    dest_name: Option<&String>,
    recursive: bool,
    mirror: bool,
) -> (r: Result<CopyStats, CopyError>)
    requires
        manager.wf(),
        local.wf(),
        wf_entries(old(destination_folder).folder_model().entries),
    ensures
        wf_entries(final(destination_folder).folder_model().entries),
        src_path_type == PathType::Invalid ==> (r == Result::<CopyStats, CopyError>::Err(
            CopyError::ParseError,
        ) && dest_untouched(*old(destination_folder), *final(destination_folder))),
        src_path_type == PathType::Local ==> {
            &&& (local_source_spec(*local, src_path@) is None ==> (r == Result::<
                CopyStats,
                CopyError,
            >::Err(CopyError::NotFound) && dest_untouched(
                *old(destination_folder),
                *final(destination_folder),
            )))
            &&& ((local_source_spec(*local, src_path@) is Some && dest_name is None
                && seg_split(src_path@).len() == 0) ==> (r == Result::<CopyStats, CopyError>::Err(
                CopyError::ParseError,
            ) && dest_untouched(*old(destination_folder), *final(destination_folder))))
        },
        src_path_type == PathType::DeviceStorage && !spec_device_form(src_path@) ==> (r
            == Result::<CopyStats, CopyError>::Err(CopyError::ParseError) && dest_untouched(
            *old(destination_folder),
            *final(destination_folder),
        )),
        src_path_type == PathType::DeviceStorage && spec_device_form(src_path@) ==> {
            let dev = DeviceStoragePath::spec_device_part(src_path@);
            let stor = DeviceStoragePath::spec_storage_part(src_path@);
            &&& (crate::find::ambiguous_device(*manager, dev) ==> (r == Result::<
                CopyStats,
                CopyError,
            >::Err(CopyError::AmbiguousMatch) && dest_untouched(
                *old(destination_folder),
                *final(destination_folder),
            )))
            &&& (!crate::find::some_device(*manager, dev) ==> (r == Result::<
                CopyStats,
                CopyError,
            >::Err(CopyError::NotFound) && dest_untouched(
                *old(destination_folder),
                *final(destination_folder),
            )))
        },
        match r {
            Result::Ok(st) => {
                &&& (src_path_type == PathType::Local ==> ({
                    let srcm = local_source_spec(*local, src_path@);
                    let sv = seg_split(src_path@);
                    &&& srcm is Some
                    &&& (match dest_name {
                        Option::Some(nm) => copy_node_post(
                            srcm->Some_0,
                            old(destination_folder).folder_model(),
                            old(destination_folder).retained_model(),
                            final(destination_folder).folder_model(),
                            final(destination_folder).retained_model(),
                            dest_is_parent_folder,
                            nm@,
                            recursive,
                            mirror,
                            CopyStats { files_copied: 0 },
                            st,
                        ),
                        Option::None => sv.len() > 0 && copy_node_post(
                            srcm->Some_0,
                            old(destination_folder).folder_model(),
                            old(destination_folder).retained_model(),
                            final(destination_folder).folder_model(),
                            final(destination_folder).retained_model(),
                            dest_is_parent_folder,
                            sv.last(),
                            recursive,
                            mirror,
                            CopyStats { files_copied: 0 },
                            st,
                        ),
                    })
                }))
                &&& (src_path_type == PathType::DeviceStorage ==> exists|
                    srcm: NodeModel,
                    sname: Seq<char>,
                |
                    {
                        &&& #[trigger] device_source_matches(*manager, src_path@, srcm, sname)
                        &&& copy_node_post(
                            srcm,
                            old(destination_folder).folder_model(),
                            old(destination_folder).retained_model(),
                            final(destination_folder).folder_model(),
                            final(destination_folder).retained_model(),
                            dest_is_parent_folder,
                            (match dest_name {
                                Option::Some(nm) => nm@,
                                Option::None => sname,
                            }),
                            recursive,
                            mirror,
                            CopyStats { files_copied: 0 },
                            st,
                        )
                    })
            },
            Result::Err(_) => true,
        },
{
    match src_path_type {
        PathType::DeviceStorage => copy_to_device_storage(
            manager,
            src_path,
            destination_folder,
            dest_is_parent_folder,
            dest_name,
            recursive,
            mirror,
        ),
        PathType::Local => copy_to_local(
            local,
            src_path,
            destination_folder,
            dest_is_parent_folder,
            dest_name,
            recursive,
            mirror,
        ),
        PathType::Invalid => Result::Err(CopyError::ParseError),
    }
}

/// What one copy did along the path down to the destination container:
/// at each level only the entry on the path changed, and it stayed a
/// folder with its own attributes.
pub open spec fn replaced_along(
    m0: crate::namespace::FolderModel,
    m1: crate::namespace::FolderModel,
    sv: Seq<Seq<char>>,
    depth: int,
) -> bool
    decreases sv.len() - depth,
{
    if !(0 <= depth < sv.len()) {
        true
    } else {
        &&& crate::copy_processor::same_folder_attrs(m1, m0)
        &&& (forall|n: Seq<char>|
            #![trigger lookup(m1.entries, n)]
            n != sv[depth] ==> lookup(m1.entries, n) == lookup(m0.entries, n))
        &&& (forall|n: Seq<char>|
            #![trigger has_name(m1.entries, n)]
            has_name(m1.entries, n) <==> has_name(m0.entries, n))
        &&& lookup(m0.entries, sv[depth]) is Some
        &&& lookup(m0.entries, sv[depth])->Some_0 is Folder
        &&& lookup(m1.entries, sv[depth]) is Some
        &&& lookup(m1.entries, sv[depth])->Some_0 is Folder
        &&& replaced_along(
            lookup(m0.entries, sv[depth])->Some_0->Folder_0,
            lookup(m1.entries, sv[depth])->Some_0->Folder_0,
            sv,
            depth + 1,
        )
    }
}

/// Descends to the destination container named by the remaining
/// segments and runs the bound copy there.
#[verifier::rlimit(100)]
pub fn copy_at_folder(
    root: &mut FolderData,
    segs: &Vec<String>,
    depth: usize,
    processor: &LocalCopyProcessor,
    dest_name: &String,
    dest_is_parent_folder: bool,
    recursive: bool,
    mirror: bool,
) -> (r: Result<CopyStats, CopyError>)
    requires
        wf_entries(view_folder(*old(root)).entries),
        wf_node(view_node(processor.source)),
        depth <= segs@.len(),
    ensures
        wf_entries(view_folder(*final(root)).entries),
        match r {
            Result::Ok(st) => ({
                let sv = seq_views(segs@);
                let m0 = view_folder(*old(root));
                let m1 = view_folder(*final(root));
                let c0 = resolve_node_spec(NodeModel::Folder(m0), sv, depth as int);
                let c1 = resolve_node_spec(NodeModel::Folder(m1), sv, depth as int);
                &&& c0 is Some
                &&& c0->Some_0 is Folder
                &&& c1 is Some
                &&& c1->Some_0 is Folder
                &&& replaced_along(m0, m1, sv, depth as int)
                &&& exists|rm1: Set<Seq<char>>|
                    #[trigger] copy_node_post(
                        view_node(processor.source),
                        c0->Some_0->Folder_0,
                        Set::<Seq<char>>::empty(),
                        c1->Some_0->Folder_0,
                        rm1,
                        dest_is_parent_folder,
                        dest_name@,
                        recursive,
                        mirror,
                        CopyStats { files_copied: 0 },
                        st,
                    )
            }),
            Result::Err(_) => true,
        },
    decreases segs@.len() - depth,
{
    let ghost sv = seq_views(segs@);
    let ghost m0 = view_folder(*root);
    if depth == segs.len() {
        let mut data = FolderData {
            children: Vec::new(),
            hidden: false,
            system: false,
            can_delete: true,
            created: Option::None,
            modified: Option::None,
        };
        core::mem::swap(root, &mut data);
        let mut handle = LocalFolder::new(data);
        let r = processor.copy(dest_name, &mut handle, dest_is_parent_folder, recursive, mirror);
        let mut data2 = handle.data;
        core::mem::swap(root, &mut data2);
        proof {
            let m1 = view_folder(*root);
            assert(resolve_node_spec(NodeModel::Folder(m0), sv, depth as int)
                == Option::Some(NodeModel::Folder(m0)));
            assert(resolve_node_spec(NodeModel::Folder(m1), sv, depth as int)
                == Option::Some(NodeModel::Folder(m1)));
            if r is Ok {
                let st = r->Ok_0;
                assert(copy_node_post(
                    view_node(processor.source),
                    m0,
                    Set::<Seq<char>>::empty(),
                    m1,
                    crate::folder_operate::FolderOperate::retained_model(&handle),
                    dest_is_parent_folder,
                    dest_name@,
                    recursive,
                    mirror,
                    CopyStats { files_copied: 0 },
                    st,
                ));
            }
        }
        r
    } else {
        proof {
            lemma_lookup_entries(m0.entries, sv[depth as int]);
        }
        let i = match find_child(&root.children, &segs[depth]) {
            Option::Some(i) => i,
            Option::None => {
                return Result::Err(CopyError::BackendError);
            },
        };
        let is_folder = match &root.children[i].node {
            FsNode::Folder(_) => true,
            FsNode::File(_) => false,
        };
        if !is_folder {
            return Result::Err(CopyError::BackendError);
        }
        proof {
            crate::namespace::lemma_view_entries_remove(root.children@, i as int);
            lemma_lookup_remove_entry(m0.entries, i as int);
        }
        let entry = root.children.remove(i);
        let ghost ename = m0.entries[i as int].name;
        match entry.node {
            FsNode::Folder(mut fd) => {
                proof {
                    assert(wf_node(view_entry(entry).node));
                }
                let rr = copy_at_folder(
                    &mut fd,
                    segs,
                    depth + 1,
                    processor,
                    dest_name,
                    dest_is_parent_folder,
                    recursive,
                    mirror,
                );
                let ghost fdf = view_folder(fd);
                let e2 = FsEntry { name: entry.name, node: FsNode::Folder(fd) };
                proof {
                    crate::namespace::lemma_view_entries_insert(
                        root.children@,
                        i as int,
                        e2,
                    );
                    lemma_lookup_insert_entry(
                        m0.entries.remove(i as int),
                        i as int,
                        view_entry(e2),
                    );
                    assert(view_entry(e2).name == ename);
                }
                root.children.insert(i, e2);
                proof {
                    let m1 = view_folder(*root);
                    assert(m1.entries == m0.entries.remove(i as int).insert(
                        i as int,
                        view_entry(e2),
                    ));
                    assert(lookup(m1.entries, ename) == Option::Some(
                        NodeModel::Folder(fdf),
                    ));
                    assert forall|n: Seq<char>|
                        #![trigger lookup(m1.entries, n)]
                        n != ename implies lookup(m1.entries, n) == lookup(m0.entries, n) by {}
                    assert forall|n: Seq<char>|
                        #![trigger has_name(m1.entries, n)]
                        has_name(m1.entries, n) <==> has_name(m0.entries, n) by {
                        lemma_lookup_entries(m1.entries, n);
                        lemma_lookup_entries(m0.entries, n);
                    }
                    assert(ename == sv[depth as int]);
                    assert(lookup(m0.entries, sv[depth as int]) == Option::Some(
                        view_entry(entry).node,
                    ));
                    if rr is Ok {
                        assert(resolve_node_spec(NodeModel::Folder(m0), sv, depth as int)
                            == resolve_node_spec(
                            view_entry(entry).node,
                            sv,
                            depth as int + 1,
                        ));
                        assert(resolve_node_spec(NodeModel::Folder(m1), sv, depth as int)
                            == resolve_node_spec(
                            NodeModel::Folder(fdf),
                            sv,
                            depth as int + 1,
                        ));
                        assert(replaced_along(m0, m1, sv, depth as int));
                    }
                }
                rr
            },
            FsNode::File(fdata) => {
                // unreachable: the entry was checked to be a folder
                let e2 = FsEntry { name: entry.name, node: FsNode::File(fdata) };
                proof {
                    crate::namespace::lemma_view_entries_insert(
                        root.children@,
                        i as int,
                        e2,
                    );
                    lemma_lookup_insert_entry(
                        m0.entries.remove(i as int),
                        i as int,
                        view_entry(e2),
                    );
                }
                root.children.insert(i, e2);
                proof {
                    let m1 = view_folder(*root);
                    assert(view_entry(e2) == m0.entries[i as int]);
                    assert(m1.entries =~= m0.entries);
                }
                Result::Err(CopyError::BackendError)
            },
        }
    }
}


/// Whether the path, read as its own kind, holds a wildcard token where
/// the copy command allows none.
pub open spec fn endpoint_wildcard(s: Seq<char>) -> bool {
    match crate::path::spec_path_type(s) {
        PathType::DeviceStorage => crate::path::has_wildcard_spec(
            DeviceStoragePath::spec_path_part(s),
        ),
        PathType::Local => crate::path::has_wildcard_spec(s),
        PathType::Invalid => false,
    }
}

/// How a destination classifies under the unified resolution rule: an
/// existing folder is itself the container; a missing or file target
/// lands in its parent folder under its own name; a hidden target or an
/// uncreatable parent resolves to nothing.
pub open spec fn dest_resolution(rootm: NodeModel, sv: Seq<Seq<char>>) -> Option<
    (Seq<Seq<char>>, Option<Seq<char>>),
> {
    let tstat = status_of(resolve_node_spec(rootm, sv, 0));
    if tstat == TargetStatus::Folder {
        Option::Some((sv, Option::<Seq<char>>::None))
    } else if tstat == TargetStatus::Hidden {
        Option::None
    } else if sv.len() > 0 && status_of(resolve_node_spec(rootm, sv.take(sv.len() - 1), 0))
        == TargetStatus::Folder {
        Option::Some((sv.take(sv.len() - 1), Option::Some(sv.last())))
    } else {
        Option::None
    }
}

/// Whether `srcm` is the subtree the source path names, and `sname` the
/// name it is copied under when the destination gives none.
pub open spec fn source_matches(
    m: Manager,
    l: LocalNamespace,
    src: Seq<char>,
    srcm: NodeModel,
    sname: Seq<char>,
) -> bool {
    match crate::path::spec_path_type(src) {
        PathType::Local => local_source_spec(l, src) == Option::Some(srcm) && (seg_split(
            src,
        ).len() > 0 ==> sname == seg_split(src).last()),
        PathType::DeviceStorage => device_source_matches(m, src, srcm, sname),
        PathType::Invalid => false,
    }
}

/// The destination name one copy uses: the explicit target name when
/// resolution gave one, else the source's own name.
pub open spec fn chosen_name(explicit: Option<Seq<char>>, sname: Seq<char>) -> Seq<char> {
    match explicit {
        Option::Some(n) => n,
        Option::None => sname,
    }
}

/// Neither endpoint carries a wildcard where the copy command allows
/// none.
pub open spec fn no_wildcards(src: Seq<char>, dest: Seq<char>) -> bool {
    !endpoint_wildcard(src) && !endpoint_wildcard(dest)
}

/// Whether a local destination cannot be resolved into a container: a
/// path with no segments (the nameless root), or one the resolution
/// rule refuses (hidden target, or no creatable parent).
pub open spec fn local_dest_fails(l0: LocalNamespace, dest: Seq<char>) -> bool {
    ||| seg_split(dest).len() == 0
    ||| dest_resolution(NodeModel::Folder(view_folder(l0.root)), seg_split(dest)) is None
}

/// Everything one successful copy command guarantees of the two worlds,
/// and how it classifies refused commands.
pub open spec fn command_copy_post(
    m0w: Manager,
    l0: LocalNamespace,
    m1w: Manager,
    l1: LocalNamespace,
    src: Seq<char>,
    dest: Seq<char>,
    recursive: bool,
    mirror: bool,
    r: Result<CopyStats, CopyError>,
) -> bool {
    &&& ((endpoint_wildcard(src) || endpoint_wildcard(dest)) ==> (r == Result::<
        CopyStats,
        CopyError,
    >::Err(CopyError::ParseError) && m1w == m0w && l1 == l0))
    &&& ((crate::path::spec_path_type(src) == PathType::Invalid || crate::path::spec_path_type(
        dest,
    ) == PathType::Invalid) ==> ((r is Err) && m1w == m0w && l1 == l0))
    &&& (no_wildcards(src, dest) && crate::path::spec_path_type(dest) == PathType::Local
        && local_dest_fails(l0, dest) ==> (r == Result::<CopyStats, CopyError>::Err(
        CopyError::InvalidDestination,
    ) && m1w == m0w && l1 == l0))
    &&& (no_wildcards(src, dest) && crate::path::spec_path_type(dest) == PathType::Local
        && !local_dest_fails(l0, dest) && crate::path::spec_path_type(src) == PathType::Local
        && local_source_spec(l0, src) is None ==> (r == Result::<CopyStats, CopyError>::Err(
        CopyError::NotFound,
    ) && m1w == m0w && l1 == l0))
    &&& (no_wildcards(src, dest) && crate::path::spec_path_type(dest) == PathType::Local
        && !local_dest_fails(l0, dest) && crate::path::spec_path_type(src) == PathType::Local
        && local_source_spec(l0, src) is Some && dest_resolution(
        NodeModel::Folder(view_folder(l0.root)),
        seg_split(dest),
    )->Some_0.1 is None && seg_split(src).len() == 0 ==> (r == Result::<
        CopyStats,
        CopyError,
    >::Err(CopyError::ParseError) && m1w == m0w && l1 == l0))
    &&& (no_wildcards(src, dest) && crate::path::spec_path_type(dest) == PathType::Local
        && !local_dest_fails(l0, dest) && crate::path::spec_path_type(src)
        == PathType::DeviceStorage ==> {
        let sdev = DeviceStoragePath::spec_device_part(src);
        &&& (crate::find::ambiguous_device(m0w, sdev) ==> (r == Result::<
            CopyStats,
            CopyError,
        >::Err(CopyError::AmbiguousMatch) && m1w == m0w && l1 == l0))
        &&& (!crate::find::some_device(m0w, sdev) ==> (r == Result::<CopyStats, CopyError>::Err(
            CopyError::NotFound,
        ) && m1w == m0w && l1 == l0))
    })
    &&& (no_wildcards(src, dest) && crate::path::spec_path_type(dest)
        == PathType::DeviceStorage ==> {
        let ddev = DeviceStoragePath::spec_device_part(dest);
        &&& (crate::find::ambiguous_device(m0w, ddev) ==> (r == Result::<
            CopyStats,
            CopyError,
        >::Err(CopyError::AmbiguousMatch) && m1w == m0w && l1 == l0))
        &&& (!crate::find::some_device(m0w, ddev) ==> (r == Result::<CopyStats, CopyError>::Err(
            CopyError::NotFound,
        ) && m1w == m0w && l1 == l0))
    })
    &&& (match r {
        Result::Ok(st) => {
            &&& (crate::path::spec_path_type(dest) == PathType::Local ==> ({
                let m0 = view_folder(l0.root);
                let m1 = view_folder(l1.root);
                let sv = seg_split(dest);
                &&& m1w == m0w
                &&& dest_resolution(NodeModel::Folder(m0), sv) is Some
                &&& ({
                    let csv = dest_resolution(NodeModel::Folder(m0), sv)->Some_0.0;
                    let explicit = dest_resolution(NodeModel::Folder(m0), sv)->Some_0.1;
                    let c0 = resolve_node_spec(NodeModel::Folder(m0), csv, 0);
                    let c1 = resolve_node_spec(NodeModel::Folder(m1), csv, 0);
                    &&& c0 is Some
                    &&& c0->Some_0 is Folder
                    &&& c1 is Some
                    &&& c1->Some_0 is Folder
                    &&& replaced_along(m0, m1, csv, 0)
                    &&& exists|srcm: NodeModel, sname: Seq<char>, rm1: Set<Seq<char>>|
                        {
                            &&& source_matches(m0w, l0, src, srcm, sname)
                            &&& #[trigger] copy_node_post(
                                srcm,
                                c0->Some_0->Folder_0,
                                Set::<Seq<char>>::empty(),
                                c1->Some_0->Folder_0,
                                rm1,
                                explicit is Some,
                                chosen_name(explicit, sname),
                                recursive,
                                mirror,
                                CopyStats { files_copied: 0 },
                                st,
                            )
                        }
                })
            }))
            &&& (crate::path::spec_path_type(dest) == PathType::DeviceStorage ==> (l1 == l0
                && spec_device_form(dest) && (exists|di: int, si: int|
                {
                    &&& 0 <= di < m0w.devices@.len()
                    &&& 0 <= si < m0w.devices@[di].storages@.len()
                    &&& m0w.devices@[di].name@ == DeviceStoragePath::spec_device_part(dest)
                    &&& (#[trigger] m0w.devices@[di].storages@[si]).name@
                        == DeviceStoragePath::spec_storage_part(dest)
                    &&& m1w.devices@.len() == m0w.devices@.len()
                    &&& (forall|a: int|
                        0 <= a < m0w.devices@.len() && a != di ==> (#[trigger] m1w.devices@[a])
                            == m0w.devices@[a])
                    &&& m1w.devices@[di].name == m0w.devices@[di].name
                    &&& m1w.devices@[di].storages@.len() == m0w.devices@[di].storages@.len()
                    &&& (forall|b: int|
                        0 <= b < m0w.devices@[di].storages@.len() && b != si ==> (
                        #[trigger] m1w.devices@[di].storages@[b])
                            == m0w.devices@[di].storages@[b])
                    &&& m1w.devices@[di].storages@[si].name
                        == m0w.devices@[di].storages@[si].name
                    &&& ({
                        let m0 = view_folder(m0w.devices@[di].storages@[si].root);
                        let m1 = view_folder(m1w.devices@[di].storages@[si].root);
                        let sv = seg_split(DeviceStoragePath::spec_path_part(dest));
                        &&& dest_resolution(NodeModel::Folder(m0), sv) is Some
                        &&& ({
                            let csv = dest_resolution(NodeModel::Folder(m0), sv)->Some_0.0;
                            let explicit = dest_resolution(NodeModel::Folder(m0), sv)->Some_0.1;
                            let c0 = resolve_node_spec(NodeModel::Folder(m0), csv, 0);
                            let c1 = resolve_node_spec(NodeModel::Folder(m1), csv, 0);
                            &&& c0 is Some
                            &&& c0->Some_0 is Folder
                            &&& c1 is Some
                            &&& c1->Some_0 is Folder
                            &&& replaced_along(m0, m1, csv, 0)
                            &&& exists|srcm: NodeModel, sname: Seq<char>, rm1: Set<Seq<char>>|
                                {
                                    &&& source_matches(m0w, l0, src, srcm, sname)
                                    &&& #[trigger] copy_node_post(
                                        srcm,
                                        c0->Some_0->Folder_0,
                                        Set::<Seq<char>>::empty(),
                                        c1->Some_0->Folder_0,
                                        rm1,
                                        explicit is Some,
                                        chosen_name(explicit, sname),
                                        recursive,
                                        mirror,
                                        CopyStats { files_copied: 0 },
                                        st,
                                    )
                                }
                        })
                    })
                })))
        },
        Result::Err(_) => true,
    })
}

/// One copy command: refuse wildcarded endpoints, resolve the
/// destination container, snapshot the source, and run the recursive
/// copy at the container.  The destination world changes only along the
/// container path; the other world does not change at all.
#[verifier::rlimit(100)]
pub fn command_copy(
    manager: &mut Manager,
    local: &mut LocalNamespace,
    paths: &Paths,
    recursive: bool,
    mirror: bool,
) -> (r: Result<CopyStats, CopyError>)
    requires
        old(manager).wf(),
        old(local).wf(),
    ensures
        final(local).wf(),
        final(manager).wf(),
        command_copy_post(
            *old(manager),
            *old(local),
            *final(manager),
            *final(local),
            paths.src@,
            paths.dest@,
            recursive,
            mirror,
            r,
        ),
{
    let src_path = paths.src.as_str();
    let dest_path = paths.dest.as_str();
    let src_path_type = get_path_type(src_path);
    let dest_path_type = get_path_type(dest_path);
    match has_wildcard(src_path, src_path_type) {
        Result::Ok(true) => {
            return Result::Err(CopyError::ParseError);
        },
        Result::Ok(false) => {},
        Result::Err(e) => {
            return Result::Err(e);
        },
    }
    match has_wildcard(dest_path, dest_path_type) {
        Result::Ok(true) => {
            return Result::Err(CopyError::ParseError);
        },
        Result::Ok(false) => {},
        Result::Err(e) => {
            return Result::Err(e);
        },
    }
    let dest_inspection = match dest_path_type {
        PathType::DeviceStorage => match inspect_device_path(&*manager, dest_path) {
            Result::Ok(v) => v,
            Result::Err(e) => {
                return Result::Err(e);
            },
        },
        PathType::Local => match inspect_local_path(&*local, dest_path) {
            Result::Ok(v) => v,
            Result::Err(e) => {
                return Result::Err(e);
            },
        },
        PathType::Invalid => {
            return Result::Err(CopyError::ParseError);
        },
    };
    let (dest_base, dest_name_opt) = match get_destination_path_info(
        &dest_inspection,
        dest_path,
    ) {
        Result::Ok(Option::Some(v)) => v,
        Result::Ok(Option::None) => {
            proof {
                if dest_path_type == PathType::Local {
                    let sv = seg_split(paths.dest@);
                    let rootm0 = NodeModel::Folder(view_folder(old(local).root));
                    assert(sv.take(sv.len() as int) =~= sv);
                    assert(local_dest_fails(*old(local), paths.dest@));
                }
            }
            return Result::Err(CopyError::InvalidDestination);
        },
        Result::Err(e) => {
            proof {
                if dest_path_type == PathType::Local {
                    let sv = seg_split(paths.dest@);
                    let rootm0 = NodeModel::Folder(view_folder(old(local).root));
                    assert(sv.take(sv.len() as int) =~= sv);
                    assert(local_dest_fails(*old(local), paths.dest@));
                }
            }
            return Result::Err(e);
        },
    };
    proof {
        // a resolved destination pins a container: the local resolution rule
        // cannot fail from here on
        if dest_path_type == PathType::Local {
            let sv = seg_split(paths.dest@);
            let rootm0 = NodeModel::Folder(view_folder(old(local).root));
            assert(sv.take(sv.len() as int) =~= sv);
            assert(sv.len() > 0) by {
                if sv.len() == 0 {
                    assert(resolve_node_spec(rootm0, sv.take(sv.len() as int), 0)
                        == Option::Some(rootm0));
                }
            }
            assert(dest_resolution(rootm0, sv) is Some);
            assert(!local_dest_fails(*old(local), paths.dest@));
        }
    }
    // snapshot the source subtree before touching any destination tree
    let (src_node, default_name_opt): (FsNode, Option<String>) = match src_path_type {
        PathType::Local => {
            let segs = split_segments(src_path);
            match resolve_clone(&local.root, &segs) {
                Option::Some(n) => {
                    let dn: Option<String> = if segs.len() > 0 {
                        proof {
                            assert(seq_views(segs@).last() == segs@[segs@.len() - 1]@);
                        }
                        Option::Some(segs[segs.len() - 1].clone())
                    } else {
                        Option::None
                    };
                    (n, dn)
                },
                Option::None => {
                    return Result::Err(CopyError::NotFound);
                },
            }
        },
        PathType::DeviceStorage => {
            let sp = match DeviceStoragePath::from(src_path) {
                Result::Ok(p) => p,
                Result::Err(e) => {
                    return Result::Err(e);
                },
            };
            match find_file_or_folder(&*manager, &sp) {
                Result::Ok(Option::Some((info, nm, node))) => {
                    proof {
                        assert(device_source_matches(
                            *manager,
                            src_path@,
                            view_node(node),
                            nm@,
                        ));
                    }
                    (node, Option::Some(nm))
                },
                Result::Ok(Option::None) => {
                    return Result::Err(CopyError::NotFound);
                },
                Result::Err(e) => {
                    return Result::Err(e);
                },
            }
        },
        PathType::Invalid => {
            return Result::Err(CopyError::ParseError);
        },
    };
    let ghost srcm_g = view_node(src_node);
    let ghost sname_g: Seq<char> = match &default_name_opt {
        Option::Some(nm) => nm@,
        Option::None => Seq::empty(),
    };
    let dest_is_parent_folder = match &dest_name_opt {
        Option::Some(_) => true,
        Option::None => false,
    };
    let real_dest_name: String = match dest_name_opt {
        Option::Some(n) => n,
        Option::None => match default_name_opt {
            Option::Some(n) => n,
            Option::None => {
                // the source is a nameless root and no target name was given
                return Result::Err(CopyError::ParseError);
            },
        },
    };
    let processor = LocalCopyProcessor::new(src_node);
    match dest_path_type {
        PathType::Local => {
            let mut csegs = split_segments(dest_path);
            let ghost sv = seg_split(dest_path@);
            let ghost rootm0 = NodeModel::Folder(view_folder(local.root));
            proof {
                assert(sv.take(sv.len() as int) =~= sv);
            }
            if !matches!(dest_inspection.target_status, TargetStatus::Folder) {
                proof {
                    assert(dest_inspection.parent_status == TargetStatus::Folder);
                    assert(sv.len() > 0);
                    assert(seq_views(csegs@).len() > 0);
                }
                csegs.pop();
                proof {
                    assert(seq_views(csegs@) =~= sv.take(sv.len() - 1));
                    assert(dest_resolution(rootm0, sv) == Option::Some(
                        (sv.take(sv.len() - 1), Option::Some(sv.last())),
                    ));
                }
            } else {
                proof {
                    assert(seq_views(csegs@) =~= sv);
                    assert(dest_resolution(rootm0, sv) == Option::Some(
                        (sv, Option::<Seq<char>>::None),
                    ));
                }
            }
            let ghost csv = seq_views(csegs@);
            let ghost explicit = dest_resolution(rootm0, sv)->Some_0.1;
            proof {
                assert(csv == dest_resolution(rootm0, sv)->Some_0.0);
                assert((explicit is Some) == dest_is_parent_folder);
                assert(real_dest_name@ == chosen_name(explicit, sname_g));
            }
            let r = copy_at_folder(
                &mut local.root,
                &csegs,
                0,
                &processor,
                &real_dest_name,
                dest_is_parent_folder,
                recursive,
                mirror,
            );
            proof {
                if r is Ok {
                    let st = r->Ok_0;
                    let m0 = view_folder(old(local).root);
                    let m1 = view_folder(local.root);
                    let c0 = resolve_node_spec(NodeModel::Folder(m0), csv, 0);
                    let c1 = resolve_node_spec(NodeModel::Folder(m1), csv, 0);
                    let rm1 = choose|rm1: Set<Seq<char>>|
                        #[trigger] copy_node_post(
                            view_node(processor.source),
                            c0->Some_0->Folder_0,
                            Set::<Seq<char>>::empty(),
                            c1->Some_0->Folder_0,
                            rm1,
                            dest_is_parent_folder,
                            real_dest_name@,
                            recursive,
                            mirror,
                            CopyStats { files_copied: 0 },
                            st,
                        );
                    assert(source_matches(
                        *old(manager),
                        *old(local),
                        paths.src@,
                        srcm_g,
                        sname_g,
                    ));
                    assert(copy_node_post(
                        srcm_g,
                        c0->Some_0->Folder_0,
                        Set::<Seq<char>>::empty(),
                        c1->Some_0->Folder_0,
                        rm1,
                        explicit is Some,
                        chosen_name(explicit, sname_g),
                        recursive,
                        mirror,
                        CopyStats { files_copied: 0 },
                        st,
                    ));
                }
            }
            r
        },
        PathType::DeviceStorage => {
            let sp = match DeviceStoragePath::from(dest_path) {
                Result::Ok(p) => p,
                Result::Err(e) => {
                    return Result::Err(e);
                },
            };
            let (di, si) = match crate::find::find_storage(&*manager, &sp) {
                Result::Ok(v) => v,
                Result::Err(e) => {
                    return Result::Err(e);
                },
            };
            let ghost sv = seg_split(DeviceStoragePath::spec_path_part(paths.dest@));
            let ghost root0 = view_folder(manager.devices@[di as int].storages@[si as int].root);
            let ghost rootm0 = NodeModel::Folder(root0);
            proof {
                assert(sp.path@ == DeviceStoragePath::spec_path_part(paths.dest@));
                // the inspection looked at this same storage: names match one
                // candidate only
                let (di2, si2) = choose|di2: int, si2: int|
                    {
                        let svx = seg_split(DeviceStoragePath::spec_path_part(paths.dest@));
                        let rootmx = NodeModel::Folder(
                            view_folder(m_storage_root(*old(manager), di2, si2)),
                        );
                        &&& 0 <= di2 < old(manager).devices@.len()
                        &&& 0 <= si2 < old(manager).devices@[di2].storages@.len()
                        &&& old(manager).devices@[di2].name@
                            == DeviceStoragePath::spec_device_part(paths.dest@)
                        &&& (#[trigger] old(manager).devices@[di2].storages@[si2]).name@
                            == DeviceStoragePath::spec_storage_part(paths.dest@)
                        &&& dest_inspection.target_status == status_of(
                            resolve_node_spec(rootmx, svx.take(svx.len() as int), 0),
                        )
                        &&& (svx.len() == 0 ==> dest_inspection.target_name is None
                            && dest_inspection.parent_status == TargetStatus::NotExist)
                        &&& (svx.len() > 0 ==> dest_inspection.target_name is Some
                            && dest_inspection.target_name->0@ == svx.last()
                            && dest_inspection.parent_status == status_of(
                            resolve_node_spec(rootmx, svx.take(svx.len() - 1), 0),
                        ))
                    };
                assert(di2 == di as int) by {
                    if di2 != di as int {
                        assert(crate::find::ambiguous_device(*old(manager), sp.device_name@));
                    }
                }
                assert(si2 == si as int) by {
                    if si2 != si as int {
                        assert(crate::find::ambiguous_storage(
                            old(manager).devices@[di as int],
                            sp.storage_name@,
                        ));
                    }
                }
                assert(sv.take(sv.len() as int) =~= sv);
            }
            let mut csegs = split_segments(sp.path.as_str());
            if !matches!(dest_inspection.target_status, TargetStatus::Folder) {
                if csegs.len() == 0 {
                    // a missing target inside the storage root needs a segment
                    return Result::Err(CopyError::InvalidDestination);
                }
                proof {
                    assert(seq_views(csegs@).len() > 0);
                }
                csegs.pop();
                proof {
                    assert(seq_views(csegs@) =~= sv.take(sv.len() - 1));
                    assert(dest_inspection.parent_status == TargetStatus::Folder);
                    assert(dest_resolution(rootm0, sv) == Option::Some(
                        (sv.take(sv.len() - 1), Option::Some(sv.last())),
                    ));
                }
            } else {
                proof {
                    assert(seq_views(csegs@) =~= sv);
                    assert(dest_resolution(rootm0, sv) == Option::Some(
                        (sv, Option::<Seq<char>>::None),
                    ));
                }
            }
            let ghost csv = seq_views(csegs@);
            let ghost explicit = dest_resolution(rootm0, sv)->Some_0.1;
            proof {
                assert(csv == dest_resolution(rootm0, sv)->Some_0.0);
                assert((explicit is Some) == dest_is_parent_folder);
                assert(real_dest_name@ == chosen_name(explicit, sname_g));
            }
            let device = &mut manager.devices[di];
            let storage = &mut device.storages[si];
            let r = copy_at_folder(
                &mut storage.root,
                &csegs,
                0,
                &processor,
                &real_dest_name,
                dest_is_parent_folder,
                recursive,
                mirror,
            );
            proof {
                assert(final(manager).wf()) by {
                    assert forall|a: int, b: int|
                        0 <= a < final(manager).devices@.len() && 0 <= b < final(manager).devices@[a].storages@.len() implies wf_entries(
                        view_folder((#[trigger] final(manager).devices@[a].storages@[b]).root).entries,
                    ) by {
                        if a == di as int && b == si as int {
                        } else {
                            assert(final(manager).devices@[a].storages@[b]
                                == old(manager).devices@[a].storages@[b]);
                        }
                    }
                }
                if r is Ok {
                    let st = r->Ok_0;
                    let m1 = view_folder(
                        final(manager).devices@[di as int].storages@[si as int].root,
                    );
                    let c0 = resolve_node_spec(rootm0, csv, 0);
                    let c1 = resolve_node_spec(NodeModel::Folder(m1), csv, 0);
                    let rm1 = choose|rm1: Set<Seq<char>>|
                        #[trigger] copy_node_post(
                            view_node(processor.source),
                            c0->Some_0->Folder_0,
                            Set::<Seq<char>>::empty(),
                            c1->Some_0->Folder_0,
                            rm1,
                            dest_is_parent_folder,
                            real_dest_name@,
                            recursive,
                            mirror,
                            CopyStats { files_copied: 0 },
                            st,
                        );
                    assert(source_matches(
                        *old(manager),
                        *old(local),
                        paths.src@,
                        srcm_g,
                        sname_g,
                    ));
                    assert(copy_node_post(
                        srcm_g,
                        c0->Some_0->Folder_0,
                        Set::<Seq<char>>::empty(),
                        c1->Some_0->Folder_0,
                        rm1,
                        explicit is Some,
                        chosen_name(explicit, sname_g),
                        recursive,
                        mirror,
                        CopyStats { files_copied: 0 },
                        st,
                    ));
                    assert(final(manager).devices@.len() == old(manager).devices@.len());
                    assert(forall|a: int|
                        0 <= a < old(manager).devices@.len() && a != di as int ==> (
                        #[trigger] final(manager).devices@[a]) == old(manager).devices@[a]);
                    assert(forall|b: int|
                        0 <= b < old(manager).devices@[di as int].storages@.len() && b
                            != si as int ==> (#[trigger] final(manager).devices@[di as int].storages@[b])
                            == old(manager).devices@[di as int].storages@[b]);
                }
            }
            r
        },
        PathType::Invalid => Result::Err(CopyError::ParseError),
    }
}

} // verus!
