//! Resolution of a path expression against the device world: the
//! device, the storage, and the object the path names.
use vstd::prelude::*;
use crate::device::{DeviceInfo, DeviceModel, Manager};
use crate::error::CopyError;
use crate::namespace::{
    clone_folder, clone_node, find_child, lemma_lookup_entries, lookup, view_folder, view_node,
    wf_entries, wf_node, FolderData, FsNode, NodeModel,
};
use crate::path::{seg_split, seq_views, split_segments, DeviceStoragePath};

verus! {

broadcast use crate::namespace::lemma_view_entries_len, crate::namespace::lemma_view_entries_index;

/// The node that the segment list names, walking from `m` at segment
/// `i`: the node itself once the segments are consumed, a child of a
/// folder otherwise.
pub open spec fn resolve_node_spec(m: NodeModel, segs: Seq<Seq<char>>, i: int) -> Option<
    NodeModel,
>
    decreases segs.len() - i,
{
    if !(0 <= i <= segs.len()) {
        Option::None
    } else if i == segs.len() {
        Option::Some(m)
    } else {
        match m {
            NodeModel::Folder(f) => match lookup(f.entries, segs[i]) {
                Option::Some(c) => resolve_node_spec(c, segs, i + 1),
                Option::None => Option::None,
            },
            NodeModel::File(_) => Option::None,
        }
    }
}

/// Resolves the segment list inside a storage root and hands back a
/// deep copy of the node it names.
pub fn resolve_clone(root: &FolderData, segs: &Vec<String>) -> (r: Option<FsNode>)
    requires
        wf_entries(view_folder(*root).entries),
    ensures
        match r {
            Option::Some(n) => {
                &&& resolve_node_spec(
                    NodeModel::Folder(view_folder(*root)),
                    seq_views(segs@),
                    0,
                ) == Option::Some(view_node(n))
                &&& wf_node(view_node(n))
            },
            Option::None => resolve_node_spec(
                NodeModel::Folder(view_folder(*root)),
                seq_views(segs@),
                0,
            ) is None,
        },
{
    let ghost rootm = NodeModel::Folder(view_folder(*root));
    let ghost sv = seq_views(segs@);
    let n = segs.len();
    if n == 0 {
        let c = clone_folder(root);
        return Option::Some(FsNode::Folder(c));
    }
    proof {
        lemma_lookup_entries(view_folder(*root).entries, sv[0]);
    }
    let i0 = match find_child(&root.children, &segs[0]) {
        Option::Some(i) => i,
        Option::None => {
            return Option::None;
        },
    };
    let mut cur: &FsNode = &root.children[i0].node;
    let mut i: usize = 1;
    proof {
        lemma_lookup_entries(view_folder(*root).entries, view_folder(*root).entries[i0 as int].name);
        assert(lookup(view_folder(*root).entries, sv[0]) == Option::Some(view_node(*cur)));
        assert(resolve_node_spec(rootm, sv, 0) == resolve_node_spec(view_node(*cur), sv, 1));
        assert(wf_node(view_node(*cur)));
    }
    while i < n
        invariant
            1 <= i <= n,
            n == sv.len(),
            resolve_node_spec(rootm, sv, 0) == resolve_node_spec(view_node(*cur), sv, i as int),
            wf_node(view_node(*cur)),
        decreases n - i,
    {
        match cur {
            FsNode::File(_) => {
                return Option::None;
            },
            FsNode::Folder(fd) => {
                proof {
                    lemma_lookup_entries(view_folder(*fd).entries, sv[i as int]);
                }
                match find_child(&fd.children, &segs[i]) {
                    Option::Some(j) => {
                        proof {
                            lemma_lookup_entries(
                                view_folder(*fd).entries,
                                view_folder(*fd).entries[j as int].name,
                            );
                            assert(lookup(view_folder(*fd).entries, sv[i as int])
                                == Option::Some(view_node(fd.children@[j as int].node)));
                        }
                        cur = &fd.children[j].node;
                    },
                    Option::None => {
                        return Option::None;
                    },
                }
            },
        }
        i = i + 1;
    }
    Option::Some(clone_node(cur))
}

/// Whether two distinct devices of the manager bear this name.
pub open spec fn ambiguous_device(m: Manager, name: Seq<char>) -> bool {
    exists|i: int, j: int|
        0 <= i < j < m.devices@.len() && (#[trigger] m.devices@[i]).name@ == name && (
        #[trigger] m.devices@[j]).name@ == name
}

/// Whether some device of the manager bears this name.
pub open spec fn some_device(m: Manager, name: Seq<char>) -> bool {
    exists|i: int| 0 <= i < m.devices@.len() && (#[trigger] m.devices@[i]).name@ == name
}

/// Whether two distinct storages of the device bear this name.
pub open spec fn ambiguous_storage(d: DeviceModel, name: Seq<char>) -> bool {
    exists|i: int, j: int|
        0 <= i < j < d.storages@.len() && (#[trigger] d.storages@[i]).name@ == name && (
        #[trigger] d.storages@[j]).name@ == name
}

/// Whether some storage of the device bears this name.
pub open spec fn some_storage(d: DeviceModel, name: Seq<char>) -> bool {
    exists|i: int| 0 <= i < d.storages@.len() && (#[trigger] d.storages@[i]).name@ == name
}

/// Exactly how a device and storage lookup must come out, whatever it
/// carries on success: a duplicated device name is ambiguous, an
/// unmatched one is not found, and under the one matching device the
/// storage name decides the same way; a unique match owes success.
pub open spec fn storage_lookup_outcome<T>(
    m: Manager,
    dev: Seq<char>,
    stor: Seq<char>,
    r: Result<T, CopyError>,
) -> bool {
    &&& (ambiguous_device(m, dev) ==> r == Result::<T, CopyError>::Err(
        CopyError::AmbiguousMatch,
    ))
    &&& (!some_device(m, dev) ==> r == Result::<T, CopyError>::Err(CopyError::NotFound))
    &&& (forall|di: int|
        0 <= di < m.devices@.len() && (#[trigger] m.devices@[di]).name@ == dev
            && !ambiguous_device(m, dev) ==> {
            &&& (ambiguous_storage(m.devices@[di], stor) ==> r == Result::<T, CopyError>::Err(
                CopyError::AmbiguousMatch,
            ))
            &&& (!some_storage(m.devices@[di], stor) ==> r == Result::<T, CopyError>::Err(
                CopyError::NotFound,
            ))
            &&& (some_storage(m.devices@[di], stor) && !ambiguous_storage(
                m.devices@[di],
                stor,
            ) ==> r is Ok)
        })
}

/// Finds the single device and storage a path expression names,
/// refusing a name that no candidate or more than one candidate bears.
pub fn find_storage(manager: &Manager, storage_path: &DeviceStoragePath) -> (r: Result<
    (usize, usize),
    CopyError,
>)
    ensures
        match r {
            Result::Ok((di, si)) => {
                &&& di < manager.devices@.len()
                &&& manager.devices@[di as int].name@ == storage_path.device_name@
                &&& !ambiguous_device(*manager, storage_path.device_name@)
                &&& si < manager.devices@[di as int].storages@.len()
                &&& manager.devices@[di as int].storages@[si as int].name@
                    == storage_path.storage_name@
                &&& !ambiguous_storage(
                    manager.devices@[di as int],
                    storage_path.storage_name@,
                )
            },
            Result::Err(e) => e == CopyError::AmbiguousMatch || e == CopyError::NotFound,
        },
        storage_lookup_outcome(
            *manager,
            storage_path.device_name@,
            storage_path.storage_name@,
            r,
        ),
{
    let nd = manager.devices.len();
    let mut found: Option<usize> = Option::None;
    let mut i: usize = 0;
    while i < nd
        invariant
            i <= nd,
            nd == manager.devices@.len(),
            match found {
                Option::Some(f) => f < i && manager.devices@[f as int].name@
                    == storage_path.device_name@ && (forall|j: int|
                    0 <= j < i && j != f ==> (#[trigger] manager.devices@[j]).name@
                        != storage_path.device_name@),
                Option::None => forall|j: int|
                    0 <= j < i ==> (#[trigger] manager.devices@[j]).name@
                        != storage_path.device_name@,
            },
        decreases nd - i,
    {
        if manager.devices[i].name.eq(&storage_path.device_name) {
            match found {
                Option::Some(f) => {
                    proof {
                        assert(ambiguous_device(*manager, storage_path.device_name@)) by {
                            assert(manager.devices@[f as int].name@
                                == storage_path.device_name@);
                            assert(manager.devices@[i as int].name@
                                == storage_path.device_name@);
                        }
                    }
                    return Result::Err(CopyError::AmbiguousMatch);
                },
                Option::None => {
                    found = Option::Some(i);
                },
            }
        }
        i = i + 1;
    }
    proof {
        assert(!ambiguous_device(*manager, storage_path.device_name@)) by {
            if ambiguous_device(*manager, storage_path.device_name@) {
                let (a, b) = choose|a: int, b: int|
                    0 <= a < b < manager.devices@.len() && (#[trigger] manager.devices@[a]).name@
                        == storage_path.device_name@ && (#[trigger] manager.devices@[b]).name@
                        == storage_path.device_name@;
                assert(false);
            }
        }
    }
    let di = match found {
        Option::Some(f) => f,
        Option::None => {
            proof {
                assert(!some_device(*manager, storage_path.device_name@)) by {
                    if some_device(*manager, storage_path.device_name@) {
                        let a = choose|a: int|
                            0 <= a < manager.devices@.len() && (
                            #[trigger] manager.devices@[a]).name@ == storage_path.device_name@;
                        assert(false);
                    }
                }
            }
            return Result::Err(CopyError::NotFound);
        },
    };
    let device = &manager.devices[di];
    let ns = device.storages.len();
    let mut sfound: Option<usize> = Option::None;
    let mut k: usize = 0;
    while k < ns
        invariant
            k <= ns,
            ns == device.storages@.len(),
            di < manager.devices@.len(),
            device == &manager.devices[di as int],
            match sfound {
                Option::Some(f) => f < k && device.storages@[f as int].name@
                    == storage_path.storage_name@ && (forall|j: int|
                    0 <= j < k && j != f ==> (#[trigger] device.storages@[j]).name@
                        != storage_path.storage_name@),
                Option::None => forall|j: int|
                    0 <= j < k ==> (#[trigger] device.storages@[j]).name@
                        != storage_path.storage_name@,
            },
        decreases ns - k,
    {
        if device.storages[k].name.eq(&storage_path.storage_name) {
            match sfound {
                Option::Some(f) => {
                    proof {
                        assert(ambiguous_storage(
                            manager.devices@[di as int],
                            storage_path.storage_name@,
                        )) by {
                            assert(device.storages@[f as int].name@
                                == storage_path.storage_name@);
                            assert(device.storages@[k as int].name@
                                == storage_path.storage_name@);
                        }
                    }
                    return Result::Err(CopyError::AmbiguousMatch);
                },
                Option::None => {
                    sfound = Option::Some(k);
                },
            }
        }
        k = k + 1;
    }
    proof {
        assert(!ambiguous_storage(manager.devices@[di as int], storage_path.storage_name@)) by {
            if ambiguous_storage(manager.devices@[di as int], storage_path.storage_name@) {
                let (a, b) = choose|a: int, b: int|
                    0 <= a < b < device.storages@.len() && (#[trigger] device.storages@[a]).name@
                        == storage_path.storage_name@ && (#[trigger] device.storages@[b]).name@
                        == storage_path.storage_name@;
                assert(false);
            }
        }
    }
    match sfound {
        Option::Some(si) => Result::Ok((di, si)),
        Option::None => {
            proof {
                assert(!some_storage(manager.devices@[di as int], storage_path.storage_name@))
                    by {
                    if some_storage(manager.devices@[di as int], storage_path.storage_name@) {
                        let a = choose|a: int|
                            0 <= a < device.storages@.len() && (
                            #[trigger] device.storages@[a]).name@ == storage_path.storage_name@;
                        assert(false);
                    }
                }
            }
            Result::Err(CopyError::NotFound)
        },
    }
}

/// What `find_file_or_folder` resolves for a path expression: the
/// storage's root when the path has no segments, else the node the
/// segments name inside it.
pub open spec fn found_object(
    m: Manager,
    di: int,
    si: int,
    path: Seq<char>,
) -> Option<NodeModel> {
    resolve_node_spec(
        NodeModel::Folder(view_folder(m.devices@[di].storages@[si].root)),
        seg_split(path),
        0,
    )
}

/// Resolves a full path expression to the object it names, handing back
/// the device, the object's own name, and a deep copy of its subtree.
/// `Ok(None)` means device and storage exist but the path names nothing.
pub fn find_file_or_folder(manager: &Manager, storage_path: &DeviceStoragePath) -> (r: Result<
    Option<(DeviceInfo, String, FsNode)>,
    CopyError,
>)
    requires
        manager.wf(),
    ensures
        match r {
            Result::Ok(Option::Some((info, name, node))) => {
                exists|di: int, si: int|
                    {
                        &&& 0 <= di < manager.devices@.len()
                        &&& 0 <= si < (#[trigger] manager.devices@[di]).storages@.len()
                        &&& manager.devices@[di].name@ == storage_path.device_name@
                        &&& manager.devices@[di].storages@[si].name@
                            == storage_path.storage_name@
                        &&& (#[trigger] found_object(*manager, di, si, storage_path.path@))
                            == Option::Some(view_node(node))
                        &&& wf_node(view_node(node))
                        &&& info.name@ == storage_path.device_name@
                        &&& name@ == (if seg_split(storage_path.path@).len() == 0 {
                            manager.devices@[di].storages@[si].name@
                        } else {
                            seg_split(storage_path.path@).last()
                        })
                    }
            },
            Result::Ok(Option::None) => exists|di: int, si: int|
                {
                    &&& 0 <= di < manager.devices@.len()
                    &&& 0 <= si < (#[trigger] manager.devices@[di]).storages@.len()
                    &&& manager.devices@[di].name@ == storage_path.device_name@
                    &&& manager.devices@[di].storages@[si].name@ == storage_path.storage_name@
                    &&& (#[trigger] found_object(*manager, di, si, storage_path.path@)) is None
                },
            Result::Err(e) => e == CopyError::AmbiguousMatch || e == CopyError::NotFound,
        },
        storage_lookup_outcome(
            *manager,
            storage_path.device_name@,
            storage_path.storage_name@,
            r,
        ),
{
    let (di, si) = match find_storage(manager, storage_path) {
        Result::Ok(v) => v,
        Result::Err(e) => {
            return Result::Err(e);
        },
    };
    let storage = &manager.devices[di].storages[si];
    let segs = split_segments(storage_path.path.as_str());
    let node = match resolve_clone(&storage.root, &segs) {
        Option::Some(n) => n,
        Option::None => {
            proof {
                assert(found_object(*manager, di as int, si as int, storage_path.path@) is None);
            }
            return Result::Ok(Option::None);
        },
    };
    let name: String = if segs.len() == 0 {
        storage.name.clone()
    } else {
        segs[segs.len() - 1].clone()
    };
    let info = DeviceInfo { name: manager.devices[di].name.clone() };
    proof {
        assert(seq_views(segs@) == seg_split(storage_path.path@));
        if segs@.len() > 0 {
            assert(seq_views(segs@).last() == segs@[segs@.len() - 1]@);
        }
        assert(found_object(*manager, di as int, si as int, storage_path.path@)
            == Option::Some(view_node(node)));
    }
    Result::Ok(Option::Some((info, name, node)))
}


/// Appending one segment resolves to a lookup in the folder the prefix
/// names.
pub proof fn lemma_resolve_push_from(m: NodeModel, sv: Seq<Seq<char>>, x: Seq<char>, i: int)
    requires
        0 <= i <= sv.len(),
    ensures
        resolve_node_spec(m, sv.push(x), i) == (match resolve_node_spec(m, sv, i) {
            Option::Some(NodeModel::Folder(f)) => lookup(f.entries, x),
            _ => Option::None,
        }),
    decreases sv.len() - i,
{
    assert(sv.push(x).len() == sv.len() + 1);
    if i == sv.len() {
        assert(sv.push(x)[i] == x);
        match m {
            NodeModel::Folder(f) => {
                match lookup(f.entries, x) {
                    Option::Some(c) => {
                        assert(resolve_node_spec(m, sv.push(x), i) == resolve_node_spec(
                            c,
                            sv.push(x),
                            i + 1,
                        ));
                    },
                    Option::None => {},
                }
            },
            NodeModel::File(_) => {},
        }
    } else {
        assert(sv.push(x)[i] == sv[i]);
        match m {
            NodeModel::Folder(f) => {
                match lookup(f.entries, sv[i]) {
                    Option::Some(c) => {
                        lemma_resolve_push_from(c, sv, x, i + 1);
                    },
                    Option::None => {},
                }
            },
            NodeModel::File(_) => {},
        }
    }
}

/// Joins a listing path with one more component, adding a separator
/// only where the base does not already end in one.
pub fn join_path(base_path: &str, sub_path: &str) -> (r: String)
    ensures
        r@ == (if base_path@.len() > 0 && crate::path::is_sep(base_path@.last()) {
            base_path@ + sub_path@
        } else {
            base_path@ + seq!['\\'] + sub_path@
        }),
{
    proof {
        reveal_strlit("\\");
    }
    let mut s = String::from_str(base_path);
    let n = s.unicode_len();
    let ends_with_sep = if n == 0 {
        false
    } else {
        let c = s.as_str().get_char(n - 1);
        c == '/' || c == '\\'
    };
    if !ends_with_sep {
        s.append("\\");
    }
    s.append(sub_path);
    s
}


/// Resolving a longer segment list walks through the folder the shorter
/// prefix names.
pub proof fn lemma_resolve_extends(
    m: NodeModel,
    b: Seq<Seq<char>>,
    sv: Seq<Seq<char>>,
    i: int,
)
    requires
        0 <= i <= b.len(),
        b.len() < sv.len(),
        sv.take(b.len() as int) == b,
    ensures
        resolve_node_spec(m, sv, i) == (match resolve_node_spec(m, b, i) {
            Option::Some(NodeModel::Folder(f)) => (match lookup(f.entries, sv[b.len() as int]) {
                Option::Some(c) => resolve_node_spec(c, sv, b.len() as int + 1),
                Option::None => Option::None,
            }),
            _ => Option::None,
        }),
    decreases b.len() - i,
{
    if i == b.len() {
        match m {
            NodeModel::Folder(f) => {
                assert(resolve_node_spec(m, b, i) == Option::Some(m));
            },
            NodeModel::File(_) => {},
        }
    } else {
        assert(sv[i] == sv.take(b.len() as int)[i]);
        assert(sv[i] == b[i]);
        match m {
            NodeModel::Folder(f) => {
                match lookup(f.entries, b[i]) {
                    Option::Some(c) => {
                        lemma_resolve_extends(c, b, sv, i + 1);
                    },
                    Option::None => {},
                }
            },
            NodeModel::File(_) => {},
        }
    }
}

} // verus!
