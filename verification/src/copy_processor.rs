//! The recursive copy and mirror synchronization algorithm, generic over
//! the folder operation protocol of the destination.
use vstd::prelude::*;
use crate::error::CopyError;
use crate::file_info::{can_skip_copying, can_skip_spec, times_allow_skip, FileInfo};
use crate::file_reader::BufferReader;
use crate::folder_operate::{swept_lookup, FolderOperate};
use crate::namespace::{
    clone_bytes, clone_opt_string, has_name, lemma_lookup_entries, lemma_lookup_insert_entry,
    lemma_lookup_push_entry, lemma_lookup_remove_entry, lookup, node_is_folder, node_visible,
    view_file, view_folder, view_node, view_opt_string, wf_entries, wf_node, EntryModel,
    FileData, FileModel, FolderData, FolderModel, FsNode, NodeModel,
};

verus! {

broadcast use crate::namespace::lemma_view_entries_len, crate::namespace::lemma_view_entries_index;

/// What one copy invocation reports back: how many file bodies were
/// actually transferred (a skipped file counts nothing).
#[derive(Debug)]
pub struct CopyStats {
    pub files_copied: u64,
}

/// A saturating step of the transfer counter.
pub open spec fn bumped(n: u64) -> u64 {
    if n < u64::MAX {
        (n + 1) as u64
    } else {
        n
    }
}

impl CopyStats {
    pub fn new() -> (r: CopyStats)
        ensures
            r.files_copied == 0,
    {
        CopyStats { files_copied: 0 }
    }

    fn bump(&mut self)
        ensures
            final(self).files_copied == bumped(old(self).files_copied),
    {
        if self.files_copied < u64::MAX {
            self.files_copied = self.files_copied + 1;
        }
    }
}

/// The skip test at the model level: the destination node is a file of
/// the source's size whose modification time allows a skip.
pub open spec fn file_synced(f: FileModel, d: NodeModel) -> bool {
    &&& d is File
    &&& d->File_0.content.len() == f.content.len()
    &&& times_allow_skip(f.modified, d->File_0.modified)
}

/// A destination file freshly written from the source file `f`.
pub open spec fn fresh_file_of(f: FileModel, g: FileModel) -> bool {
    &&& g.content == f.content
    &&& !g.hidden
    &&& !g.system
    &&& g.can_delete
    &&& g.created == f.created
    &&& g.modified == f.modified
}

/// Deep synchronization: every visible source entry has a destination
/// entry of its name that the skip test accepts, recursively.  This is
/// what one recursive copy establishes, and what makes the next
/// non-mirror run leave the destination untouched.
pub open spec fn synced_with(src: Seq<EntryModel>, dst: Seq<EntryModel>) -> bool
    decreases src,
{
    forall|i: int|
        #![trigger src[i]]
        0 <= i < src.len() ==> (node_visible(src[i].node) ==> entry_synced(
            src[i],
            lookup(dst, src[i].name),
        ))
}

/// The synchronization requirement of one source entry against what the
/// destination holds under its name.
pub open spec fn entry_synced(e: EntryModel, pre: Option<NodeModel>) -> bool
    decreases e,
{
    match e.node {
        NodeModel::File(f) => pre is Some && file_synced(f, pre->Some_0),
        NodeModel::Folder(sf) => pre is Some && pre->Some_0 is Folder && synced_with(
            sf.entries,
            pre->Some_0->Folder_0.entries,
        ),
    }
}

/// No hidden or system destination entry stands where a visible source
/// entry will land, at any level the copy will visit.
pub open spec fn no_hidden_collision(src: Seq<EntryModel>, dst: Seq<EntryModel>) -> bool
    decreases src,
{
    forall|i: int|
        #![trigger src[i]]
        0 <= i < src.len() ==> (node_visible(src[i].node) ==> (match lookup(dst, src[i].name) {
            Option::Some(d) => node_visible(d) && (match (src[i].node, d) {
                (NodeModel::Folder(sf), NodeModel::Folder(df)) => no_hidden_collision(
                    sf.entries,
                    df.entries,
                ),
                _ => true,
            }),
            Option::None => true,
        }))
}

/// Whether the source list holds a visible entry named `n`.
pub open spec fn src_has_visible(src: Seq<EntryModel>, n: Seq<char>) -> bool {
    exists|i: int|
        0 <= i < src.len() && (#[trigger] src[i]).name == n && node_visible(src[i].node)
}

/// Mirror convergence: the visible entries of the destination are, by
/// name and kind, exactly the visible entries of the source, at every
/// level, with folders converged recursively.
pub open spec fn mirrored_with(src: Seq<EntryModel>, dst: Seq<EntryModel>) -> bool
    decreases src,
{
    &&& (forall|i: int|
        #![trigger src[i]]
        0 <= i < src.len() ==> (node_visible(src[i].node) ==> (match lookup(dst, src[i].name) {
            Option::Some(d) => {
                &&& node_visible(d)
                &&& node_is_folder(d) == node_is_folder(src[i].node)
                &&& (match (src[i].node, d) {
                    (NodeModel::Folder(sf), NodeModel::Folder(df)) => mirrored_with(
                        sf.entries,
                        df.entries,
                    ),
                    _ => true,
                })
            },
            Option::None => false,
        })))
    &&& (forall|n: Seq<char>|
        #![trigger lookup(dst, n)]
        (lookup(dst, n) is Some && node_visible(lookup(dst, n)->Some_0)) ==> src_has_visible(
            src,
            n,
        ))
}

/// What a recursive copy into a fresh, empty destination produces: the
/// visible source entries exactly, with file bodies and timestamps
/// carried over, and nothing else.
pub open spec fn fresh_copy_of(src: Seq<EntryModel>, dst: Seq<EntryModel>) -> bool
    decreases src,
{
    &&& (forall|i: int|
        #![trigger src[i]]
        0 <= i < src.len() ==> (node_visible(src[i].node) ==> (match lookup(dst, src[i].name) {
            Option::Some(d) => node_visible(d) && (match (src[i].node, d) {
                (NodeModel::File(f), NodeModel::File(g)) => fresh_file_of(f, g),
                (NodeModel::Folder(sf), NodeModel::Folder(df)) => fresh_copy_of(
                    sf.entries,
                    df.entries,
                ),
                _ => false,
            }),
            Option::None => false,
        })))
    &&& (forall|n: Seq<char>|
        #![trigger has_name(dst, n)]
        has_name(dst, n) ==> src_has_visible(src, n))
}

/// Whether the destination node found before a folder copy leaves the
/// mirror convergence precondition intact underneath.
pub open spec fn folder_collision_ok(sf: FolderModel, pre: Option<NodeModel>) -> bool {
    match pre {
        Option::None => true,
        Option::Some(NodeModel::Folder(pf)) => no_hidden_collision(sf.entries, pf.entries),
        Option::Some(NodeModel::File(_)) => true,
    }
}

/// The attributes a copied folder entry carries: an opened folder keeps
/// its own, a created one is fresh and visible.
pub open spec fn folder_attrs_post(pre: Option<NodeModel>, df: FolderModel) -> bool {
    match pre {
        Option::Some(NodeModel::Folder(pf)) => {
            &&& df.hidden == pf.hidden
            &&& df.system == pf.system
            &&& df.can_delete == pf.can_delete
            &&& df.created == pf.created
            &&& df.modified == pf.modified
        },
        Option::None => {
            &&& !df.hidden
            &&& !df.system
            &&& df.can_delete
            &&& df.created is None
            &&& df.modified is None
        },
        Option::Some(NodeModel::File(_)) => false,
    }
}

/// Everything one successful copy step guarantees of the destination
/// entry it wrote, given what stood under that name before.
pub open spec fn child_copy_post(
    e: EntryModel,
    pre: Option<NodeModel>,
    post: Option<NodeModel>,
    recursive: bool,
    mirror: bool,
) -> bool {
    match e.node {
        NodeModel::File(f) => match post {
            Option::Some(NodeModel::File(g)) => {
                &&& file_synced(f, NodeModel::File(g))
                &&& (post == pre || fresh_file_of(f, g))
                &&& (pre is Some && file_synced(f, pre->Some_0) ==> post == pre)
            },
            _ => false,
        },
        NodeModel::Folder(sf) => match post {
            Option::Some(NodeModel::Folder(df)) => {
                &&& folder_attrs_post(pre, df)
                &&& (recursive ==> synced_with(sf.entries, df.entries))
                &&& (recursive && mirror && folder_collision_ok(sf, pre) ==> mirrored_with(
                    sf.entries,
                    df.entries,
                ))
                &&& (recursive && pre is None ==> fresh_copy_of(sf.entries, df.entries))
                &&& (!recursive ==> (match pre {
                    Option::Some(NodeModel::Folder(pf)) => df == pf,
                    Option::None => df == (FolderModel {
                        entries: Seq::<EntryModel>::empty(),
                        hidden: false,
                        system: false,
                        can_delete: true,
                        created: Option::None,
                        modified: Option::None,
                    }),
                    Option::Some(NodeModel::File(_)) => false,
                }))
                &&& (!mirror && entry_synced(e, pre) ==> post == pre)
            },
            _ => false,
        },
    }
}

/// Whether the two folder models agree on everything but their entries.
pub open spec fn same_folder_attrs(a: FolderModel, b: FolderModel) -> bool {
    &&& a.hidden == b.hidden
    &&& a.system == b.system
    &&& a.can_delete == b.can_delete
    &&& a.created == b.created
    &&& a.modified == b.modified
}

/// Whether one of the first `k` entries of `s` bears the name `nm`.
pub open spec fn prefix_has_name(s: Seq<EntryModel>, k: int, nm: Seq<char>) -> bool {
    exists|j: int| 0 <= j < k && (#[trigger] s[j]).name == nm
}

/// Whether one of the first `k` entries of `s` is visible and bears `nm`.
pub open spec fn prefix_has_visible(s: Seq<EntryModel>, k: int, nm: Seq<char>) -> bool {
    exists|j: int| 0 <= j < k && (#[trigger] s[j]).name == nm && node_visible(s[j].node)
}

/// Copies one source file into the destination under `dest_name`,
/// skipping the transfer when the existing entry already passes the
/// skip test.
fn copy_file<F: FolderOperate>(
    src: &FileData,
    dest: &mut F,
    dest_name: &String,
    stats: &mut CopyStats,
) -> (r: Result<(), CopyError>)
    requires
        wf_entries(old(dest).folder_model().entries),
    ensures
        wf_entries(final(dest).folder_model().entries),
        same_folder_attrs(final(dest).folder_model(), old(dest).folder_model()),
        match r {
            Result::Ok(_) => {
                &&& child_copy_post(
                    EntryModel { name: dest_name@, node: NodeModel::File(view_file(*src)) },
                    lookup(old(dest).folder_model().entries, dest_name@),
                    lookup(final(dest).folder_model().entries, dest_name@),
                    false,
                    false,
                )
                &&& (forall|m: Seq<char>|
                    #![trigger lookup(final(dest).folder_model().entries, m)]
                    m != dest_name@ ==> lookup(final(dest).folder_model().entries, m) == lookup(
                        old(dest).folder_model().entries,
                        m,
                    ))
                &&& (forall|m: Seq<char>|
                    #![trigger has_name(final(dest).folder_model().entries, m)]
                    has_name(final(dest).folder_model().entries, m) <==> (has_name(
                        old(dest).folder_model().entries,
                        m,
                    ) || m == dest_name@))
                &&& final(dest).retained_model() == old(dest).retained_model().insert(dest_name@)
                &&& final(stats).files_copied == (if entry_synced(
                    EntryModel { name: dest_name@, node: NodeModel::File(view_file(*src)) },
                    lookup(old(dest).folder_model().entries, dest_name@),
                ) {
                    old(stats).files_copied
                } else {
                    bumped(old(stats).files_copied)
                })
                &&& (entry_synced(
                    EntryModel { name: dest_name@, node: NodeModel::File(view_file(*src)) },
                    lookup(old(dest).folder_model().entries, dest_name@),
                ) ==> final(dest).folder_model() == old(dest).folder_model())
            },
            Result::Err(_) => {
                &&& final(dest).retained_model() == old(dest).retained_model()
                &&& (forall|m: Seq<char>|
                    #![trigger lookup(final(dest).folder_model().entries, m)]
                    m != dest_name@ ==> lookup(final(dest).folder_model().entries, m) == lookup(
                        old(dest).folder_model().entries,
                        m,
                    ))
            },
        },
{
    let ghost e0 = old(dest).folder_model().entries;
    let ghost f = view_file(*src);
    let ghost pre = lookup(e0, dest_name@);
    let size = src.content.len() as u64;
    let src_info = FileInfo {
        name: dest_name.clone(),
        data_size: size,
        is_folder: false,
        is_hidden: src.hidden,
        is_system: src.system,
        can_delete: src.can_delete,
        time_created: clone_opt_string(&src.created),
        time_modified: clone_opt_string(&src.modified),
    };
    let dest_info = dest.get_file_info(dest_name);
    proof {
        lemma_lookup_entries(e0, dest_name@);
    }
    let mut existed = false;
    match &dest_info {
        Option::Some(di) => {
            existed = true;
            if can_skip_copying(&src_info, di) {
                proof {
                    assert(pre is Some);
                    assert(di.describes(dest_name@, pre->Some_0));
                    assert(file_synced(f, pre->Some_0));
                }
                dest.retain(dest_name);
                return Result::Ok(());
            }
            proof {
                assert(!file_synced(f, pre->Some_0)) by {
                    if file_synced(f, pre->Some_0) {
                        assert(can_skip_spec(src_info, *di));
                    }
                }
            }
        },
        Option::None => {},
    }
    if existed {
        let rr = dest.delete_file_or_folder(dest_name);
        match rr {
            Result::Ok(_) => {},
            Result::Err(e) => {
                return Result::Err(e);
            },
        }
        proof {
            let i = choose|i: int|
                0 <= i < e0.len() && (#[trigger] e0[i]).name == dest_name@ && dest.folder_model()
                    == (FolderModel { entries: e0.remove(i), ..old(dest).folder_model() });
            lemma_lookup_remove_entry(e0, i);
            lemma_lookup_entries(e0, dest_name@);
            assert(e0[i].name == dest_name@);
            assert(lookup(dest.folder_model().entries, dest_name@) is None);
            lemma_lookup_entries(dest.folder_model().entries, dest_name@);
        }
    }
    let ghost mid = dest.folder_model().entries;
    proof {
        if !existed {
            assert(mid == e0);
            assert(!has_name(mid, dest_name@));
        }
        assert(!has_name(mid, dest_name@));
        assert(forall|m: Seq<char>|
            m != dest_name@ ==> #[trigger] lookup(mid, m) == lookup(e0, m));
    }
    let mut reader = BufferReader::new(clone_bytes(&src.content));
    let rr = dest.create_file(dest_name, &mut reader, size, &src.created, &src.modified);
    match rr {
        Result::Ok(_) => {},
        Result::Err(e) => {
            proof {
                if existed {
                    // the entry under this name was deleted and not recreated
                    assert(lookup(dest.folder_model().entries, dest_name@) is None);
                }
            }
            return Result::Err(e);
        },
    }
    proof {
        lemma_lookup_push_entry(
            mid,
            EntryModel {
                name: dest_name@,
                node: NodeModel::File(
                    FileModel {
                        content: src.content@,
                        hidden: false,
                        system: false,
                        can_delete: true,
                        created: view_opt_string(src.created),
                        modified: view_opt_string(src.modified),
                    },
                ),
            },
        );
    }
    dest.retain(dest_name);
    stats.bump();
    proof {
        let post = lookup(dest.folder_model().entries, dest_name@);
        assert(post is Some);
        let g = post->Some_0->File_0;
        assert(fresh_file_of(f, g));
        assert(!entry_synced(EntryModel { name: dest_name@, node: NodeModel::File(f) }, pre));
    }
    Result::Ok(())
}

/// Copies every child of the source folder into the destination handle
/// and, under mirror mode, sweeps what was not retained.  Does nothing
/// unless the copy is recursive.
#[verifier::rlimit(100)]
fn copy_children<F: FolderOperate>(
    src: &FolderData,
    dest: &mut F,
    recursive: bool,
    mirror: bool,
    stats: &mut CopyStats,
) -> (r: Result<(), CopyError>)
    requires
        wf_entries(view_folder(*src).entries),
        wf_entries(old(dest).folder_model().entries),
    ensures
        wf_entries(final(dest).folder_model().entries),
        same_folder_attrs(final(dest).folder_model(), old(dest).folder_model()),
        !recursive ==> (final(dest).folder_model() == old(dest).folder_model()
            && final(dest).retained_model() == old(dest).retained_model()
            && *final(stats) == *old(stats) && (r is Ok)),
        match r {
            Result::Ok(_) => {
                &&& (recursive ==> synced_with(
                    view_folder(*src).entries,
                    final(dest).folder_model().entries,
                ))
                &&& (recursive && mirror && old(dest).retained_model() == Set::<
                    Seq<char>,
                >::empty() && no_hidden_collision(
                    view_folder(*src).entries,
                    old(dest).folder_model().entries,
                ) ==> mirrored_with(
                    view_folder(*src).entries,
                    final(dest).folder_model().entries,
                ))
                &&& (recursive && old(dest).folder_model().entries.len() == 0 ==> fresh_copy_of(
                    view_folder(*src).entries,
                    final(dest).folder_model().entries,
                ))
                &&& (!mirror && synced_with(
                    view_folder(*src).entries,
                    old(dest).folder_model().entries,
                ) ==> (final(dest).folder_model() == old(dest).folder_model() && *final(stats)
                    == *old(stats)))
            },
            Result::Err(_) => forall|n: Seq<char>|
                #![trigger lookup(final(dest).folder_model().entries, n)]
                !has_name(view_folder(*src).entries, n) ==> lookup(
                    final(dest).folder_model().entries,
                    n,
                ) == lookup(old(dest).folder_model().entries, n),
        },
    decreases *src, 0int,
{
    if !recursive {
        return Result::Ok(());
    }
    let ghost s_all = view_folder(*src).entries;
    let ghost e0 = old(dest).folder_model().entries;
    let ghost r0 = old(dest).retained_model();
    let n = src.children.len();
    let mut i: usize = 0;
    while i < n
        invariant
            i <= n,
            wf_entries(dest.folder_model().entries),
            same_folder_attrs(dest.folder_model(), old(dest).folder_model()),
            forall|nm: Seq<char>|
                #![trigger dest.retained_model().contains(nm)]
                dest.retained_model().contains(nm) <==> (r0.contains(nm) || prefix_has_visible(
                    s_all,
                    i as int,
                    nm,
                )),
            forall|nm: Seq<char>|
                #![trigger lookup(dest.folder_model().entries, nm)]
                !prefix_has_name(s_all, i as int, nm) ==> lookup(dest.folder_model().entries, nm)
                    == lookup(e0, nm),
            forall|nm: Seq<char>|
                #![trigger has_name(dest.folder_model().entries, nm)]
                has_name(dest.folder_model().entries, nm) ==> (has_name(e0, nm)
                    || prefix_has_visible(s_all, i as int, nm)),
            forall|j: int|
                #![trigger s_all[j]]
                0 <= j < i && node_visible(s_all[j].node) ==> child_copy_post(
                    s_all[j],
                    lookup(e0, s_all[j].name),
                    lookup(dest.folder_model().entries, s_all[j].name),
                    recursive,
                    mirror,
                ),
            (!mirror && synced_with(s_all, e0)) ==> (dest.folder_model() == old(
                dest,
            ).folder_model() && *stats == *old(stats)),
        decreases n - i,
    {
        let child = &src.children[i];
        let ghost ce = s_all[i as int];
        let ghost em = dest.folder_model().entries;
        proof {
            crate::namespace::lemma_view_entries_index(src.children@, i as int);
            assert(ce == crate::namespace::view_entry(src.children@[i as int]));
            assert(ce.name == child.name@ && ce.node == view_node(child.node));
            assert(wf_node(ce.node));
            // this child's name was untouched so far
            assert(!prefix_has_name(s_all, i as int, ce.name)) by {
                if prefix_has_name(s_all, i as int, ce.name) {
                    let j = choose|j: int|
                        0 <= j < i && (#[trigger] s_all[j]).name == ce.name;
                    assert(s_all[j].name == s_all[i as int].name);
                }
            }
            assert(lookup(em, ce.name) == lookup(e0, ce.name));
            if !mirror && synced_with(s_all, e0) {
                assert(node_visible(ce.node) ==> entry_synced(ce, lookup(e0, ce.name)));
            }
        }
        let r = copy_iter(&child.node, dest, true, &child.name, recursive, mirror, stats);
        match r {
            Result::Ok(_) => {},
            Result::Err(e) => {
                proof {
                    // a name the source does not hold was never touched
                    assert forall|nm: Seq<char>|
                        #![trigger lookup(dest.folder_model().entries, nm)]
                        !has_name(s_all, nm) implies lookup(dest.folder_model().entries, nm)
                        == lookup(e0, nm) by {
                        assert(!prefix_has_name(s_all, i as int, nm)) by {
                            if prefix_has_name(s_all, i as int, nm) {
                                let j = choose|j: int|
                                    0 <= j < i && (#[trigger] s_all[j]).name == nm;
                                assert(has_name(s_all, nm));
                            }
                        }
                        assert(nm != ce.name) by {
                            if nm == ce.name {
                                assert(s_all[i as int].name == nm);
                                assert(has_name(s_all, nm));
                            }
                        }
                        assert(lookup(em, nm) == lookup(e0, nm));
                    }
                }
                return Result::Err(e);
            },
        }
        proof {
            let em2 = dest.folder_model().entries;
            if !node_visible(ce.node) {
                assert(dest.folder_model().entries == em);
            }
            assert forall|nm: Seq<char>|
                #![trigger lookup(em2, nm)]
                !prefix_has_name(s_all, i as int + 1, nm) implies lookup(em2, nm) == lookup(
                e0,
                nm,
            ) by {
                assert(!prefix_has_name(s_all, i as int, nm));
                assert(nm != ce.name);
                assert(lookup(em2, nm) == lookup(em, nm));
            }
            assert forall|nm: Seq<char>|
                #![trigger has_name(em2, nm)]
                has_name(em2, nm) implies (has_name(e0, nm) || prefix_has_visible(
                s_all,
                i as int + 1,
                nm,
            )) by {
                if node_visible(ce.node) {
                    assert(has_name(em2, nm) <==> (has_name(em, nm) || nm == ce.name));
                    if nm == ce.name {
                        assert(s_all[i as int].name == nm && node_visible(s_all[i as int].node));
                        assert(prefix_has_visible(s_all, i as int + 1, nm));
                    } else if has_name(em, nm) {
                        if prefix_has_visible(s_all, i as int, nm) {
                            let j = choose|j: int|
                                0 <= j < i && (#[trigger] s_all[j]).name == nm && node_visible(
                                    s_all[j].node,
                                );
                            assert(prefix_has_visible(s_all, i as int + 1, nm));
                        }
                    }
                } else {
                    if has_name(em, nm) && prefix_has_visible(s_all, i as int, nm) {
                        let j = choose|j: int|
                            0 <= j < i && (#[trigger] s_all[j]).name == nm && node_visible(
                                s_all[j].node,
                            );
                        assert(prefix_has_visible(s_all, i as int + 1, nm));
                    }
                }
            }
            assert forall|nm: Seq<char>|
                #![trigger dest.retained_model().contains(nm)]
                dest.retained_model().contains(nm) <==> (r0.contains(nm) || prefix_has_visible(
                s_all,
                i as int + 1,
                nm,
            )) by {
                if node_visible(ce.node) {
                    if nm == ce.name {
                        assert(s_all[i as int].name == nm && node_visible(s_all[i as int].node));
                        assert(prefix_has_visible(s_all, i as int + 1, nm));
                    }
                }
                if prefix_has_visible(s_all, i as int + 1, nm) && !prefix_has_visible(
                    s_all,
                    i as int,
                    nm,
                ) {
                    let j = choose|j: int|
                        0 <= j < i + 1 && (#[trigger] s_all[j]).name == nm && node_visible(
                            s_all[j].node,
                        );
                    assert(j == i as int);
                    assert(nm == ce.name && node_visible(ce.node));
                }
                if prefix_has_visible(s_all, i as int, nm) {
                    let j = choose|j: int|
                        0 <= j < i && (#[trigger] s_all[j]).name == nm && node_visible(
                            s_all[j].node,
                        );
                    assert(prefix_has_visible(s_all, i as int + 1, nm));
                }
            }
            assert forall|j: int|
                #![trigger s_all[j]]
                0 <= j < i + 1 && node_visible(s_all[j].node) implies child_copy_post(
                s_all[j],
                lookup(e0, s_all[j].name),
                lookup(em2, s_all[j].name),
                recursive,
                mirror,
            ) by {
                if j < i {
                    assert(s_all[j].name != ce.name);
                    assert(lookup(em2, s_all[j].name) == lookup(em, s_all[j].name));
                } else {
                    assert(lookup(em, ce.name) == lookup(e0, ce.name));
                }
            }
        }
        i = i + 1;
    }
    let ghost e_loop = dest.folder_model().entries;
    let ghost r_loop = dest.retained_model();
    proof {
        assert forall|j: int|
            #![trigger s_all[j]]
            0 <= j < s_all.len() && node_visible(s_all[j].node) implies entry_synced(
            s_all[j],
            lookup(e_loop, s_all[j].name),
        ) by {
            let post = lookup(e_loop, s_all[j].name);
            assert(child_copy_post(s_all[j], lookup(e0, s_all[j].name), post, recursive, mirror));
        }
        assert(synced_with(s_all, e_loop));
    }
    if mirror {
        let rr = dest.delete_unretained();
        match rr {
            Result::Ok(_) => {},
            Result::Err(e) => {
                return Result::Err(e);
            },
        }
        proof {
            let e1 = dest.folder_model().entries;
            // every visible source name was retained, so its entry survives
            assert forall|j: int|
                #![trigger s_all[j]]
                0 <= j < s_all.len() && node_visible(s_all[j].node) implies lookup(
                e1,
                s_all[j].name,
            ) == lookup(e_loop, s_all[j].name) && lookup(e1, s_all[j].name) is Some by {
                assert(prefix_has_visible(s_all, s_all.len() as int, s_all[j].name));
                assert(r_loop.contains(s_all[j].name));
                assert(child_copy_post(
                    s_all[j],
                    lookup(e0, s_all[j].name),
                    lookup(e_loop, s_all[j].name),
                    recursive,
                    mirror,
                ));
                assert(lookup(e1, s_all[j].name) == swept_lookup(
                    lookup(e_loop, s_all[j].name),
                    r_loop,
                    s_all[j].name,
                ));
            }
            assert(synced_with(s_all, e1)) by {
                assert forall|j: int|
                    #![trigger s_all[j]]
                    0 <= j < s_all.len() && node_visible(s_all[j].node) implies entry_synced(
                    s_all[j],
                    lookup(e1, s_all[j].name),
                ) by {
                    assert(entry_synced(s_all[j], lookup(e_loop, s_all[j].name)));
                }
            }
            if r0 == Set::<Seq<char>>::empty() && no_hidden_collision(s_all, e0) {
                assert(mirrored_with(s_all, e1)) by {
                    assert forall|j: int|
                        #![trigger s_all[j]]
                        0 <= j < s_all.len() && node_visible(s_all[j].node) implies (match lookup(
                        e1,
                        s_all[j].name,
                    ) {
                        Option::Some(d) => {
                            &&& node_visible(d)
                            &&& node_is_folder(d) == node_is_folder(s_all[j].node)
                            &&& (match (s_all[j].node, d) {
                                (NodeModel::Folder(sf), NodeModel::Folder(df)) => mirrored_with(
                                    sf.entries,
                                    df.entries,
                                ),
                                _ => true,
                            })
                        },
                        Option::None => false,
                    }) by {
                        let pre = lookup(e0, s_all[j].name);
                        let post = lookup(e1, s_all[j].name);
                        assert(post == lookup(e_loop, s_all[j].name));
                        assert(child_copy_post(s_all[j], pre, post, recursive, mirror));
                        match s_all[j].node {
                            NodeModel::File(f) => {
                                let g = post->Some_0->File_0;
                                if post == pre {
                                    assert(node_visible(pre->Some_0));
                                } else {
                                    assert(fresh_file_of(f, g));
                                }
                            },
                            NodeModel::Folder(sf) => {
                                assert(folder_attrs_post(pre, post->Some_0->Folder_0));
                                match pre {
                                    Option::Some(d0) => {
                                        assert(node_visible(d0));
                                        assert(d0 is Folder);
                                        assert(folder_collision_ok(sf, pre));
                                    },
                                    Option::None => {
                                        assert(folder_collision_ok(sf, pre));
                                    },
                                }
                            },
                        }
                    }
                    assert forall|nm: Seq<char>|
                        #![trigger lookup(e1, nm)]
                        (lookup(e1, nm) is Some && node_visible(
                            lookup(e1, nm)->Some_0,
                        )) implies src_has_visible(s_all, nm) by {
                        assert(lookup(e1, nm) == swept_lookup(lookup(e_loop, nm), r_loop, nm));
                        if node_visible(lookup(e_loop, nm)->Some_0) {
                            assert(r_loop.contains(nm));
                            assert(prefix_has_visible(s_all, s_all.len() as int, nm));
                        }
                    }
                }
            }
            if e0.len() == 0 {
                assert(fresh_copy_of(s_all, e1)) by {
                    assert forall|j: int|
                        #![trigger s_all[j]]
                        0 <= j < s_all.len() && node_visible(s_all[j].node) implies (match lookup(
                        e1,
                        s_all[j].name,
                    ) {
                        Option::Some(d) => node_visible(d) && (match (s_all[j].node, d) {
                            (NodeModel::File(f), NodeModel::File(g)) => fresh_file_of(f, g),
                            (NodeModel::Folder(sf), NodeModel::Folder(df)) => fresh_copy_of(
                                sf.entries,
                                df.entries,
                            ),
                            _ => false,
                        }),
                        Option::None => false,
                    }) by {
                        let pre = lookup(e0, s_all[j].name);
                        let post = lookup(e1, s_all[j].name);
                        assert(pre is None);
                        assert(post == lookup(e_loop, s_all[j].name));
                        assert(child_copy_post(s_all[j], pre, post, recursive, mirror));
                    }
                    assert forall|nm: Seq<char>|
                        #![trigger has_name(e1, nm)]
                        has_name(e1, nm) implies src_has_visible(s_all, nm) by {
                        lemma_lookup_entries(e1, nm);
                        assert(lookup(e1, nm) == swept_lookup(lookup(e_loop, nm), r_loop, nm));
                        assert(lookup(e_loop, nm) is Some);
                        lemma_lookup_entries(e_loop, nm);
                        assert(has_name(e_loop, nm));
                        assert(!has_name(e0, nm));
                        assert(prefix_has_visible(s_all, s_all.len() as int, nm));
                        let j = choose|j: int|
                            0 <= j < s_all.len() as int && (#[trigger] s_all[j]).name == nm
                                && node_visible(s_all[j].node);
                        assert(src_has_visible(s_all, nm));
                    }
                }
            }
        }
    } else {
        proof {
            let e1 = dest.folder_model().entries;
            if e0.len() == 0 {
                assert(fresh_copy_of(s_all, e1)) by {
                    assert forall|j: int|
                        #![trigger s_all[j]]
                        0 <= j < s_all.len() && node_visible(s_all[j].node) implies (match lookup(
                        e1,
                        s_all[j].name,
                    ) {
                        Option::Some(d) => node_visible(d) && (match (s_all[j].node, d) {
                            (NodeModel::File(f), NodeModel::File(g)) => fresh_file_of(f, g),
                            (NodeModel::Folder(sf), NodeModel::Folder(df)) => fresh_copy_of(
                                sf.entries,
                                df.entries,
                            ),
                            _ => false,
                        }),
                        Option::None => false,
                    }) by {
                        let pre = lookup(e0, s_all[j].name);
                        let post = lookup(e1, s_all[j].name);
                        assert(pre is None);
                        assert(child_copy_post(s_all[j], pre, post, recursive, mirror));
                    }
                    assert forall|nm: Seq<char>|
                        #![trigger has_name(e1, nm)]
                        has_name(e1, nm) implies src_has_visible(s_all, nm) by {
                        assert(!has_name(e0, nm));
                        assert(prefix_has_visible(s_all, s_all.len() as int, nm));
                        let j = choose|j: int|
                            0 <= j < s_all.len() as int && (#[trigger] s_all[j]).name == nm
                                && node_visible(s_all[j].node);
                        assert(src_has_visible(s_all, nm));
                    }
                }
            }
        }
    }
    Result::Ok(())
}

/// Copies one source folder.  When the destination handle is the parent,
/// the folder is opened or created under `dest_name` inside it; when it
/// is the target itself, the children land in it directly.
#[verifier::rlimit(100)]
fn copy_folder<F: FolderOperate>(
    src: &FolderData,
    dest: &mut F,
    dest_is_parent_folder: bool,
    dest_name: &String,
    recursive: bool,
    mirror: bool,
    stats: &mut CopyStats,
) -> (r: Result<(), CopyError>)
    requires
        wf_entries(view_folder(*src).entries),
        wf_entries(old(dest).folder_model().entries),
    ensures
        wf_entries(final(dest).folder_model().entries),
        same_folder_attrs(final(dest).folder_model(), old(dest).folder_model()),
        match r {
            Result::Ok(_) => (if dest_is_parent_folder {
                &&& child_copy_post(
                    EntryModel {
                        name: dest_name@,
                        node: NodeModel::Folder(view_folder(*src)),
                    },
                    lookup(old(dest).folder_model().entries, dest_name@),
                    lookup(final(dest).folder_model().entries, dest_name@),
                    recursive,
                    mirror,
                )
                &&& (forall|m: Seq<char>|
                    #![trigger lookup(final(dest).folder_model().entries, m)]
                    m != dest_name@ ==> lookup(final(dest).folder_model().entries, m) == lookup(
                        old(dest).folder_model().entries,
                        m,
                    ))
                &&& (forall|m: Seq<char>|
                    #![trigger has_name(final(dest).folder_model().entries, m)]
                    has_name(final(dest).folder_model().entries, m) <==> (has_name(
                        old(dest).folder_model().entries,
                        m,
                    ) || m == dest_name@))
                &&& final(dest).retained_model() == old(dest).retained_model().insert(dest_name@)
                &&& ((!mirror && entry_synced(
                    EntryModel {
                        name: dest_name@,
                        node: NodeModel::Folder(view_folder(*src)),
                    },
                    lookup(old(dest).folder_model().entries, dest_name@),
                )) ==> (final(dest).folder_model() == old(dest).folder_model() && *final(stats)
                    == *old(stats)))
            } else {
                &&& (recursive ==> synced_with(
                    view_folder(*src).entries,
                    final(dest).folder_model().entries,
                ))
                &&& (recursive && mirror && old(dest).retained_model() == Set::<
                    Seq<char>,
                >::empty() && no_hidden_collision(
                    view_folder(*src).entries,
                    old(dest).folder_model().entries,
                ) ==> mirrored_with(
                    view_folder(*src).entries,
                    final(dest).folder_model().entries,
                ))
                &&& (recursive && old(dest).folder_model().entries.len() == 0 ==> fresh_copy_of(
                    view_folder(*src).entries,
                    final(dest).folder_model().entries,
                ))
                &&& (!recursive ==> (final(dest).folder_model() == old(dest).folder_model()
                    && final(dest).retained_model() == old(dest).retained_model() && *final(stats)
                    == *old(stats)))
                &&& ((!mirror && synced_with(
                    view_folder(*src).entries,
                    old(dest).folder_model().entries,
                )) ==> (final(dest).folder_model() == old(dest).folder_model() && *final(stats)
                    == *old(stats)))
            }),
            Result::Err(_) => (if dest_is_parent_folder {
                forall|m: Seq<char>|
                    #![trigger lookup(final(dest).folder_model().entries, m)]
                    m != dest_name@ ==> lookup(final(dest).folder_model().entries, m) == lookup(
                        old(dest).folder_model().entries,
                        m,
                    )
            } else {
                forall|n: Seq<char>|
                    #![trigger lookup(final(dest).folder_model().entries, n)]
                    !has_name(view_folder(*src).entries, n) ==> lookup(
                        final(dest).folder_model().entries,
                        n,
                    ) == lookup(old(dest).folder_model().entries, n)
            }),
        },
    decreases *src, 1int,
{
    let ghost sf = view_folder(*src);
    let ghost e0 = old(dest).folder_model().entries;
    if dest_is_parent_folder {
        let ghost pre = lookup(e0, dest_name@);
        let rr = dest.open_or_create_folder(dest_name);
        let (mut handle, created, idx) = match rr {
            Result::Ok(v) => v,
            Result::Err(e) => {
                return Result::Err(e);
            },
        };
        dest.retain(dest_name);
        let ghost h0 = handle.folder_model();
        let ghost cur = dest.folder_model().entries;
        proof {
            lemma_lookup_entries(e0, dest_name@);
            if created {
                assert(pre is None);
                assert(!has_name(e0, dest_name@));
                assert(cur == e0);
            } else {
                let ghost i0 = idx as int;
                assert(e0[i0].name == dest_name@);
                assert(pre == Option::Some(e0[i0].node));
                lemma_lookup_remove_entry(e0, i0);
                assert(cur == e0.remove(i0));
                assert(!has_name(cur, dest_name@));
                assert(h0 == e0[i0].node->Folder_0);
            }
            if pre is None {
                // an empty destination collides with nothing
                assert(no_hidden_collision(sf.entries, h0.entries));
                assert(h0.entries.len() == 0);
            }
            if !mirror && entry_synced(
                EntryModel { name: dest_name@, node: NodeModel::Folder(sf) },
                pre,
            ) {
                assert(pre is Some && pre->Some_0 is Folder);
                assert(!created);
                assert(synced_with(sf.entries, h0.entries));
            }
        }
        let r2 = copy_children(src, &mut *handle, recursive, mirror, stats);
        let ghost hf = handle.folder_model();
        proof {
            assert(wf_entries(cur));
            assert(!has_name(cur, dest_name@));
            assert(idx <= cur.len());
        }
        dest.close_folder(idx, dest_name, handle);
        proof {
            let ef = dest.folder_model().entries;
            let ce = EntryModel { name: dest_name@, node: NodeModel::Folder(hf) };
            lemma_lookup_insert_entry(cur, idx as int, ce);
            assert(ef == cur.insert(idx as int, ce));
            assert(lookup(ef, dest_name@) == Option::Some(NodeModel::Folder(hf)));
            assert forall|m: Seq<char>|
                #![trigger lookup(ef, m)]
                m != dest_name@ implies lookup(ef, m) == lookup(e0, m) by {
                if !created {
                    let i0 = idx as int;
                    assert(lookup(cur, m) == lookup(e0, m));
                }
            }
            assert forall|m: Seq<char>|
                #![trigger has_name(ef, m)]
                has_name(ef, m) <==> (has_name(e0, m) || m == dest_name@) by {
                lemma_lookup_entries(e0, m);
            }
        }
        match r2 {
            Result::Ok(_) => {},
            Result::Err(e) => {
                return Result::Err(e);
            },
        }
        proof {
            let ef = dest.folder_model().entries;
            let e = EntryModel { name: dest_name@, node: NodeModel::Folder(sf) };
            let post = lookup(ef, dest_name@);
            assert(post == Option::Some(NodeModel::Folder(hf)));
            assert(same_folder_attrs(hf, h0));
            assert(folder_attrs_post(pre, hf));
            if recursive && mirror && folder_collision_ok(sf, pre) {
                if pre is Some {
                    assert(pre->Some_0 is Folder);
                    assert(h0.entries == pre->Some_0->Folder_0.entries);
                    assert(no_hidden_collision(sf.entries, h0.entries));
                }
                assert(mirrored_with(sf.entries, hf.entries));
            }
            if recursive && pre is None {
                assert(fresh_copy_of(sf.entries, hf.entries));
            }
            if !recursive {
                assert(hf == h0);
                if pre is Some {
                    assert(hf == pre->Some_0->Folder_0);
                }
            }
            if !mirror && entry_synced(e, pre) {
                assert(hf == h0);
                let i0 = idx as int;
                assert(e0[i0] == ce_of(dest_name@, hf)) by {
                    assert(e0[i0].name == dest_name@);
                    assert(e0[i0].node == pre->Some_0);
                    assert(pre->Some_0 is Folder);
                    assert(pre->Some_0->Folder_0 == hf);
                }
                assert(ef =~= e0) by {
                    assert(ef == cur.insert(i0, ce_of(dest_name@, hf)));
                    assert(cur == e0.remove(i0));
                }
                assert(dest.folder_model() == old(dest).folder_model());
            }
            assert(child_copy_post(e, pre, post, recursive, mirror));
        }
        Result::Ok(())
    } else {
        copy_children(src, dest, recursive, mirror, stats)
    }
}

/// The entry the parent sees after a folder copy.
pub open spec fn ce_of(name: Seq<char>, f: FolderModel) -> EntryModel {
    EntryModel { name, node: NodeModel::Folder(f) }
}

/// Everything one successful copy invocation guarantees, relating the
/// destination folder and retained set and the statistics before and
/// after the call.
pub open spec fn copy_node_post(
    src: NodeModel,
    dm0: FolderModel,
    rm0: Set<Seq<char>>,
    dm1: FolderModel,
    rm1: Set<Seq<char>>,
    dest_is_parent_folder: bool,
    dest_name: Seq<char>,
    recursive: bool,
    mirror: bool,
    stats0: CopyStats,
    stats1: CopyStats,
) -> bool {
    &&& wf_entries(dm1.entries)
    &&& same_folder_attrs(dm1, dm0)
    &&& (!node_visible(src) ==> (dm1 == dm0 && rm1 == rm0 && stats1 == stats0))
    &&& (node_visible(src) ==> (if (src is File || dest_is_parent_folder) {
        &&& child_copy_post(
            EntryModel { name: dest_name, node: src },
            lookup(dm0.entries, dest_name),
            lookup(dm1.entries, dest_name),
            recursive,
            mirror,
        )
        &&& (forall|m: Seq<char>|
            #![trigger lookup(dm1.entries, m)]
            m != dest_name ==> lookup(dm1.entries, m) == lookup(dm0.entries, m))
        &&& (forall|m: Seq<char>|
            #![trigger has_name(dm1.entries, m)]
            has_name(dm1.entries, m) <==> (has_name(dm0.entries, m) || m == dest_name))
        &&& rm1 == rm0.insert(dest_name)
        &&& (src is File ==> stats1.files_copied == (if entry_synced(
            EntryModel { name: dest_name, node: src },
            lookup(dm0.entries, dest_name),
        ) {
            stats0.files_copied
        } else {
            bumped(stats0.files_copied)
        }))
        &&& ((!mirror && entry_synced(
            EntryModel { name: dest_name, node: src },
            lookup(dm0.entries, dest_name),
        )) ==> (dm1 == dm0 && stats1 == stats0))
    } else {
        &&& (recursive ==> synced_with(src->Folder_0.entries, dm1.entries))
        &&& (recursive && mirror && rm0 == Set::<Seq<char>>::empty() && no_hidden_collision(
            src->Folder_0.entries,
            dm0.entries,
        ) ==> mirrored_with(src->Folder_0.entries, dm1.entries))
        &&& (recursive && dm0.entries.len() == 0 ==> fresh_copy_of(
            src->Folder_0.entries,
            dm1.entries,
        ))
        &&& (!recursive ==> (dm1 == dm0 && rm1 == rm0 && stats1 == stats0))
        &&& ((!mirror && synced_with(src->Folder_0.entries, dm0.entries)) ==> (dm1 == dm0
            && stats1 == stats0))
    }))
}

/// One step of the recursive copy: a hidden or system source entry is
/// skipped silently; a file is copied under the skip test; a folder is
/// entered or created and, recursively, its children follow.  Failure
/// can enter only through the destination's folder operation protocol;
/// on failure the step aborts at once, and every entry outside the name
/// being written keeps its old value.
pub fn copy_iter<F: FolderOperate>(
    src: &FsNode,
    dest: &mut F,
    dest_is_parent_folder: bool,
    dest_name: &String,
    recursive: bool,
    mirror: bool,
    stats: &mut CopyStats,
) -> (r: Result<(), CopyError>)
    requires
        wf_node(view_node(*src)),
        wf_entries(old(dest).folder_model().entries),
    ensures
        wf_entries(final(dest).folder_model().entries),
        same_folder_attrs(final(dest).folder_model(), old(dest).folder_model()),
        !node_visible(view_node(*src)) ==> ((r is Ok) && final(dest).folder_model() == old(
            dest,
        ).folder_model() && final(dest).retained_model() == old(dest).retained_model()
            && *final(stats) == *old(stats)),
        match r {
            Result::Ok(_) => (node_visible(view_node(*src)) ==> (if (view_node(*src) is File
                || dest_is_parent_folder) {
                &&& child_copy_post(
                    EntryModel { name: dest_name@, node: view_node(*src) },
                    lookup(old(dest).folder_model().entries, dest_name@),
                    lookup(final(dest).folder_model().entries, dest_name@),
                    recursive,
                    mirror,
                )
                &&& (forall|m: Seq<char>|
                    #![trigger lookup(final(dest).folder_model().entries, m)]
                    m != dest_name@ ==> lookup(final(dest).folder_model().entries, m) == lookup(
                        old(dest).folder_model().entries,
                        m,
                    ))
                &&& (forall|m: Seq<char>|
                    #![trigger has_name(final(dest).folder_model().entries, m)]
                    has_name(final(dest).folder_model().entries, m) <==> (has_name(
                        old(dest).folder_model().entries,
                        m,
                    ) || m == dest_name@))
                &&& final(dest).retained_model() == old(dest).retained_model().insert(dest_name@)
                &&& (view_node(*src) is File ==> final(stats).files_copied == (if entry_synced(
                    EntryModel { name: dest_name@, node: view_node(*src) },
                    lookup(old(dest).folder_model().entries, dest_name@),
                ) {
                    old(stats).files_copied
                } else {
                    bumped(old(stats).files_copied)
                }))
                &&& ((!mirror && entry_synced(
                    EntryModel { name: dest_name@, node: view_node(*src) },
                    lookup(old(dest).folder_model().entries, dest_name@),
                )) ==> (final(dest).folder_model() == old(dest).folder_model() && *final(stats)
                    == *old(stats)))
            } else {
                &&& (recursive ==> synced_with(
                    view_node(*src)->Folder_0.entries,
                    final(dest).folder_model().entries,
                ))
                &&& (recursive && mirror && old(dest).retained_model() == Set::<
                    Seq<char>,
                >::empty() && no_hidden_collision(
                    view_node(*src)->Folder_0.entries,
                    old(dest).folder_model().entries,
                ) ==> mirrored_with(
                    view_node(*src)->Folder_0.entries,
                    final(dest).folder_model().entries,
                ))
                &&& (recursive && old(dest).folder_model().entries.len() == 0 ==> fresh_copy_of(
                    view_node(*src)->Folder_0.entries,
                    final(dest).folder_model().entries,
                ))
                &&& (!recursive ==> (final(dest).folder_model() == old(dest).folder_model()
                    && final(dest).retained_model() == old(dest).retained_model() && *final(stats)
                    == *old(stats)))
                &&& ((!mirror && synced_with(
                    view_node(*src)->Folder_0.entries,
                    old(dest).folder_model().entries,
                )) ==> (final(dest).folder_model() == old(dest).folder_model() && *final(stats)
                    == *old(stats)))
            })),
            Result::Err(_) => (if (view_node(*src) is File || dest_is_parent_folder) {
                forall|m: Seq<char>|
                    #![trigger lookup(final(dest).folder_model().entries, m)]
                    m != dest_name@ ==> lookup(final(dest).folder_model().entries, m) == lookup(
                        old(dest).folder_model().entries,
                        m,
                    )
            } else {
                forall|n: Seq<char>|
                    #![trigger lookup(final(dest).folder_model().entries, n)]
                    !has_name(view_node(*src)->Folder_0.entries, n) ==> lookup(
                        final(dest).folder_model().entries,
                        n,
                    ) == lookup(old(dest).folder_model().entries, n)
            }),
        },
    decreases *src, 2int,
{
    match src {
        FsNode::File(f) => {
            if f.hidden || f.system {
                return Result::Ok(());
            }
            let r = copy_file(f, dest, dest_name, stats);
            proof {
                let e = EntryModel { name: dest_name@, node: view_node(*src) };
                if r is Ok {
                    assert(child_copy_post(
                        e,
                        lookup(old(dest).folder_model().entries, dest_name@),
                        lookup(dest.folder_model().entries, dest_name@),
                        recursive,
                        mirror,
                    ));
                }
            }
            r
        },
        FsNode::Folder(fd) => {
            if fd.hidden || fd.system {
                return Result::Ok(());
            }
            proof {
                assert(wf_entries(view_folder(*fd).entries)) by {
                    assert(wf_node(view_node(*src)));
                    assert(view_node(*src) == NodeModel::Folder(view_folder(*fd)));
                }
            }
            copy_folder(fd, dest, dest_is_parent_folder, dest_name, recursive, mirror, stats)
        },
    }
}


/// The copy processor bound to one resolved source subtree.  Both
/// namespaces hold the same tree shape, so one processor serves a
/// source from either side.
pub struct LocalCopyProcessor {
    pub source: FsNode,
}

impl LocalCopyProcessor {
    /// Binds a processor to the source subtree it will copy.
    pub fn new(source: FsNode) -> (r: LocalCopyProcessor)
        ensures
            r.source == source,
    {
        LocalCopyProcessor { source }
    }

    /// Runs one copy of the bound source into `dest` under `name`,
    /// reporting how many file bodies were transferred.  Failure can
    /// enter only through the destination's folder operation protocol,
    /// which stands for fallible backend I/O, so success is not promised;
    /// on failure, entries outside the copy's own name (or outside the
    /// source's names, when the destination is the target itself) keep
    /// their old values.
    pub fn copy<F: FolderOperate>(
        &self,
        name: &String,
        dest: &mut F,
        dest_is_parent_folder: bool,
        recursive: bool,
        mirror: bool,
    ) -> (r: Result<CopyStats, CopyError>)
        requires
            wf_node(view_node(self.source)),
            wf_entries(old(dest).folder_model().entries),
        ensures
            wf_entries(final(dest).folder_model().entries),
            same_folder_attrs(final(dest).folder_model(), old(dest).folder_model()),
            !node_visible(view_node(self.source)) ==> ((r is Ok) && final(dest).folder_model()
                == old(dest).folder_model() && final(dest).retained_model() == old(
                dest,
            ).retained_model()),
            match r {
                Result::Ok(st) => copy_node_post(
                    view_node(self.source),
                    old(dest).folder_model(),
                    old(dest).retained_model(),
                    final(dest).folder_model(),
                    final(dest).retained_model(),
                    dest_is_parent_folder,
                    name@,
                    recursive,
                    mirror,
                    CopyStats { files_copied: 0 },
                    st,
                ),
                Result::Err(_) => (if (view_node(self.source) is File || dest_is_parent_folder) {
                    forall|m: Seq<char>|
                        #![trigger lookup(final(dest).folder_model().entries, m)]
                        m != name@ ==> lookup(final(dest).folder_model().entries, m) == lookup(
                            old(dest).folder_model().entries,
                            m,
                        )
                } else {
                    forall|n: Seq<char>|
                        #![trigger lookup(final(dest).folder_model().entries, n)]
                        !has_name(view_node(self.source)->Folder_0.entries, n) ==> lookup(
                            final(dest).folder_model().entries,
                            n,
                        ) == lookup(old(dest).folder_model().entries, n)
                }),
            },
    {
        let mut stats = CopyStats::new();
        let r = copy_iter(&self.source, dest, dest_is_parent_folder, name, recursive, mirror, &mut stats);
        match r {
            Result::Ok(_) => {
                proof {
                    assert(stats == (CopyStats { files_copied: stats.files_copied }));
                }
                Result::Ok(stats)
            },
            Result::Err(e) => Result::Err(e),
        }
    }
}

} // verus!
