//! The folder operation protocol over a model namespace folder.
use vstd::prelude::*;
use crate::error::CopyError;
use crate::file_info::FileInfo;
use crate::file_reader::FileReader;
use crate::folder_operate::{swept_lookup, FolderOperate};
use crate::namespace::{
    clone_opt_string, find_child, has_name, lemma_lookup_entries, lemma_lookup_push_entry,
    lemma_lookup_take_step, lemma_view_entries_index, lemma_view_entries_insert,
    lemma_view_entries_len, lemma_view_entries_push, lemma_view_entries_remove, lookup,
    node_visible, uniq_names, view_entries, view_entry, view_folder, view_node, wf_entries,
    wf_node, EntryModel, FileData, FolderData, FolderModel, FsEntry, FsNode, NodeModel,
};

verus! {

broadcast use lemma_view_entries_len, lemma_view_entries_index;

/// One folder of a namespace tree, held with the retained set of the
/// running synchronization pass.
pub struct LocalFolder {
    pub data: FolderData,
    pub retained: Vec<String>,
}

impl LocalFolder {
    /// Opens a handle on a folder's data with an empty retained set.
    pub fn new(data: FolderData) -> (f: LocalFolder)
        ensures
            f.folder_model() == view_folder(data),
            f.retained_model() == Set::<Seq<char>>::empty(),
    {
        let f = LocalFolder { data, retained: Vec::new() };
        proof {
            assert(f.retained_model() =~= Set::<Seq<char>>::empty());
        }
        f
    }
}

fn read_all<R: FileReader>(reader: &mut R, out: &mut Vec<u8>) -> (r: Result<(), CopyError>)
    requires
        old(reader).reader_wf(),
        old(out)@ == old(reader).data_model().subrange(0, old(reader).pos_model()),
        0 <= old(reader).pos_model() <= old(reader).data_model().len(),
    ensures
        final(reader).data_model() == old(reader).data_model(),
        match r {
            Result::Ok(_) => final(out)@ == old(reader).data_model(),
            Result::Err(_) => true,
        },
    decreases old(reader).data_model().len() - old(reader).pos_model(),
{
    let size = reader.buffer_size();
    match reader.seek(size) {
        Result::Err(e) => Result::Err(e),
        Result::Ok(Option::None) => {
            proof {
                assert(out@ =~= reader.data_model());
            }
            Result::Ok(())
        },
        Result::Ok(Option::Some(mut chunk)) => {
            out.append(&mut chunk);
            proof {
                assert(out@ =~= reader.data_model().subrange(0, reader.pos_model()));
            }
            read_all(reader, out)
        },
    }
}

fn retained_holds(v: &Vec<String>, name: &String) -> (r: bool)
    ensures
        r == exists|i: int| 0 <= i < v@.len() && (#[trigger] v@[i])@ == name@,
{
    let n = v.len();
    let mut i: usize = 0;
    while i < n
        invariant
            i <= n,
            forall|j: int| 0 <= j < i ==> (#[trigger] v@[j])@ != name@,
        decreases n - i,
    {
        if v[i].eq(name) {
            return true;
        }
        i = i + 1;
    }
    false
}

impl FolderOperate for LocalFolder {
    open spec fn folder_model(&self) -> FolderModel {
        view_folder(self.data)
    }

    open spec fn retained_model(&self) -> Set<Seq<char>> {
        Set::new(
            |n: Seq<char>|
                exists|i: int| 0 <= i < self.retained@.len() && (#[trigger] self.retained@[i])@
                    == n,
        )
    }

    fn get_file_info(&self, name: &String) -> (r: Option<FileInfo>) {
        proof {
            lemma_lookup_entries(self.folder_model().entries, name@);
        }
        match find_child(&self.data.children, name) {
            Option::Some(i) => {
                let info = FileInfo::from_node(name, &self.data.children[i].node);
                Option::Some(info)
            },
            Option::None => Option::None,
        }
    }

    fn create_file<R: FileReader>(
        &mut self,
        name: &String,
        reader: &mut R,
        size: u64,
        created: &Option<String>,
        modified: &Option<String>,
    ) -> (r: Result<(), CopyError>) {
        let mut content: Vec<u8> = Vec::new();
        proof {
            assert(content@ =~= reader.data_model().subrange(0, reader.pos_model()));
        }
        match read_all(reader, &mut content) {
            Result::Err(e) => Result::Err(e),
            Result::Ok(_) => {
                let entry = FsEntry {
                    name: name.clone(),
                    node: FsNode::File(
                        FileData {
                            content,
                            hidden: false,
                            system: false,
                            can_delete: true,
                            created: clone_opt_string(created),
                            modified: clone_opt_string(modified),
                        },
                    ),
                };
                proof {
                    lemma_view_entries_push(self.data.children@, entry);
                }
                self.data.children.push(entry);
                Result::Ok(())
            },
        }
    }

    fn open_or_create_folder(&mut self, name: &String) -> (r: Result<
        (Box<Self>, bool, usize),
        CopyError,
    >) {
        proof {
            lemma_lookup_entries(self.folder_model().entries, name@);
        }
        match find_child(&self.data.children, name) {
            Option::Some(i) => {
                let is_folder = match &self.data.children[i].node {
                    FsNode::Folder(_) => true,
                    FsNode::File(_) => false,
                };
                if !is_folder {
                    return Result::Err(CopyError::BackendError);
                }
                proof {
                    lemma_view_entries_remove(self.data.children@, i as int);
                }
                let entry = self.data.children.remove(i);
                match entry.node {
                    FsNode::Folder(fd) => {
                        let handle = LocalFolder { data: fd, retained: Vec::new() };
                        proof {
                            assert(handle.retained_model() =~= Set::<Seq<char>>::empty());
                            assert(wf_node(view_entry(entry).node));
                        }
                        Result::Ok((Box::new(handle), false, i))
                    },
                    FsNode::File(_) => {
                        // unreachable: the entry was checked to be a folder
                        Result::Err(CopyError::BackendError)
                    },
                }
            },
            Option::None => {
                let handle = LocalFolder {
                    data: FolderData {
                        children: Vec::new(),
                        hidden: false,
                        system: false,
                        can_delete: true,
                        created: Option::None,
                        modified: Option::None,
                    },
                    retained: Vec::new(),
                };
                let idx = self.data.children.len();
                proof {
                    assert(handle.retained_model() =~= Set::<Seq<char>>::empty());
                    assert(handle.folder_model().entries =~= Seq::<EntryModel>::empty());
                }
                Result::Ok((Box::new(handle), true, idx))
            },
        }
    }

    fn close_folder(&mut self, idx: usize, name: &String, child: Box<Self>) {
        let c = *child;
        let entry = FsEntry { name: name.clone(), node: FsNode::Folder(c.data) };
        proof {
            lemma_view_entries_insert(self.data.children@, idx as int, entry);
        }
        self.data.children.insert(idx, entry);
    }

    fn delete_file_or_folder(&mut self, name: &String) -> (r: Result<(), CopyError>) {
        match find_child(&self.data.children, name) {
            Option::Some(i) => {
                proof {
                    lemma_view_entries_remove(self.data.children@, i as int);
                }
                self.data.children.remove(i);
                Result::Ok(())
            },
            Option::None => Result::Ok(()),
        }
    }

    fn retain(&mut self, name: &String) {
        self.retained.push(name.clone());
        proof {
            assert forall|n: Seq<char>|
                final(self).retained_model().contains(n) <==> old(
                    self,
                ).retained_model().insert(name@).contains(n) by {
                if old(self).retained_model().insert(name@).contains(n) {
                    if n == name@ {
                        assert(self.retained@[self.retained@.len() - 1]@ == n);
                    } else {
                        let i = choose|i: int|
                            0 <= i < old(self).retained@.len() && (#[trigger] old(
                                self,
                            ).retained@[i])@ == n;
                        assert(self.retained@[i]@ == n);
                    }
                }
                if final(self).retained_model().contains(n) {
                    let i = choose|i: int|
                        0 <= i < self.retained@.len() && (#[trigger] self.retained@[i])@ == n;
                    if i < old(self).retained@.len() {
                        assert(old(self).retained@[i]@ == n);
                    }
                }
            }
            assert(final(self).retained_model() =~= old(self).retained_model().insert(name@));
        }
    }

    #[verifier::rlimit(50)]
    fn delete_unretained(&mut self) -> (r: Result<(), CopyError>) {
        let ghost e0 = old(self).folder_model().entries;
        let ghost rset = old(self).retained_model();
        let mut taken: Vec<FsEntry> = Vec::new();
        core::mem::swap(&mut self.data.children, &mut taken);
        let ghost n = e0.len() as int;
        let t0 = taken.len();
        proof {
            assert(view_entries(taken@) =~= e0);
            assert(n == t0 as int);
            assert(view_entries(self.data.children@) =~= Seq::<EntryModel>::empty());
            assert(e0.skip(0) =~= e0);
            assert(e0.take(0) =~= Seq::<EntryModel>::empty());
        }
        let mut k: usize = 0;
        while taken.len() > 0
            invariant
                0 <= k as int <= n,
                n <= usize::MAX,
                n == e0.len(),
                uniq_names(e0),
                forall|i: int| 0 <= i < e0.len() ==> wf_node((#[trigger] e0[i]).node),
                self.retained == old(self).retained,
                self.data.hidden == old(self).data.hidden,
                self.data.system == old(self).data.system,
                self.data.can_delete == old(self).data.can_delete,
                self.data.created == old(self).data.created,
                self.data.modified == old(self).data.modified,
                taken@.len() == n - k,
                view_entries(taken@) == e0.skip(k as int),
                uniq_names(view_entries(self.data.children@)),
                forall|i: int|
                    0 <= i < view_entries(self.data.children@).len() ==> wf_node(
                        (#[trigger] view_entries(self.data.children@)[i]).node,
                    ),
                forall|m: Seq<char>|
                    #![trigger lookup(view_entries(self.data.children@), m)]
                    lookup(view_entries(self.data.children@), m) == swept_lookup(
                        lookup(e0.take(k as int), m),
                        rset,
                        m,
                    ),
                forall|m: Seq<char>|
                    has_name(view_entries(self.data.children@), m) ==> has_name(
                        e0.take(k as int),
                        m,
                    ),
            decreases taken@.len(),
        {
            let ghost pre_kept = view_entries(self.data.children@);
            let ghost ke = e0[k as int];
            let ghost pre_taken = taken@;
            let entry = taken.remove(0);
            proof {
                lemma_view_entries_remove(pre_taken, 0);
                assert(view_entry(entry) == view_entries(pre_taken)[0]);
                assert(e0.skip(k as int)[0] == e0[k as int]);
                assert(view_entries(taken@) =~= e0.skip(k as int).remove(0));
                assert(e0.skip(k as int).remove(0) =~= e0.skip(k as int + 1));
                assert(e0.take(k as int + 1) =~= e0.take(k as int).push(ke));
            }
            let keep: bool = match &entry.node {
                FsNode::File(f) => f.hidden || f.system || retained_holds(
                    &self.retained,
                    &entry.name,
                ),
                FsNode::Folder(f) => f.hidden || f.system || retained_holds(
                    &self.retained,
                    &entry.name,
                ),
            };
            proof {
                assert(keep == (!node_visible(ke.node) || rset.contains(ke.name)));
                // the processed prefix cannot already hold this name
                assert(!has_name(e0.take(k as int), ke.name)) by {
                    if has_name(e0.take(k as int), ke.name) {
                        let j = choose|j: int|
                            0 <= j < e0.take(k as int).len() && (#[trigger] e0.take(k as int)[j]).name
                                == ke.name;
                        assert(e0[j].name == e0[k as int].name);
                    }
                }
                lemma_lookup_take_step(e0, k as int);
                assert(!has_name(pre_kept, ke.name));
                lemma_lookup_entries(pre_kept, ke.name);
            }
            if keep {
                proof {
                    lemma_view_entries_push(self.data.children@, entry);
                    lemma_lookup_push_entry(pre_kept, ke);
                }
                self.data.children.push(entry);
                proof {
                    let kept = view_entries(self.data.children@);
                    assert(kept == pre_kept.push(ke));
                    assert forall|m: Seq<char>|
                        #![trigger lookup(kept, m)]
                        lookup(kept, m) == swept_lookup(
                            lookup(e0.take(k as int + 1), m),
                            rset,
                            m,
                        ) by {
                        assert(lookup(kept, m) == lookup(pre_kept.push(ke), m));
                        assert(lookup(e0.take(k as int + 1), m) == (if m == ke.name {
                            Option::Some(ke.node)
                        } else {
                            lookup(e0.take(k as int), m)
                        }));
                    }
                    assert forall|m: Seq<char>|
                        has_name(kept, m) implies has_name(e0.take(k as int + 1), m) by {
                        assert(has_name(pre_kept.push(ke), m));
                    }
                    assert forall|i: int| 0 <= i < kept.len() implies wf_node(
                        (#[trigger] kept[i]).node,
                    ) by {
                        if i == pre_kept.len() {
                            assert(kept[i] == ke);
                            assert(wf_node(e0[k as int].node));
                        } else {
                            assert(kept[i] == pre_kept[i]);
                        }
                    }
                }
            } else {
                proof {
                    let kept = view_entries(self.data.children@);
                    assert(kept == pre_kept);
                    assert forall|m: Seq<char>|
                        #![trigger lookup(kept, m)]
                        lookup(kept, m) == swept_lookup(
                            lookup(e0.take(k as int + 1), m),
                            rset,
                            m,
                        ) by {
                        assert(lookup(e0.take(k as int + 1), m) == (if m == ke.name {
                            Option::Some(ke.node)
                        } else {
                            lookup(e0.take(k as int), m)
                        }));
                    }
                    assert forall|m: Seq<char>|
                        has_name(kept, m) implies has_name(e0.take(k as int + 1), m) by {
                        assert(has_name(e0.take(k as int), m));
                        assert(has_name(e0.take(k as int + 1), m));
                    }
                }
            }
            k = k + 1;
        }
        proof {
            assert(e0.take(n) =~= e0);
        }
        Result::Ok(())
    }
}

} // verus!
