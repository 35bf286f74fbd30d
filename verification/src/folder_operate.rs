//! The capability interface a destination container must satisfy.
//!
//! One synchronization pass owns one handle per folder scope.  The handle
//! carries the folder's entries and a retained set, empty when the handle
//! is opened and grown only by `retain`; `delete_unretained` realizes the
//! mirror sweep against that set.
use vstd::prelude::*;
use crate::error::CopyError;
use crate::file_info::FileInfo;
use crate::file_reader::FileReader;
use crate::namespace::{
    has_name, lookup, node_visible, uniq_names, view_opt_string, wf_entries, EntryModel,
    FileModel, FolderModel, NodeModel,
};

verus! {

/// What the mirror sweep leaves of one looked-up entry: visible entries
/// outside the retained set go, everything else stays.
pub open spec fn swept_lookup(
    pre: Option<NodeModel>,
    retained: Set<Seq<char>>,
    name: Seq<char>,
) -> Option<NodeModel> {
    match pre {
        Option::Some(m) => if node_visible(m) && !retained.contains(name) {
            Option::None
        } else {
            Option::Some(m)
        },
        Option::None => Option::None,
    }
}

/// The folder operation protocol: what a destination folder offers one
/// synchronization pass.
pub trait FolderOperate: Sized {
    /// The folder this handle is bound to, entries and attributes.
    spec fn folder_model(&self) -> FolderModel;

    /// The names marked to keep during this pass.
    spec fn retained_model(&self) -> Set<Seq<char>>;

    /// The snapshot of the entry named `name`, or None if absent.
    fn get_file_info(&self, name: &String) -> (r: Option<FileInfo>)
        requires
            wf_entries(self.folder_model().entries),
        ensures
            match lookup(self.folder_model().entries, name@) {
                Option::Some(m) => r is Some && r->0.describes(name@, m) && r->0.wf(),
                Option::None => r is None,
            },
    ;

    /// Streams `reader` into a freshly created entry named `name`.  The
    /// caller guarantees no entry of that name exists.  The declared
    /// `size` is a hint for backends that need it upfront; the entry
    /// holds whatever the reader produced.  The timestamps are applied
    /// to the new entry.
    fn create_file<R: FileReader>(
        &mut self,
        name: &String,
        reader: &mut R,
        size: u64,
        created: &Option<String>,
        modified: &Option<String>,
    ) -> (r: Result<(), CopyError>)
        requires
            wf_entries(old(self).folder_model().entries),
            !has_name(old(self).folder_model().entries, name@),
            old(reader).reader_wf(),
            old(reader).pos_model() == 0,
        ensures
            final(reader).data_model() == old(reader).data_model(),
            final(self).retained_model() == old(self).retained_model(),
            match r {
                Result::Ok(_) => {
                    &&& final(self).folder_model() == (FolderModel {
                        entries: old(self).folder_model().entries.push(
                            EntryModel {
                                name: name@,
                                node: NodeModel::File(
                                    FileModel {
                                        content: old(reader).data_model(),
                                        hidden: false,
                                        system: false,
                                        can_delete: true,
                                        created: view_opt_string(*created),
                                        modified: view_opt_string(*modified),
                                    },
                                ),
                            },
                        ),
                        ..old(self).folder_model()
                    })
                },
                Result::Err(_) => final(self).folder_model() == old(self).folder_model(),
            },
    ;

    /// Opens the subfolder named `name`, or creates an empty one.  The
    /// subfolder's contents move into the returned handle, which starts
    /// with an empty retained set; `close_folder` gives them back at the
    /// returned position.  An entry of that name that is not a folder is
    /// a backend failure.
    fn open_or_create_folder(&mut self, name: &String) -> (r: Result<
        (Box<Self>, bool, usize),
        CopyError,
    >)
        requires
            wf_entries(old(self).folder_model().entries),
        ensures
            final(self).retained_model() == old(self).retained_model(),
            match r {
                Result::Ok((h, created, idx)) => {
                    &&& h.retained_model() == Set::<Seq<char>>::empty()
                    &&& wf_entries(h.folder_model().entries)
                    &&& final(self).folder_model().hidden == old(self).folder_model().hidden
                    &&& final(self).folder_model().system == old(self).folder_model().system
                    &&& if created {
                        &&& lookup(old(self).folder_model().entries, name@) is None
                        &&& idx == old(self).folder_model().entries.len()
                        &&& final(self).folder_model() == old(self).folder_model()
                        &&& h.folder_model() == FolderModel {
                            entries: Seq::<EntryModel>::empty(),
                            hidden: false,
                            system: false,
                            can_delete: true,
                            created: Option::None,
                            modified: Option::None,
                        }
                    } else {
                        &&& idx < old(self).folder_model().entries.len()
                        &&& old(self).folder_model().entries[idx as int].name == name@
                        &&& old(self).folder_model().entries[idx as int].node is Folder
                        &&& h.folder_model() == old(self).folder_model().entries[
                            idx as int
                        ].node->Folder_0
                        &&& final(self).folder_model() == (FolderModel {
                            entries: old(self).folder_model().entries.remove(idx as int),
                            ..old(self).folder_model()
                        })
                    }
                },
                Result::Err(e) => {
                    &&& e == CopyError::BackendError
                    &&& final(self).folder_model() == old(self).folder_model()
                    &&& lookup(old(self).folder_model().entries, name@) is Some
                    &&& !(lookup(old(self).folder_model().entries, name@)->Some_0 is Folder)
                },
            },
    ;

    /// Returns a subfolder handle's contents to this folder, as the
    /// entry `name` at position `idx`.
    fn close_folder(&mut self, idx: usize, name: &String, child: Box<Self>)
        requires
            wf_entries(old(self).folder_model().entries),
            !has_name(old(self).folder_model().entries, name@),
            idx <= old(self).folder_model().entries.len(),
        ensures
            final(self).retained_model() == old(self).retained_model(),
            final(self).folder_model() == (FolderModel {
                entries: old(self).folder_model().entries.insert(
                    idx as int,
                    EntryModel { name: name@, node: NodeModel::Folder(child.folder_model()) },
                ),
                ..old(self).folder_model()
            }),
    ;

    /// Deletes the entry named `name`; absent names are a quiet success.
    fn delete_file_or_folder(&mut self, name: &String) -> (r: Result<(), CopyError>)
        requires
            wf_entries(old(self).folder_model().entries),
        ensures
            r is Ok,
            final(self).retained_model() == old(self).retained_model(),
            (if has_name(old(self).folder_model().entries, name@) {
                exists|i: int|
                    0 <= i < old(self).folder_model().entries.len() && (#[trigger] old(
                        self,
                    ).folder_model().entries[i]).name == name@ && final(self).folder_model()
                        == (FolderModel {
                        entries: old(self).folder_model().entries.remove(i),
                        ..old(self).folder_model()
                    })
            } else {
                final(self).folder_model() == old(self).folder_model()
            }),
    ;

    /// Marks `name` to keep during this pass.
    fn retain(&mut self, name: &String)
        ensures
            final(self).folder_model() == old(self).folder_model(),
            final(self).retained_model() == old(self).retained_model().insert(name@),
    ;

    /// The mirror sweep: deletes every visible entry not in the retained
    /// set, keeping hidden and system entries in place.
    fn delete_unretained(&mut self) -> (r: Result<(), CopyError>)
        requires
            wf_entries(old(self).folder_model().entries),
        ensures
            r is Ok,
            final(self).retained_model() == old(self).retained_model(),
            wf_entries(final(self).folder_model().entries),
            final(self).folder_model().hidden == old(self).folder_model().hidden,
            final(self).folder_model().system == old(self).folder_model().system,
            final(self).folder_model().can_delete == old(self).folder_model().can_delete,
            final(self).folder_model().created == old(self).folder_model().created,
            final(self).folder_model().modified == old(self).folder_model().modified,
            forall|n: Seq<char>|
                #![trigger lookup(final(self).folder_model().entries, n)]
                lookup(final(self).folder_model().entries, n) == swept_lookup(
                    lookup(old(self).folder_model().entries, n),
                    old(self).retained_model(),
                    n,
                ),
    ;
}

} // verus!
