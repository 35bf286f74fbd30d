//! The model of a storage namespace: an in-memory tree of named entries.
//!
//! Both backends of the copy engine — the device content store and the
//! local directory tree — are represented by the same tree shape, so one
//! verified algorithm serves both sides.  An entry is a file (raw content
//! plus attribute flags and optional timestamp strings) or a folder
//! (a list of uniquely named child entries plus the same attributes).
use vstd::prelude::*;

verus! {

/// A file held in a namespace: its content and attributes.
pub struct FileData {
    pub content: Vec<u8>,
    pub hidden: bool,
    pub system: bool,
    pub can_delete: bool,
    pub created: Option<String>,
    pub modified: Option<String>,
}

/// A folder held in a namespace: its children and attributes.
pub struct FolderData {
    pub children: Vec<FsEntry>,
    pub hidden: bool,
    pub system: bool,
    pub can_delete: bool,
    pub created: Option<String>,
    pub modified: Option<String>,
}

/// One node of a namespace tree.
pub enum FsNode {
    File(FileData),
    Folder(FolderData),
}

/// A named node: one child of a folder.
pub struct FsEntry {
    pub name: String,
    pub node: FsNode,
}

/// Mathematical image of a file: sequences in place of vectors.
pub struct FileModel {
    pub content: Seq<u8>,
    pub hidden: bool,
    pub system: bool,
    pub can_delete: bool,
    pub created: Option<Seq<char>>,
    pub modified: Option<Seq<char>>,
}

/// Mathematical image of a folder.
pub struct FolderModel {
    pub entries: Seq<EntryModel>,
    pub hidden: bool,
    pub system: bool,
    pub can_delete: bool,
    pub created: Option<Seq<char>>,
    pub modified: Option<Seq<char>>,
}

/// Mathematical image of a node.
pub enum NodeModel {
    File(FileModel),
    Folder(FolderModel),
}

/// Mathematical image of a named node.
pub struct EntryModel {
    pub name: Seq<char>,
    pub node: NodeModel,
}

pub open spec fn view_opt_string(o: Option<String>) -> Option<Seq<char>> {
    match o {
        Option::None => Option::None,
        Option::Some(s) => Option::Some(s@),
    }
}

pub open spec fn view_file(f: FileData) -> FileModel {
    FileModel {
        content: f.content@,
        hidden: f.hidden,
        system: f.system,
        can_delete: f.can_delete,
        created: view_opt_string(f.created),
        modified: view_opt_string(f.modified),
    }
}

pub open spec fn view_entries(s: Seq<FsEntry>) -> Seq<EntryModel>
    decreases s,
{
    if s.len() == 0 {
        Seq::empty()
    } else {
        view_entries(s.drop_last()).push(view_entry(s.last()))
    }
}

pub open spec fn view_entry(e: FsEntry) -> EntryModel
    decreases e,
{
    EntryModel { name: e.name@, node: view_node(e.node) }
}

pub open spec fn view_node(n: FsNode) -> NodeModel
    decreases n,
{
    match n {
        FsNode::File(f) => NodeModel::File(view_file(f)),
        FsNode::Folder(f) => NodeModel::Folder(view_folder(f)),
    }
}

pub open spec fn view_folder(f: FolderData) -> FolderModel
    decreases f,
{
    FolderModel {
        entries: view_entries(f.children@),
        hidden: f.hidden,
        system: f.system,
        can_delete: f.can_delete,
        created: view_opt_string(f.created),
        modified: view_opt_string(f.modified),
    }
}

/// The local directory tree, rooted at one folder.
pub struct LocalNamespace {
    pub root: FolderData,
}

impl LocalNamespace {
    /// Every folder of the tree has uniquely named children.
    pub open spec fn wf(&self) -> bool {
        wf_entries(view_folder(self.root).entries)
    }

    /// A local namespace over the given root folder.
    pub fn new(root: FolderData) -> (r: LocalNamespace)
        ensures
            r.root == root,
    {
        LocalNamespace { root }
    }
}

/// Whether a node is hidden.
pub open spec fn node_hidden(m: NodeModel) -> bool {
    match m {
        NodeModel::File(f) => f.hidden,
        NodeModel::Folder(f) => f.hidden,
    }
}

/// Whether a node carries the system flag.
pub open spec fn node_system(m: NodeModel) -> bool {
    match m {
        NodeModel::File(f) => f.system,
        NodeModel::Folder(f) => f.system,
    }
}

/// A visible node is neither hidden nor system; only visible entries are
/// copied and only visible entries are swept by a mirror pass.
pub open spec fn node_visible(m: NodeModel) -> bool {
    !node_hidden(m) && !node_system(m)
}

pub open spec fn node_is_folder(m: NodeModel) -> bool {
    m is Folder
}

/// Whether some entry of `es` bears `name`.
pub open spec fn has_name(es: Seq<EntryModel>, name: Seq<char>) -> bool {
    exists|i: int| 0 <= i < es.len() && (#[trigger] es[i]).name == name
}

/// The node of the first entry of `es` named `name`, if any.  Under
/// `wf_entries` the names are unique, so it is the only one.
pub open spec fn lookup(es: Seq<EntryModel>, name: Seq<char>) -> Option<NodeModel>
    decreases es.len(),
{
    if es.len() == 0 {
        Option::None
    } else if es[0].name == name {
        Option::Some(es[0].node)
    } else {
        lookup(es.skip(1), name)
    }
}

/// Entry names are unique within one folder.
pub open spec fn uniq_names(es: Seq<EntryModel>) -> bool {
    forall|i: int, j: int|
        0 <= i < j < es.len() ==> (#[trigger] es[i]).name != (#[trigger] es[j]).name
}

/// A well-formed node: names are unique within every folder of the tree.
pub open spec fn wf_node(m: NodeModel) -> bool
    decreases m,
{
    match m {
        NodeModel::File(f) => true,
        NodeModel::Folder(f) => uniq_names(f.entries) && (forall|i: int|
            0 <= i < f.entries.len() ==> wf_node((#[trigger] f.entries[i]).node)),
    }
}

/// Well-formedness of a folder's entry list.
pub open spec fn wf_entries(es: Seq<EntryModel>) -> bool {
    uniq_names(es) && (forall|i: int| 0 <= i < es.len() ==> wf_node((#[trigger] es[i]).node))
}

pub broadcast proof fn lemma_view_entries_len(s: Seq<FsEntry>)
    ensures
        (#[trigger] view_entries(s)).len() == s.len(),
    decreases s,
{
    if s.len() > 0 {
        lemma_view_entries_len(s.drop_last());
    }
}

pub broadcast proof fn lemma_view_entries_index(s: Seq<FsEntry>, i: int)
    requires
        0 <= i < s.len(),
    ensures
        #[trigger] view_entries(s)[i] == view_entry(s[i]),
    decreases s,
{
    lemma_view_entries_len(s);
    if i < s.len() - 1 {
        lemma_view_entries_index(s.drop_last(), i);
        lemma_view_entries_len(s.drop_last());
    }
}

/// `lookup` finds an entry exactly when one of that name exists.
pub proof fn lemma_lookup_has_name(es: Seq<EntryModel>, name: Seq<char>)
    ensures
        lookup(es, name) is Some <==> has_name(es, name),
    decreases es.len(),
{
    if es.len() == 0 {
    } else if es[0].name == name {
        assert(has_name(es, name));
    } else {
        lemma_lookup_has_name(es.skip(1), name);
        assert(has_name(es.skip(1), name) ==> has_name(es, name)) by {
            if has_name(es.skip(1), name) {
                let i = choose|i: int|
                    0 <= i < es.skip(1).len() && (#[trigger] es.skip(1)[i]).name == name;
                assert(es[i + 1].name == name);
            }
        }
        assert(has_name(es, name) ==> has_name(es.skip(1), name)) by {
            if has_name(es, name) {
                let i = choose|i: int| 0 <= i < es.len() && (#[trigger] es[i]).name == name;
                assert(es.skip(1)[i - 1].name == name);
            }
        }
    }
}

/// With unique names, `lookup` returns the node at any index bearing the name.
pub proof fn lemma_lookup_index(es: Seq<EntryModel>, name: Seq<char>, i: int)
    requires
        uniq_names(es),
        0 <= i < es.len(),
        es[i].name == name,
    ensures
        lookup(es, name) == Option::Some(es[i].node),
    decreases es.len(),
{
    if i == 0 {
    } else {
        assert(es[0].name != name);
        assert(uniq_names(es.skip(1))) by {
            assert(forall|p: int, q: int|
                0 <= p < q < es.skip(1).len() ==> (#[trigger] es.skip(1)[p]).name != (
                #[trigger] es.skip(1)[q]).name) by {
                assert(forall|p: int, q: int|
                    0 <= p < q < es.skip(1).len() ==> es.skip(1)[p] == es[p + 1] && es.skip(1)[q]
                        == es[q + 1]);
            }
        }
        assert(es.skip(1)[i - 1] == es[i]);
        lemma_lookup_index(es.skip(1), name, i - 1);
    }
}

/// A found node comes from some entry of the list.
pub proof fn lemma_lookup_some(es: Seq<EntryModel>, name: Seq<char>)
    requires
        lookup(es, name) is Some,
    ensures
        exists|i: int|
            0 <= i < es.len() && (#[trigger] es[i]).name == name && es[i].node == lookup(
                es,
                name,
            )->Some_0,
    decreases es.len(),
{
    if es.len() > 0 && es[0].name != name {
        lemma_lookup_some(es.skip(1), name);
        let i = choose|i: int|
            0 <= i < es.skip(1).len() && (#[trigger] es.skip(1)[i]).name == name && es.skip(1)[i].node
                == lookup(es.skip(1), name)->Some_0;
        assert(es[i + 1].name == name && es[i + 1].node == lookup(es, name)->Some_0);
    }
}

/// The one fact proofs need of `lookup` under unique names: it succeeds
/// exactly on present names, and any entry bearing the name decides it.
pub proof fn lemma_lookup_entries(es: Seq<EntryModel>, name: Seq<char>)
    requires
        uniq_names(es),
    ensures
        lookup(es, name) is Some <==> has_name(es, name),
        lookup(es, name) is Some ==> exists|j: int|
            0 <= j < es.len() && (#[trigger] es[j]).name == name && es[j].node == lookup(
                es,
                name,
            )->Some_0,
        forall|j: int|
            0 <= j < es.len() && (#[trigger] es[j]).name == name ==> lookup(es, name)
                == Option::Some(es[j].node),
{
    lemma_lookup_has_name(es, name);
    if lookup(es, name) is Some {
        lemma_lookup_some(es, name);
    }
    assert forall|j: int|
        0 <= j < es.len() && (#[trigger] es[j]).name == name implies lookup(es, name)
        == Option::Some(es[j].node) by {
        lemma_lookup_index(es, name, j);
    }
}

/// Appending an entry of a fresh name keeps names unique and changes
/// `lookup` only at that name.
pub proof fn lemma_lookup_push_entry(es: Seq<EntryModel>, e: EntryModel)
    requires
        uniq_names(es),
        !has_name(es, e.name),
    ensures
        uniq_names(es.push(e)),
        forall|m: Seq<char>|
            #![trigger lookup(es.push(e), m)]
            lookup(es.push(e), m) == (if m == e.name {
                Option::Some(e.node)
            } else {
                lookup(es, m)
            }),
        forall|m: Seq<char>|
            #![trigger has_name(es.push(e), m)]
            has_name(es.push(e), m) <==> (has_name(es, m) || m == e.name),
{
    let p = es.push(e);
    assert(forall|i: int| 0 <= i < es.len() ==> (#[trigger] es[i]).name != e.name) by {
        assert forall|i: int| 0 <= i < es.len() implies (#[trigger] es[i]).name != e.name by {
            if es[i].name == e.name {
                assert(has_name(es, e.name));
            }
        }
    }
    assert(uniq_names(p)) by {
        assert(forall|i: int| 0 <= i < es.len() ==> (#[trigger] p[i]) == es[i]);
        assert(p[es.len() as int] == e);
    }
    assert forall|m: Seq<char>|
        #![trigger lookup(p, m)]
        lookup(p, m) == (if m == e.name {
            Option::Some(e.node)
        } else {
            lookup(es, m)
        }) by {
        lemma_lookup_entries(p, m);
        lemma_lookup_entries(es, m);
        if m == e.name {
            assert(p[es.len() as int].name == m);
        } else {
            if lookup(es, m) is Some {
                let j = choose|j: int|
                    0 <= j < es.len() && (#[trigger] es[j]).name == m && es[j].node == lookup(
                        es,
                        m,
                    )->Some_0;
                assert(p[j].name == m);
            }
            if lookup(p, m) is Some {
                let j = choose|j: int|
                    0 <= j < p.len() && (#[trigger] p[j]).name == m && p[j].node == lookup(
                        p,
                        m,
                    )->Some_0;
                assert(j < es.len());
                assert(es[j].name == m);
            }
        }
    }
    assert forall|m: Seq<char>|
        #![trigger has_name(p, m)]
        has_name(p, m) <==> (has_name(es, m) || m == e.name) by {
        lemma_lookup_entries(p, m);
        lemma_lookup_entries(es, m);
    }
}

/// Removing one entry keeps names unique and changes `lookup` only at
/// that entry's name.
pub proof fn lemma_lookup_remove_entry(es: Seq<EntryModel>, i: int)
    requires
        uniq_names(es),
        0 <= i < es.len(),
    ensures
        uniq_names(es.remove(i)),
        forall|m: Seq<char>|
            #![trigger lookup(es.remove(i), m)]
            lookup(es.remove(i), m) == (if m == es[i].name {
                Option::None
            } else {
                lookup(es, m)
            }),
        forall|m: Seq<char>|
            #![trigger has_name(es.remove(i), m)]
            has_name(es.remove(i), m) <==> (has_name(es, m) && m != es[i].name),
{
    let q = es.remove(i);
    assert(uniq_names(q)) by {
        assert(forall|j: int| 0 <= j < i ==> (#[trigger] q[j]) == es[j]);
        assert(forall|j: int| i <= j < q.len() ==> (#[trigger] q[j]) == es[j + 1]);
    }
    assert forall|m: Seq<char>|
        #![trigger lookup(q, m)]
        lookup(q, m) == (if m == es[i].name {
            Option::None
        } else {
            lookup(es, m)
        }) by {
        lemma_lookup_entries(q, m);
        lemma_lookup_entries(es, m);
        if m == es[i].name {
            if has_name(q, m) {
                let j = choose|j: int| 0 <= j < q.len() && (#[trigger] q[j]).name == m;
                if j < i {
                    assert(es[j].name == es[i].name);
                } else {
                    assert(es[j + 1].name == es[i].name);
                }
            }
        } else {
            if lookup(es, m) is Some {
                let j = choose|j: int|
                    0 <= j < es.len() && (#[trigger] es[j]).name == m && es[j].node == lookup(
                        es,
                        m,
                    )->Some_0;
                if j < i {
                    assert(q[j].name == m && q[j].node == lookup(es, m)->Some_0);
                } else {
                    assert(q[j - 1] == es[j]);
                }
            }
            if lookup(q, m) is Some {
                let j = choose|j: int|
                    0 <= j < q.len() && (#[trigger] q[j]).name == m && q[j].node == lookup(
                        q,
                        m,
                    )->Some_0;
                if j < i {
                    assert(es[j].name == m);
                } else {
                    assert(es[j + 1].name == m);
                }
            }
        }
    }
    assert forall|m: Seq<char>|
        #![trigger has_name(q, m)]
        has_name(q, m) <==> (has_name(es, m) && m != es[i].name) by {
        lemma_lookup_entries(q, m);
        lemma_lookup_entries(es, m);
    }
}

/// Inserting an entry of a fresh name keeps names unique and changes
/// `lookup` only at that name.
pub proof fn lemma_lookup_insert_entry(es: Seq<EntryModel>, i: int, e: EntryModel)
    requires
        uniq_names(es),
        !has_name(es, e.name),
        0 <= i <= es.len(),
    ensures
        uniq_names(es.insert(i, e)),
        forall|m: Seq<char>|
            #![trigger lookup(es.insert(i, e), m)]
            lookup(es.insert(i, e), m) == (if m == e.name {
                Option::Some(e.node)
            } else {
                lookup(es, m)
            }),
        forall|m: Seq<char>|
            #![trigger has_name(es.insert(i, e), m)]
            has_name(es.insert(i, e), m) <==> (has_name(es, m) || m == e.name),
{
    let q = es.insert(i, e);
    assert(forall|j: int| 0 <= j < es.len() ==> (#[trigger] es[j]).name != e.name) by {
        assert forall|j: int| 0 <= j < es.len() implies (#[trigger] es[j]).name != e.name by {
            if es[j].name == e.name {
                assert(has_name(es, e.name));
            }
        }
    }
    assert(forall|j: int| 0 <= j < i ==> (#[trigger] q[j]) == es[j]);
    assert(q[i] == e);
    assert(forall|j: int| i < j < q.len() ==> (#[trigger] q[j]) == es[j - 1]);
    assert(uniq_names(q));
    assert forall|m: Seq<char>|
        #![trigger lookup(q, m)]
        lookup(q, m) == (if m == e.name {
            Option::Some(e.node)
        } else {
            lookup(es, m)
        }) by {
        lemma_lookup_entries(q, m);
        lemma_lookup_entries(es, m);
        if m == e.name {
            assert(q[i].name == m);
        } else {
            if lookup(es, m) is Some {
                let j = choose|j: int|
                    0 <= j < es.len() && (#[trigger] es[j]).name == m && es[j].node == lookup(
                        es,
                        m,
                    )->Some_0;
                if j < i {
                    assert(q[j].name == m && q[j].node == lookup(es, m)->Some_0);
                } else {
                    assert(q[j + 1].name == m && q[j + 1].node == lookup(es, m)->Some_0);
                }
            }
            if lookup(q, m) is Some {
                let j = choose|j: int|
                    0 <= j < q.len() && (#[trigger] q[j]).name == m && q[j].node == lookup(
                        q,
                        m,
                    )->Some_0;
                if j < i {
                    assert(es[j].name == m);
                } else {
                    assert(es[j - 1].name == m);
                }
            }
        }
    }
    assert forall|m: Seq<char>|
        #![trigger has_name(q, m)]
        has_name(q, m) <==> (has_name(es, m) || m == e.name) by {
        lemma_lookup_entries(q, m);
        lemma_lookup_entries(es, m);
    }
}

/// One step along a prefix of a unique-name list: the lookup in the
/// longer prefix differs only at the name that came in.
pub proof fn lemma_lookup_take_step(es: Seq<EntryModel>, k: int)
    requires
        uniq_names(es),
        0 <= k < es.len(),
    ensures
        uniq_names(es.take(k + 1)),
        forall|m: Seq<char>|
            #![trigger lookup(es.take(k + 1), m)]
            lookup(es.take(k + 1), m) == (if m == es[k].name {
                Option::Some(es[k].node)
            } else {
                lookup(es.take(k), m)
            }),
        forall|m: Seq<char>|
            #![trigger has_name(es.take(k + 1), m)]
            has_name(es.take(k + 1), m) <==> (has_name(es.take(k), m) || m == es[k].name),
{
    assert(uniq_names(es.take(k))) by {
        assert(forall|i: int| 0 <= i < k ==> (#[trigger] es.take(k)[i]) == es[i]);
    }
    assert(!has_name(es.take(k), es[k].name)) by {
        if has_name(es.take(k), es[k].name) {
            let j = choose|j: int|
                0 <= j < es.take(k).len() && (#[trigger] es.take(k)[j]).name == es[k].name;
            assert(es[j].name == es[k].name);
        }
    }
    lemma_lookup_push_entry(es.take(k), es[k]);
    assert(es.take(k + 1) =~= es.take(k).push(es[k]));
}

pub proof fn lemma_view_entries_push(s: Seq<FsEntry>, e: FsEntry)
    ensures
        view_entries(s.push(e)) == view_entries(s).push(view_entry(e)),
{
    assert(s.push(e).drop_last() =~= s);
    assert(s.push(e).last() == e);
}

pub proof fn lemma_view_entries_remove(s: Seq<FsEntry>, i: int)
    requires
        0 <= i < s.len(),
    ensures
        view_entries(s.remove(i)) == view_entries(s).remove(i),
{
    broadcast use lemma_view_entries_len, lemma_view_entries_index;

    assert(view_entries(s.remove(i)) =~= view_entries(s).remove(i));
}

pub proof fn lemma_view_entries_insert(s: Seq<FsEntry>, i: int, e: FsEntry)
    requires
        0 <= i <= s.len(),
    ensures
        view_entries(s.insert(i, e)) == view_entries(s).insert(i, view_entry(e)),
{
    broadcast use lemma_view_entries_len, lemma_view_entries_index;

    assert(view_entries(s.insert(i, e)) =~= view_entries(s).insert(i, view_entry(e)));
}

/// Looks up the position of the child named `name`, scanning in order.
pub fn find_child(children: &Vec<FsEntry>, name: &String) -> (r: Option<usize>)
    ensures
        match r {
            Option::Some(i) => i < children@.len() && view_entries(children@)[i as int].name
                == name@,
            Option::None => !has_name(view_entries(children@), name@),
        },
{
    broadcast use lemma_view_entries_len, lemma_view_entries_index;

    let n = children.len();
    let mut i: usize = 0;
    while i < n
        invariant
            i <= n,
            forall|j: int| 0 <= j < i ==> view_entries(children@)[j].name != name@,
        decreases n - i,
    {
        if children[i].name.eq(name) {
            return Option::Some(i);
        }
        i = i + 1;
    }
    Option::None
}

/// Copies an optional timestamp string.
pub fn clone_opt_string(o: &Option<String>) -> (r: Option<String>)
    ensures
        view_opt_string(r) == view_opt_string(*o),
{
    match o {
        Option::None => Option::None,
        Option::Some(s) => Option::Some(s.clone()),
    }
}

/// A copy of a byte vector.
pub fn clone_bytes(v: &Vec<u8>) -> (r: Vec<u8>)
    ensures
        r@ == v@,
{
    let mut r: Vec<u8> = Vec::new();
    let n = v.len();
    let mut i: usize = 0;
    while i < n
        invariant
            i <= n,
            r@ == v@.take(i as int),
        decreases n - i,
    {
        r.push(v[i]);
        i = i + 1;
    }
    assert(v@.take(n as int) == v@);
    r
}

/// A deep copy of a file's data.
pub fn clone_file(f: &FileData) -> (r: FileData)
    ensures
        view_file(r) == view_file(*f),
{
    FileData {
        content: clone_bytes(&f.content),
        hidden: f.hidden,
        system: f.system,
        can_delete: f.can_delete,
        created: clone_opt_string(&f.created),
        modified: clone_opt_string(&f.modified),
    }
}

/// A deep copy of a whole namespace subtree.
pub fn clone_node(n: &FsNode) -> (r: FsNode)
    ensures
        view_node(r) == view_node(*n),
    decreases *n,
{
    match n {
        FsNode::File(f) => FsNode::File(clone_file(f)),
        FsNode::Folder(f) => FsNode::Folder(clone_folder(f)),
    }
}

/// A deep copy of a folder's data.
pub fn clone_folder(f: &FolderData) -> (r: FolderData)
    ensures
        view_folder(r) == view_folder(*f),
    decreases *f,
{
    broadcast use lemma_view_entries_len, lemma_view_entries_index;

    let mut children: Vec<FsEntry> = Vec::new();
    let m = f.children.len();
    let mut i: usize = 0;
    while i < m
        invariant
            i <= m,
            children@.len() == i,
            forall|j: int|
                0 <= j < i ==> view_entry(#[trigger] children@[j]) == view_entry(
                    f.children@[j],
                ),
        decreases m - i,
    {
        let e = FsEntry {
            name: f.children[i].name.clone(),
            node: clone_node(&f.children[i].node),
        };
        children.push(e);
        i = i + 1;
    }
    assert(view_entries(children@) =~= view_entries(f.children@));
    FolderData {
        children,
        hidden: f.hidden,
        system: f.system,
        can_delete: f.can_delete,
        created: clone_opt_string(&f.created),
        modified: clone_opt_string(&f.modified),
    }
}

} // verus!
