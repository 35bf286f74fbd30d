//! Listing: devices, storages, and the files a pattern matches inside
//! one storage, enumerated with the path pattern matcher.
use vstd::prelude::*;
use vstd::string::StrSliceExecFns;
use vstd::string::StringExecFns;
use crate::copy_processor::prefix_has_name;
use crate::device::{ContentObject, DeviceInfo, DeviceModel, Manager};
use crate::error::CopyError;
use crate::file_info::FileInfo;
use crate::find::{join_path, lemma_resolve_extends, lemma_resolve_push_from, resolve_node_spec};
use crate::namespace::{
    lemma_lookup_entries, lookup, view_folder, view_node, wf_entries, wf_node, FolderData,
    FolderModel, FsNode, NodeModel,
};
use crate::path::{seg_split, seq_views, DeviceStoragePath};
use crate::path_matcher::{
    compile_seg, create_path_pattern_matcher, glob_match, MatchToken, PathMatcher,
    PathMatchingState,
};

verus! {

broadcast use crate::namespace::lemma_view_entries_len, crate::namespace::lemma_view_entries_index;

/// One entry a listing found: where it stands and what it is.
pub struct FoundEntry {
    /// The object's identifier: its display path, `device:storage:`
    /// joined with the segments.
    pub object: ContentObject,
    /// The device the entry was found on.
    pub device_name: String,
    /// The storage the entry was found in.
    pub storage_name: String,
    /// The segments from the storage root down to the entry.
    pub segments: Vec<String>,
    /// The entry's attributes.
    pub info: FileInfo,
}

/// The compiled patterns of a path expression's segments.
pub open spec fn compiled_pats(path: Seq<char>) -> Seq<Seq<MatchToken>> {
    seg_split(path).map_values(|sg: Seq<char>| compile_seg(sg))
}

/// The pattern segments each hold of the listed segments they cover.
pub open spec fn prefix_glob_matched(pats: Seq<Seq<MatchToken>>, sv: Seq<Seq<char>>) -> bool {
    forall|i: int| 0 <= i < pats.len() && i < sv.len() ==> glob_match(#[trigger] pats[i], sv[i])
}

/// Why a listing handed an entry back: every pattern segment matched the
/// corresponding path segment, and anything deeper than the pattern was
/// reached only during a recursive walk beneath a completed match.
pub open spec fn pattern_listed(
    pats: Seq<Seq<MatchToken>>,
    sv: Seq<Seq<char>>,
    recursive: bool,
) -> bool {
    &&& sv.len() >= pats.len()
    &&& prefix_glob_matched(pats, sv)
    &&& (!recursive ==> sv.len() == pats.len())
}

/// What the walking matcher stands for: either the pending position in
/// the compiled segments, or the permissive matcher beneath a completed
/// match of all of them.
pub open spec fn matcher_tracks(
    m: PathMatcher,
    pats: Seq<Seq<MatchToken>>,
    depth: int,
    recursive: bool,
) -> bool {
    match m {
        PathMatcher::CompleteMatcher => depth > pats.len() - 1 && recursive,
        PathMatcher::SegmentMatcher { .. } => m.seg_pats() == pats && m.spec_pos() == depth
            && depth < pats.len(),
    }
}

/// Every listed entry tells the truth: its segments resolve inside the
/// storage root and its attributes describe the node found there.
pub open spec fn entry_resolves(
    rootm: FolderModel,
    storage_name: Seq<char>,
    e: FoundEntry,
) -> bool {
    &&& resolve_node_spec(NodeModel::Folder(rootm), seq_views(e.segments@), 0) is Some
    &&& e.info.describes(
        (if e.segments@.len() == 0 {
            storage_name
        } else {
            seq_views(e.segments@).last()
        }),
        resolve_node_spec(NodeModel::Folder(rootm), seq_views(e.segments@), 0)->Some_0,
    )
    &&& e.info.wf()
}

fn clone_string_vec(v: &Vec<String>) -> (r: Vec<String>)
    ensures
        seq_views(r@) == seq_views(v@),
        r@.len() == v@.len(),
{
    let mut r: Vec<String> = Vec::new();
    let n = v.len();
    let mut i: usize = 0;
    while i < n
        invariant
            i <= n,
            r@.len() == i,
            forall|j: int| 0 <= j < i ==> (#[trigger] r@[j])@ == v@[j]@,
        decreases n - i,
    {
        r.push(v[i].clone());
        i = i + 1;
    }
    assert(seq_views(r@) =~= seq_views(v@));
    r
}

/// Whether `sv` strictly extends the base segments.
pub open spec fn extends_base(sv: Seq<Seq<char>>, base: Seq<Seq<char>>) -> bool {
    sv.len() > base.len() && sv.take(base.len() as int) == base
}

/// Whether some listed entry carries exactly these segments.
pub open spec fn listed_in(es: Seq<FoundEntry>, sv: Seq<Seq<char>>) -> bool {
    exists|k: int| 0 <= k < es.len() && seq_views((#[trigger] es[k]).segments@) == sv
}

proof fn lemma_listed_mono(es1: Seq<FoundEntry>, es2: Seq<FoundEntry>, sv: Seq<Seq<char>>)
    requires
        listed_in(es1, sv),
        es2.len() >= es1.len(),
        forall|k: int| 0 <= k < es1.len() ==> es2[k] == es1[k],
    ensures
        listed_in(es2, sv),
{
    let k = choose|k: int| 0 <= k < es1.len() && seq_views((#[trigger] es1[k]).segments@) == sv;
    assert(seq_views(es2[k].segments@) == sv);
}

#[verifier::rlimit(100)]
fn iterate_rec(
    folder: &FolderData,
    matcher: &PathMatcher,
    base: &Vec<String>,
    base_path: &String,
    recursive: bool,
    device_name: &String,
    storage_name: &String,
    out: &mut Vec<FoundEntry>,
    Ghost(rootm): Ghost<FolderModel>,
    Ghost(pats): Ghost<Seq<Seq<MatchToken>>>,
)
    requires
        wf_entries(rootm.entries),
        wf_entries(view_folder(*folder).entries),
        resolve_node_spec(NodeModel::Folder(rootm), seq_views(base@), 0) == Option::Some(
            NodeModel::Folder(view_folder(*folder)),
        ),
        matcher_tracks(*matcher, pats, base@.len() as int, recursive),
        prefix_glob_matched(pats, seq_views(base@)),
    ensures
        final(out)@.len() >= old(out)@.len(),
        forall|k: int| 0 <= k < old(out)@.len() ==> final(out)@[k] == old(out)@[k],
        forall|k: int|
            old(out)@.len() <= k < final(out)@.len() ==> entry_resolves(
                rootm,
                storage_name@,
                #[trigger] final(out)@[k],
            ) && final(out)@[k].device_name@ == device_name@ && final(out)@[k].storage_name@
                == storage_name@ && pattern_listed(
                pats,
                seq_views(final(out)@[k].segments@),
                recursive,
            ),
        forall|sv: Seq<Seq<char>>|
            #![trigger resolve_node_spec(NodeModel::Folder(rootm), sv, 0)]
            (extends_base(sv, seq_views(base@)) && resolve_node_spec(
                NodeModel::Folder(rootm),
                sv,
                0,
            ) is Some && pattern_listed(pats, sv, recursive)) ==> listed_in(final(out)@, sv),
        forall|k: int|
            old(out)@.len() <= k < final(out)@.len() ==> extends_base(
                seq_views((#[trigger] final(out)@[k]).segments@),
                seq_views(base@),
            ),
        forall|a: int, b: int|
            old(out)@.len() <= a < b < final(out)@.len() ==> seq_views(
                (#[trigger] final(out)@[a]).segments@,
            ) != seq_views((#[trigger] final(out)@[b]).segments@),
    decreases *folder,
{
    let ghost fm = view_folder(*folder);
    let ghost basev = seq_views(base@);
    let n = folder.children.len();
    let mut i: usize = 0;
    while i < n
        invariant
            i <= n,
            n == folder.children@.len(),
            out@.len() >= old(out)@.len(),
            forall|k: int| 0 <= k < old(out)@.len() ==> out@[k] == old(out)@[k],
            forall|k: int|
                old(out)@.len() <= k < out@.len() ==> entry_resolves(
                    rootm,
                    storage_name@,
                    #[trigger] out@[k],
                ) && out@[k].device_name@ == device_name@ && out@[k].storage_name@
                    == storage_name@ && pattern_listed(
                    pats,
                    seq_views(out@[k].segments@),
                    recursive,
                ),
            forall|sv: Seq<Seq<char>>|
                #![trigger resolve_node_spec(NodeModel::Folder(rootm), sv, 0)]
                (extends_base(sv, basev) && resolve_node_spec(NodeModel::Folder(rootm), sv, 0)
                    is Some && pattern_listed(pats, sv, recursive) && prefix_has_name(
                    fm.entries,
                    i as int,
                    sv[basev.len() as int],
                )) ==> listed_in(out@, sv),
            forall|k: int|
                old(out)@.len() <= k < out@.len() ==> extends_base(
                    seq_views((#[trigger] out@[k]).segments@),
                    basev,
                ),
            forall|k: int|
                old(out)@.len() <= k < out@.len() ==> prefix_has_name(
                    fm.entries,
                    i as int,
                    seq_views((#[trigger] out@[k]).segments@)[basev.len() as int],
                ),
            forall|a: int, b: int|
                old(out)@.len() <= a < b < out@.len() ==> seq_views(
                    (#[trigger] out@[a]).segments@,
                ) != seq_views((#[trigger] out@[b]).segments@),
        decreases n - i,
    {
        let ghost out_iter = out@;
        let child = &folder.children[i];
        let is_folder = match &child.node {
            FsNode::Folder(_) => true,
            FsNode::File(_) => false,
        };
        let (state, next_matcher) = matcher.matches(child.name.as_str(), is_folder);
        let ghost childm = view_node(folder.children@[i as int].node);
        proof {
            assert(fm.entries == crate::namespace::view_entries(folder.children@));
            crate::namespace::lemma_view_entries_len(folder.children@);
            crate::namespace::lemma_view_entries_index(folder.children@, i as int);
            lemma_lookup_entries(fm.entries, child.name@);
            assert(fm.entries[i as int].name == child.name@);
            assert(lookup(fm.entries, child.name@) == Option::Some(childm));
            lemma_resolve_push_from(NodeModel::Folder(rootm), basev, child.name@, 0);
        }
        match state {
            PathMatchingState::Rejected => {},
            PathMatchingState::Completed => {
                let mut segments = clone_string_vec(base);
                segments.push(child.name.clone());
                proof {
                    assert(seq_views(segments@) =~= basev.push(child.name@));
                }
                let info = FileInfo::from_node(&child.name, &child.node);
                let object = ContentObject::new(join_path(base_path.as_str(), child.name.as_str()));
                let entry = FoundEntry {
                    object,
                    device_name: device_name.clone(),
                    storage_name: storage_name.clone(),
                    segments,
                    info,
                };
                proof {
                    assert(seq_views(entry.segments@).last() == child.name@);
                    assert(entry_resolves(rootm, storage_name@, entry));
                    assert(pattern_listed(pats, seq_views(entry.segments@), recursive)) by {
                        let sv = seq_views(entry.segments@);
                        assert(sv =~= basev.push(child.name@));
                        assert forall|t: int|
                            0 <= t < pats.len() && t < sv.len() implies glob_match(
                            #[trigger] pats[t],
                            sv[t],
                        ) by {
                            if t < basev.len() {
                                assert(sv[t] == basev[t]);
                            } else {
                                assert(sv[t] == child.name@);
                            }
                        }
                    }
                }
                out.push(entry);
                proof {
                    assert(listed_in(out@, basev.push(child.name@))) by {
                        assert(seq_views(out@[out@.len() - 1].segments@) == basev.push(
                            child.name@,
                        ));
                    }
                    assert(out@.len() == out_iter.len() + 1);
                    assert(seq_views(out@[out_iter.len() as int].segments@) == basev.push(
                        child.name@,
                    ));
                }
                if recursive {
                    match &child.node {
                        FsNode::Folder(fd) => {
                            let mut sub_base = clone_string_vec(base);
                            sub_base.push(child.name.clone());
                            let sub_path = join_path(base_path.as_str(), child.name.as_str());
                            proof {
                                assert(seq_views(sub_base@) =~= basev.push(child.name@));
                                assert(wf_node(childm));
                                assert(matcher_tracks(
                                    PathMatcher::CompleteMatcher,
                                    pats,
                                    sub_base@.len() as int,
                                    recursive,
                                ));
                                assert forall|t: int|
                                    0 <= t < pats.len() && t < seq_views(sub_base@).len()
                                        implies glob_match(
                                    #[trigger] pats[t],
                                    seq_views(sub_base@)[t],
                                ) by {
                                    if t < basev.len() {
                                        assert(seq_views(sub_base@)[t] == basev[t]);
                                    } else {
                                        assert(seq_views(sub_base@)[t] == child.name@);
                                    }
                                }
                            }
                            iterate_rec(
                                fd,
                                &PathMatcher::CompleteMatcher,
                                &sub_base,
                                &sub_path,
                                recursive,
                                device_name,
                                storage_name,
                                out,
                                Ghost(rootm),
                                Ghost(pats),
                            );
                        },
                        FsNode::File(_) => {},
                    }
                }
            },
            PathMatchingState::Accepted => {
                match &child.node {
                    FsNode::Folder(fd) => {
                        match next_matcher {
                            Option::Some(m2) => {
                                let mut sub_base = clone_string_vec(base);
                                sub_base.push(child.name.clone());
                                let sub_path = join_path(
                                    base_path.as_str(),
                                    child.name.as_str(),
                                );
                                proof {
                                    assert(seq_views(sub_base@) =~= basev.push(child.name@));
                                    assert(wf_node(childm));
                                    assert(matcher_tracks(
                                        m2,
                                        pats,
                                        sub_base@.len() as int,
                                        recursive,
                                    ));
                                    assert forall|t: int|
                                        0 <= t < pats.len() && t < seq_views(sub_base@).len()
                                            implies glob_match(
                                        #[trigger] pats[t],
                                        seq_views(sub_base@)[t],
                                    ) by {
                                        if t < basev.len() {
                                            assert(seq_views(sub_base@)[t] == basev[t]);
                                        } else {
                                            assert(seq_views(sub_base@)[t] == child.name@);
                                        }
                                    }
                                }
                                iterate_rec(
                                    fd,
                                    &m2,
                                    &sub_base,
                                    &sub_path,
                                    recursive,
                                    device_name,
                                    storage_name,
                                    out,
                                    Ghost(rootm),
                                    Ghost(pats),
                                );
                            },
                            Option::None => {},
                        }
                    },
                    FsNode::File(_) => {},
                }
            },
        }
        proof {
            // every entry this iteration added extends the base through this
            // child's name, and no two added entries share their segments
            assert forall|k: int|
                out_iter.len() <= k < out@.len() implies (extends_base(
                seq_views((#[trigger] out@[k]).segments@),
                basev,
            ) && seq_views(out@[k].segments@)[basev.len() as int] == child.name@) by {
                let sv = seq_views(out@[k].segments@);
                if matches!(state, PathMatchingState::Completed) && k == out_iter.len() {
                    assert(sv == basev.push(child.name@));
                    assert(sv.take(basev.len() as int) =~= basev);
                } else {
                    assert(extends_base(sv, basev.push(child.name@)));
                    assert(sv.take(basev.len() as int + 1) == basev.push(child.name@));
                    assert(sv.take(basev.len() as int) =~= sv.take(basev.len() as int + 1).take(
                        basev.len() as int,
                    ));
                    assert(sv.take(basev.len() as int) =~= basev);
                    assert(sv[basev.len() as int] == sv.take(basev.len() as int + 1)[basev.len() as int]);
                }
            }
            assert forall|k: int|
                old(out)@.len() <= k < out@.len() implies prefix_has_name(
                fm.entries,
                i as int + 1,
                seq_views((#[trigger] out@[k]).segments@)[basev.len() as int],
            ) by {
                if k < out_iter.len() {
                    let nm = seq_views(out@[k].segments@)[basev.len() as int];
                    assert(prefix_has_name(fm.entries, i as int, nm));
                    let j = choose|j: int| 0 <= j < i && (#[trigger] fm.entries[j]).name == nm;
                    assert(prefix_has_name(fm.entries, i as int + 1, nm));
                } else {
                    assert(fm.entries[i as int].name == child.name@);
                    assert(prefix_has_name(fm.entries, i as int + 1, child.name@));
                }
            }
            assert forall|a: int, b: int|
                old(out)@.len() <= a < b < out@.len() implies seq_views(
                (#[trigger] out@[a]).segments@,
            ) != seq_views((#[trigger] out@[b]).segments@) by {
                let sva = seq_views(out@[a].segments@);
                let svb = seq_views(out@[b].segments@);
                if b < out_iter.len() {
                } else if a < out_iter.len() {
                    // an older entry came through an earlier child, whose name
                    // differs from this child's
                    let nma = sva[basev.len() as int];
                    assert(prefix_has_name(fm.entries, i as int, nma));
                    let j = choose|j: int|
                        0 <= j < i && (#[trigger] fm.entries[j]).name == nma;
                    assert(fm.entries[i as int].name == child.name@);
                    assert(nma != child.name@);
                    assert(svb[basev.len() as int] == child.name@);
                } else {
                    // both were added for this child: the completed entry is
                    // exactly one segment deep, everything beneath is deeper
                    if matches!(state, PathMatchingState::Completed) && a == out_iter.len() {
                        assert(sva == basev.push(child.name@));
                        assert(extends_base(svb, basev.push(child.name@)));
                        assert(svb.len() > sva.len());
                    }
                }
            }
            assert forall|sv: Seq<Seq<char>>|
                #![trigger resolve_node_spec(NodeModel::Folder(rootm), sv, 0)]
                (extends_base(sv, basev) && resolve_node_spec(NodeModel::Folder(rootm), sv, 0)
                    is Some && pattern_listed(pats, sv, recursive) && prefix_has_name(
                    fm.entries,
                    i as int + 1,
                    sv[basev.len() as int],
                )) implies listed_in(out@, sv) by {
                let c = sv[basev.len() as int];
                if prefix_has_name(fm.entries, i as int, c) {
                    lemma_listed_mono(out_iter, out@, sv);
                } else {
                    // the name came in with this child
                    let j = choose|j: int|
                        0 <= j < i + 1 && (#[trigger] fm.entries[j]).name == c;
                    assert(j == i as int);
                    assert(c == child.name@);
                    lemma_resolve_extends(NodeModel::Folder(rootm), basev, sv, 0);
                    assert(lookup(fm.entries, c) == Option::Some(childm));
                    assert(resolve_node_spec(childm, sv, basev.len() as int + 1) is Some);
                    if sv.len() == basev.len() + 1 {
                        assert(sv =~= basev.push(child.name@));
                        // the matching step completed here and pushed this entry
                        assert(state == PathMatchingState::Completed) by {
                            match *matcher {
                                PathMatcher::CompleteMatcher => {},
                                PathMatcher::SegmentMatcher { .. } => {
                                    assert(basev.len() < pats.len());
                                    assert(glob_match(
                                        pats[basev.len() as int],
                                        sv[basev.len() as int],
                                    ));
                                    assert(glob_match(
                                        pats[basev.len() as int],
                                        child.name@,
                                    ));
                                    assert(sv.len() >= pats.len());
                                    if basev.len() as int + 1 < pats.len() {
                                        assert(false);
                                    }
                                },
                            }
                        }
                        lemma_listed_mono(
                            out_iter.push(
                                out@[out_iter.len() as int],
                            ),
                            out@,
                            sv,
                        );
                    } else {
                        // deeper matches were covered by the recursive walk
                        assert(childm is Folder) by {
                            if childm is File {
                                assert(resolve_node_spec(
                                    childm,
                                    sv,
                                    basev.len() as int + 1,
                                ) is None);
                            }
                        }
                        assert(extends_base(sv, basev.push(child.name@))) by {
                            assert(sv.take(basev.len() as int + 1) =~= basev.push(
                                child.name@,
                            ));
                        }
                        match *matcher {
                            PathMatcher::CompleteMatcher => {
                                assert(recursive);
                                assert(state == PathMatchingState::Completed);
                                assert(listed_in(out@, sv));
                            },
                            PathMatcher::SegmentMatcher { .. } => {
                                assert(basev.len() < pats.len());
                                assert(glob_match(pats[basev.len() as int], sv[basev.len() as int]));
                                assert(glob_match(pats[basev.len() as int], child.name@));
                                if basev.len() as int == pats.len() - 1 {
                                    assert(state == PathMatchingState::Completed);
                                    // only a recursive walk reaches deeper than the pattern
                                    assert(recursive) by {
                                        if !recursive {
                                            assert(sv.len() == pats.len());
                                        }
                                    }
                                } else {
                                    assert(sv.len() >= pats.len());
                                    assert(basev.len() as int + 1 < pats.len());
                                    assert(state == PathMatchingState::Accepted);
                                }
                                assert(listed_in(out@, sv));
                            },
                        }
                    }
                }
            }
        }
        i = i + 1;
    }
    proof {
        assert forall|sv: Seq<Seq<char>>|
            #![trigger resolve_node_spec(NodeModel::Folder(rootm), sv, 0)]
            (extends_base(sv, basev) && resolve_node_spec(NodeModel::Folder(rootm), sv, 0)
                is Some && pattern_listed(pats, sv, recursive)) implies listed_in(
            out@,
            sv,
        ) by {
            lemma_resolve_extends(NodeModel::Folder(rootm), basev, sv, 0);
            let c = sv[basev.len() as int];
            assert(lookup(fm.entries, c) is Some);
            lemma_lookup_entries(fm.entries, c);
            let j = choose|j: int| 0 <= j < fm.entries.len() && (#[trigger] fm.entries[j]).name == c;
            assert(prefix_has_name(fm.entries, n as int, c));
        }
    }
}

/// Enumerates everything in one storage that the path pattern matches,
/// descending into matched folders when `recursive` is set.  Every
/// entry handed back truthfully describes a node of the storage.
pub fn iterate_file_or_folder(
    root: &FolderData,
    device_name: &String,
    storage_name: &String,
    path: &str,
    recursive: bool,
) -> (r: Vec<FoundEntry>)
    requires
        wf_entries(view_folder(*root).entries),
    ensures
        forall|k: int|
            0 <= k < r@.len() ==> entry_resolves(
                view_folder(*root),
                storage_name@,
                #[trigger] r@[k],
            ) && r@[k].device_name@ == device_name@ && r@[k].storage_name@ == storage_name@
                && pattern_listed(
                compiled_pats(path@),
                seq_views(r@[k].segments@),
                recursive,
            ),
        forall|sv: Seq<Seq<char>>|
            #![trigger resolve_node_spec(NodeModel::Folder(view_folder(*root)), sv, 0)]
            (resolve_node_spec(NodeModel::Folder(view_folder(*root)), sv, 0) is Some
                && pattern_listed(compiled_pats(path@), sv, recursive)) ==> listed_in(r@, sv),
        forall|a: int, b: int|
            0 <= a < b < r@.len() ==> seq_views((#[trigger] r@[a]).segments@) != seq_views(
                (#[trigger] r@[b]).segments@,
            ),
{
    let mut out: Vec<FoundEntry> = Vec::new();
    let root_matcher = match create_path_pattern_matcher(path) {
        Result::Ok(m) => m,
        Result::Err(_) => {
            return out;
        },
    };
    let mut base_path = device_name.clone();
    proof {
        reveal_strlit(":");
    }
    base_path.append(":");
    base_path.append(storage_name.as_str());
    base_path.append(":");
    let base: Vec<String> = Vec::new();
    let ghost rootm = view_folder(*root);
    let ghost pats = compiled_pats(path@);
    proof {
        assert(seq_views(base@) =~= Seq::<Seq<char>>::empty());
        assert(root_matcher.seg_pats() == pats);
    }
    let (state, next_matcher) = root_matcher.matches_root();
    match state {
        PathMatchingState::Rejected => {},
        PathMatchingState::Completed => {
            let info = FileInfo::from_node(storage_name, &FsNode::Folder(crate::namespace::clone_folder(root)));
            let entry = FoundEntry {
                object: ContentObject::new(base_path.clone()),
                device_name: device_name.clone(),
                storage_name: storage_name.clone(),
                segments: Vec::new(),
                info,
            };
            proof {
                assert(seq_views(entry.segments@) =~= Seq::<Seq<char>>::empty());
                assert(resolve_node_spec(
                    NodeModel::Folder(rootm),
                    seq_views(entry.segments@),
                    0,
                ) == Option::Some(NodeModel::Folder(rootm)));
                assert(pats.len() == 0);
                assert(pattern_listed(pats, seq_views(entry.segments@), recursive));
            }
            out.push(entry);
            let ghost out_root = out@;
            proof {
                assert(listed_in(out_root, Seq::<Seq<char>>::empty())) by {
                    assert(seq_views(out_root[0].segments@) == Seq::<Seq<char>>::empty());
                }
            }
            if recursive {
                iterate_rec(
                    root,
                    &PathMatcher::CompleteMatcher,
                    &base,
                    &base_path,
                    recursive,
                    device_name,
                    storage_name,
                    &mut out,
                    Ghost(rootm),
                    Ghost(pats),
                );
            }
        },
        PathMatchingState::Accepted => {
            match next_matcher {
                Option::Some(m2) => {
                    iterate_rec(
                        root,
                        &m2,
                        &base,
                        &base_path,
                        recursive,
                        device_name,
                        storage_name,
                        &mut out,
                        Ghost(rootm),
                        Ghost(pats),
                    );
                },
                Option::None => {},
            }
        },
    }
    proof {
        assert forall|a: int, b: int|
            0 <= a < b < out@.len() implies seq_views((#[trigger] out@[a]).segments@)
            != seq_views((#[trigger] out@[b]).segments@) by {
            if a == 0 && out@[0].segments@.len() == 0 {
                // the root entry alone carries no segments; everything the
                // walk added extends the empty base
                assert(seq_views(out@[a].segments@) =~= Seq::<Seq<char>>::empty());
                if extends_base(seq_views(out@[b].segments@), Seq::<Seq<char>>::empty()) {
                    assert(seq_views(out@[b].segments@).len() > 0);
                }
            }
        }
        assert forall|sv: Seq<Seq<char>>|
            #![trigger resolve_node_spec(NodeModel::Folder(rootm), sv, 0)]
            (resolve_node_spec(NodeModel::Folder(rootm), sv, 0) is Some && pattern_listed(
                pats,
                sv,
                recursive,
            )) implies listed_in(out@, sv) by {
            if sv.len() == 0 {
                assert(pats.len() == 0);
                assert(sv =~= Seq::<Seq<char>>::empty());
                let k = choose|k: int|
                    0 <= k < out@.len() && seq_views((#[trigger] out@[k]).segments@)
                        == Seq::<Seq<char>>::empty();
            } else {
                assert(extends_base(sv, seq_views(base@))) by {
                    assert(sv.take(0) =~= seq_views(base@));
                }
            }
        }
    }
    out
}

/// Whether any attached device bears the name.
pub open spec fn some_named_device(m: Manager, name: Seq<char>) -> bool {
    exists|j: int| 0 <= j < m.devices@.len() && (#[trigger] m.devices@[j]).name@ == name
}

/// The attached devices, all of them or only those bearing the given
/// name.
pub fn list_devices(manager: &Manager, pattern: Option<&String>) -> (r: Vec<DeviceInfo>)
    ensures
        forall|k: int|
            0 <= k < r@.len() ==> (match pattern {
                Option::Some(p) => (#[trigger] r@[k]).name@ == p@,
                Option::None => true,
            }),
        (match pattern {
            Option::Some(p) => some_named_device(*manager, p@) ==> r@.len() > 0,
            Option::None => r@.len() == manager.devices@.len(),
        }),
{
    let mut r: Vec<DeviceInfo> = Vec::new();
    let n = manager.devices.len();
    let mut i: usize = 0;
    while i < n
        invariant
            i <= n,
            n == manager.devices@.len(),
            forall|k: int|
                0 <= k < r@.len() ==> (match pattern {
                    Option::Some(p) => (#[trigger] r@[k]).name@ == p@,
                    Option::None => true,
                }),
            (match pattern {
                Option::Some(p) => (exists|j: int|
                    0 <= j < i && (#[trigger] manager.devices@[j]).name@ == p@) ==> r@.len() > 0,
                Option::None => r@.len() == i,
            }),
        decreases n - i,
    {
        let matched = match pattern {
            Option::Some(p) => manager.devices[i].name.eq(p),
            Option::None => true,
        };
        if matched {
            let info = DeviceInfo { name: manager.devices[i].name.clone() };
            r.push(info);
            proof {
                assert(r@[r@.len() - 1].name@ == manager.devices@[i as int].name@);
            }
        }
        i = i + 1;
    }
    r
}

/// The positions of this device's storages bearing the given name, or
/// of all of them.
pub fn list_device_storages(device: &DeviceModel, pattern: Option<&String>) -> (r: Vec<usize>)
    ensures
        forall|k: int|
            0 <= k < r@.len() ==> (#[trigger] r@[k]) < device.storages@.len() && (match pattern {
                Option::Some(p) => device.storages@[r@[k] as int].name@ == p@,
                Option::None => true,
            }),
        forall|j: int|
            0 <= j < device.storages@.len() && (match pattern {
                Option::Some(p) => (#[trigger] device.storages@[j]).name@ == p@,
                Option::None => true,
            }) ==> exists|k: int| 0 <= k < r@.len() && (#[trigger] r@[k]) == j,
{
    let mut r: Vec<usize> = Vec::new();
    let n = device.storages.len();
    let mut i: usize = 0;
    while i < n
        invariant
            i <= n,
            n == device.storages@.len(),
            forall|k: int|
                0 <= k < r@.len() ==> (#[trigger] r@[k]) < device.storages@.len() && (
                match pattern {
                    Option::Some(p) => device.storages@[r@[k] as int].name@ == p@,
                    Option::None => true,
                }),
            forall|j: int|
                0 <= j < i && (match pattern {
                    Option::Some(p) => (#[trigger] device.storages@[j]).name@ == p@,
                    Option::None => true,
                }) ==> exists|k: int| 0 <= k < r@.len() && (#[trigger] r@[k]) == j,
        decreases n - i,
    {
        let matched = match pattern {
            Option::Some(p) => device.storages[i].name.eq(p),
            Option::None => true,
        };
        let ghost rprev = r@;
        if matched {
            r.push(i);
        }
        proof {
            assert forall|j: int|
                0 <= j < i + 1 && (match pattern {
                    Option::Some(p) => (#[trigger] device.storages@[j]).name@ == p@,
                    Option::None => true,
                }) implies exists|k: int| 0 <= k < r@.len() && (#[trigger] r@[k]) == j by {
                if j < i && exists|k: int| 0 <= k < rprev.len() && (#[trigger] rprev[k]) == j {
                    let k = choose|k: int| 0 <= k < rprev.len() && (#[trigger] rprev[k]) == j;
                    assert(r@[k] == j);
                }
                if j == i {
                    assert(r@[r@.len() - 1] == i);
                }
            }
        }
        i = i + 1;
    }
    r
}

/// The number of storages of the first `upto` devices.
pub open spec fn total_storages(ds: Seq<DeviceModel>, upto: int) -> nat
    decreases upto,
{
    if upto <= 0 {
        0
    } else {
        total_storages(ds, upto - 1) + ds[upto - 1].storages@.len()
    }
}

/// One `device:storage:` line for every storage of every device.
pub fn list_storages(manager: &Manager) -> (r: Vec<String>)
    ensures
        r@.len() == total_storages(manager.devices@, manager.devices@.len() as int),
{
    proof {
        reveal_strlit(":");
    }
    let mut r: Vec<String> = Vec::new();
    let nd = manager.devices.len();
    let mut i: usize = 0;
    while i < nd
        invariant
            i <= nd,
            nd == manager.devices@.len(),
            r@.len() == total_storages(manager.devices@, i as int),
        decreases nd - i,
    {
        let device = &manager.devices[i];
        let ns = device.storages.len();
        let mut j: usize = 0;
        while j < ns
            invariant
                i < nd,
                nd == manager.devices@.len(),
                j <= ns,
                ns == device.storages@.len(),
                device == &manager.devices[i as int],
                r@.len() == total_storages(manager.devices@, i as int) + j,
            decreases ns - j,
        {
            let mut line = device.name.clone();
            line.append(":");
            line.append(device.storages[j].name.as_str());
            line.append(":");
            r.push(line);
            j = j + 1;
        }
        i = i + 1;
    }
    r
}

/// Whether the path expression names this storage and `sv` is matched
/// inside it: what a listing must hand back.
pub open spec fn storage_lists(
    m: Manager,
    di: int,
    si: int,
    path: Seq<char>,
    sv: Seq<Seq<char>>,
    recursive: bool,
) -> bool {
    &&& 0 <= di < m.devices@.len()
    &&& 0 <= si < m.devices@[di].storages@.len()
    &&& m.devices@[di].name@ == DeviceStoragePath::spec_device_part(path)
    &&& m.devices@[di].storages@[si].name@ == DeviceStoragePath::spec_storage_part(path)
    &&& resolve_node_spec(
        NodeModel::Folder(view_folder(m.devices@[di].storages@[si].root)),
        sv,
        0,
    ) is Some
    &&& pattern_listed(
        compiled_pats(DeviceStoragePath::spec_path_part(path)),
        sv,
        recursive,
    )
}

/// Whether some entry carries exactly these segments under these names.
pub open spec fn listed_with_names(
    es: Seq<FoundEntry>,
    dev: Seq<char>,
    stor: Seq<char>,
    sv: Seq<Seq<char>>,
) -> bool {
    exists|k: int|
        0 <= k < es.len() && seq_views((#[trigger] es[k]).segments@) == sv && es[k].device_name@
            == dev && es[k].storage_name@ == stor
}

/// Lists everything the path expression matches, across every device
/// bearing the named device and storage names.  Every entry handed back
/// truthfully describes a node of the storage it names, and everything
/// the pattern matches in a named storage is handed back.
pub fn list_files(manager: &Manager, path: &str, recursive: bool) -> (r: Result<
    Vec<FoundEntry>,
    CopyError,
>)
    requires
        manager.wf(),
    ensures
        match r {
            Result::Ok(v) => forall|k: int|
                0 <= k < v@.len() ==> (exists|di: int, si: int|
                    {
                        &&& 0 <= di < manager.devices@.len()
                        &&& 0 <= si < manager.devices@[di].storages@.len()
                        &&& (#[trigger] manager.devices@[di].storages@[si]).name@ == (
                        #[trigger] v@[k]).storage_name@
                        &&& manager.devices@[di].name@ == v@[k].device_name@
                        &&& entry_resolves(
                            view_folder(manager.devices@[di].storages@[si].root),
                            manager.devices@[di].storages@[si].name@,
                            v@[k],
                        )
                    }) && pattern_listed(
                    compiled_pats(DeviceStoragePath::spec_path_part(path@)),
                    seq_views(v@[k].segments@),
                    recursive,
                ),
            Result::Err(e) => e == CopyError::ParseError || e == CopyError::NotFound,
        },
        !crate::path::spec_device_form(path@) ==> r == Result::<
            Vec<FoundEntry>,
            CopyError,
        >::Err(CopyError::ParseError),
        crate::path::spec_device_form(path@) ==> {
            let dev = DeviceStoragePath::spec_device_part(path@);
            &&& (!some_named_device(*manager, dev) ==> r == Result::<
                Vec<FoundEntry>,
                CopyError,
            >::Err(CopyError::NotFound))
            &&& (some_named_device(*manager, dev) ==> r is Ok)
        },
        r is Ok ==> forall|di: int, si: int, sv: Seq<Seq<char>>|
            #[trigger] storage_lists(*manager, di, si, path@, sv, recursive) ==> listed_with_names(
                r->Ok_0@,
                manager.devices@[di].name@,
                manager.devices@[di].storages@[si].name@,
                sv,
            ),
{
    let sp = match DeviceStoragePath::from(path) {
        Result::Ok(p) => p,
        Result::Err(e) => {
            return Result::Err(e);
        },
    };
    let mut out: Vec<FoundEntry> = Vec::new();
    let mut matched_any = false;
    let nd = manager.devices.len();
    let mut i: usize = 0;
    while i < nd
        invariant
            i <= nd,
            nd == manager.devices@.len(),
            manager.wf(),
            matched_any <==> exists|j: int|
                0 <= j < i && (#[trigger] manager.devices@[j]).name@ == sp.device_name@,
            forall|k: int|
                0 <= k < out@.len() ==> (exists|di: int, si: int|
                    {
                        &&& 0 <= di < manager.devices@.len()
                        &&& 0 <= si < manager.devices@[di].storages@.len()
                        &&& (#[trigger] manager.devices@[di].storages@[si]).name@ == (
                        #[trigger] out@[k]).storage_name@
                        &&& manager.devices@[di].name@ == out@[k].device_name@
                        &&& entry_resolves(
                            view_folder(manager.devices@[di].storages@[si].root),
                            manager.devices@[di].storages@[si].name@,
                            out@[k],
                        )
                    }) && pattern_listed(
                    compiled_pats(sp.path@),
                    seq_views(out@[k].segments@),
                    recursive,
                ),
            forall|di: int, si: int, sv: Seq<Seq<char>>|
                #[trigger] storage_lists(*manager, di, si, path@, sv, recursive) && di < i
                    ==> listed_with_names(
                    out@,
                    manager.devices@[di].name@,
                    manager.devices@[di].storages@[si].name@,
                    sv,
                ),
        decreases nd - i,
    {
        let device = &manager.devices[i];
        if device.name.eq(&sp.device_name) {
            matched_any = true;
            let ns = device.storages.len();
            let mut j: usize = 0;
            while j < ns
                invariant
                    i < nd,
                    nd == manager.devices@.len(),
                    j <= ns,
                    ns == device.storages@.len(),
                    device == &manager.devices[i as int],
                    manager.wf(),
                    forall|k: int|
                        0 <= k < out@.len() ==> (exists|di: int, si: int|
                            {
                                &&& 0 <= di < manager.devices@.len()
                                &&& 0 <= si < manager.devices@[di].storages@.len()
                                &&& (#[trigger] manager.devices@[di].storages@[si]).name@ == (
                                #[trigger] out@[k]).storage_name@
                                &&& manager.devices@[di].name@ == out@[k].device_name@
                                &&& entry_resolves(
                                    view_folder(manager.devices@[di].storages@[si].root),
                                    manager.devices@[di].storages@[si].name@,
                                    out@[k],
                                )
                            }) && pattern_listed(
                            compiled_pats(sp.path@),
                            seq_views(out@[k].segments@),
                            recursive,
                        ),
                    forall|di: int, si: int, sv: Seq<Seq<char>>|
                        #[trigger] storage_lists(*manager, di, si, path@, sv, recursive) && (di
                            < i || (di == i && si < j)) ==> listed_with_names(
                            out@,
                            manager.devices@[di].name@,
                            manager.devices@[di].storages@[si].name@,
                            sv,
                        ),
                decreases ns - j,
            {
                let storage = &device.storages[j];
                if storage.name.eq(&sp.storage_name) {
                    let found = iterate_file_or_folder(
                        &storage.root,
                        &device.name,
                        &storage.name,
                        sp.path.as_str(),
                        recursive,
                    );
                    let nf = found.len();
                    let mut k: usize = 0;
                    let mut found_mut = found;
                    while k < nf
                        invariant
                            i < nd,
                            j < ns,
                            nd == manager.devices@.len(),
                            ns == device.storages@.len(),
                            device == &manager.devices[i as int],
                            storage == &device.storages[j as int],
                            manager.wf(),
                            k <= nf,
                            nf == found_mut@.len() + k,
                            forall|t: int|
                                0 <= t < found_mut@.len() ==> entry_resolves(
                                    view_folder(storage.root),
                                    storage.name@,
                                    #[trigger] found_mut@[t],
                                ) && found_mut@[t].storage_name@ == storage.name@
                                    && found_mut@[t].device_name@ == device.name@
                                    && pattern_listed(
                                    compiled_pats(sp.path@),
                                    seq_views(found_mut@[t].segments@),
                                    recursive,
                                ),
                            forall|t: int|
                                0 <= t < out@.len() ==> (exists|di: int, si: int|
                                    {
                                        &&& 0 <= di < manager.devices@.len()
                                        &&& 0 <= si < manager.devices@[di].storages@.len()
                                        &&& (#[trigger] manager.devices@[di].storages@[si]).name@
                                            == (#[trigger] out@[t]).storage_name@
                                        &&& manager.devices@[di].name@ == out@[t].device_name@
                                        &&& entry_resolves(
                                            view_folder(
                                                manager.devices@[di].storages@[si].root,
                                            ),
                                            manager.devices@[di].storages@[si].name@,
                                            out@[t],
                                        )
                                    }) && pattern_listed(
                                    compiled_pats(sp.path@),
                                    seq_views(out@[t].segments@),
                                    recursive,
                                ),
                            forall|di: int, si: int, sv: Seq<Seq<char>>|
                                #[trigger] storage_lists(*manager, di, si, path@, sv, recursive)
                                    && (di < i || (di == i && si < j)) ==> listed_with_names(
                                    out@,
                                    manager.devices@[di].name@,
                                    manager.devices@[di].storages@[si].name@,
                                    sv,
                                ),
                            forall|sv: Seq<Seq<char>>|
                                #![trigger resolve_node_spec(
                                    NodeModel::Folder(view_folder(storage.root)),
                                    sv,
                                    0,
                                )]
                                (resolve_node_spec(
                                    NodeModel::Folder(view_folder(storage.root)),
                                    sv,
                                    0,
                                ) is Some && pattern_listed(
                                    compiled_pats(sp.path@),
                                    sv,
                                    recursive,
                                )) ==> (listed_with_names(
                                    out@,
                                    device.name@,
                                    storage.name@,
                                    sv,
                                ) || listed_in(found_mut@, sv)),
                        decreases nf - k,
                    {
                        let ghost out_pre = out@;
                        let ghost found_pre = found_mut@;
                        let e = found_mut.remove(0);
                        proof {
                            assert(entry_resolves(view_folder(storage.root), storage.name@, e));
                            assert(pattern_listed(
                                compiled_pats(sp.path@),
                                seq_views(e.segments@),
                                recursive,
                            ));
                        }
                        out.push(e);
                        proof {
                            assert forall|di: int, si: int, sv: Seq<Seq<char>>|
                                #[trigger] storage_lists(*manager, di, si, path@, sv, recursive)
                                    && (di < i || (di == i && si < j)) implies listed_with_names(
                                out@,
                                manager.devices@[di].name@,
                                manager.devices@[di].storages@[si].name@,
                                sv,
                            ) by {
                                let kk = choose|kk: int|
                                    0 <= kk < out_pre.len() && seq_views(
                                        (#[trigger] out_pre[kk]).segments@,
                                    ) == sv && out_pre[kk].device_name@
                                        == manager.devices@[di].name@ && out_pre[kk].storage_name@
                                        == manager.devices@[di].storages@[si].name@;
                                assert(out@[kk] == out_pre[kk]);
                            }
                            assert forall|sv: Seq<Seq<char>>|
                                #![trigger resolve_node_spec(
                                    NodeModel::Folder(view_folder(storage.root)),
                                    sv,
                                    0,
                                )]
                                (resolve_node_spec(
                                    NodeModel::Folder(view_folder(storage.root)),
                                    sv,
                                    0,
                                ) is Some && pattern_listed(
                                    compiled_pats(sp.path@),
                                    sv,
                                    recursive,
                                )) implies (listed_with_names(
                                out@,
                                device.name@,
                                storage.name@,
                                sv,
                            ) || listed_in(found_mut@, sv)) by {
                                if listed_with_names(out_pre, device.name@, storage.name@, sv) {
                                    let kk = choose|kk: int|
                                        0 <= kk < out_pre.len() && seq_views(
                                            (#[trigger] out_pre[kk]).segments@,
                                        ) == sv && out_pre[kk].device_name@ == device.name@
                                            && out_pre[kk].storage_name@ == storage.name@;
                                    assert(out@[kk] == out_pre[kk]);
                                } else if listed_in(found_pre, sv) {
                                    let kk = choose|kk: int|
                                        0 <= kk < found_pre.len() && seq_views(
                                            (#[trigger] found_pre[kk]).segments@,
                                        ) == sv;
                                    if kk == 0 {
                                        assert(e == found_pre[0]);
                                        assert(out@[out@.len() - 1] == e);
                                        assert(listed_with_names(
                                            out@,
                                            device.name@,
                                            storage.name@,
                                            sv,
                                        ));
                                    } else {
                                        assert(found_mut@[kk - 1] == found_pre[kk]);
                                        assert(listed_in(found_mut@, sv));
                                    }
                                }
                            }
                        }
                        k = k + 1;
                    }
                }
                j = j + 1;
            }
        }
        i = i + 1;
    }
    if !matched_any {
        return Result::Err(CopyError::NotFound);
    }
    Result::Ok(out)
}

} // verus!
