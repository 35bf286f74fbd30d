//! The laws of the synchronization algorithm, stated over the spec
//! predicates that the copy engine's contracts establish.
//!
//! Idempotence itself is part of the engine's contracts: a successful
//! recursive copy ensures `synced_with` of source and destination, and a
//! further non-mirror copy over a destination satisfying `synced_with`
//! ensures the destination value and the transfer counter are unchanged.
//! The lemmas here connect the remaining guarantees.
use vstd::prelude::*;
use crate::copy_processor::{
    fresh_copy_of, fresh_file_of, mirrored_with, src_has_visible, synced_with,
};
use crate::file_info::times_allow_skip;
use crate::namespace::{
    has_name, lemma_lookup_entries, lemma_lookup_index, lookup, node_is_folder, node_visible,
    uniq_names, EntryModel, NodeModel,
};

verus! {

/// A freshly copied destination is synchronized with its source: a
/// second, non-mirror run of the same copy is a no-op that re-transfers
/// nothing.
pub proof fn lemma_fresh_copy_is_synced(src: Seq<EntryModel>, dst: Seq<EntryModel>)
    requires
        fresh_copy_of(src, dst),
    ensures
        synced_with(src, dst),
    decreases src,
{
    assert forall|i: int|
        #![trigger src[i]]
        0 <= i < src.len() && node_visible(src[i].node) implies crate::copy_processor::entry_synced(
        src[i],
        lookup(dst, src[i].name),
    ) by {
        let d = lookup(dst, src[i].name)->Some_0;
        match (src[i].node, d) {
            (NodeModel::File(f), NodeModel::File(g)) => {
                assert(fresh_file_of(f, g));
                assert(times_allow_skip(f.modified, g.modified)) by {
                    match f.modified {
                        Option::Some(_) => {},
                        Option::None => {},
                    }
                }
            },
            (NodeModel::Folder(sf), NodeModel::Folder(df)) => {
                lemma_fresh_copy_is_synced(sf.entries, df.entries);
            },
            _ => {},
        }
    }
}

/// A hidden or system source entry never appears in a freshly copied
/// destination.
pub proof fn lemma_hidden_source_absent(src: Seq<EntryModel>, dst: Seq<EntryModel>, i: int)
    requires
        fresh_copy_of(src, dst),
        uniq_names(src),
        0 <= i < src.len(),
        !node_visible(src[i].node),
    ensures
        !has_name(dst, src[i].name),
{
    if has_name(dst, src[i].name) {
        assert(src_has_visible(src, src[i].name));
        let j = choose|j: int|
            0 <= j < src.len() && (#[trigger] src[j]).name == src[i].name && node_visible(
                src[j].node,
            );
        assert(j == i);
    }
}

/// After a mirror pass, no visible destination entry remains whose name
/// no visible source entry bears: what was not copied in this pass was
/// swept.  (A hidden or system destination entry is outside the sweep
/// and may remain.)
pub proof fn lemma_mirror_removes_unrelated(
    src: Seq<EntryModel>,
    dst: Seq<EntryModel>,
    n: Seq<char>,
)
    requires
        mirrored_with(src, dst),
        !src_has_visible(src, n),
    ensures
        !(lookup(dst, n) is Some && node_visible(lookup(dst, n)->Some_0)),
{
}

/// Whether the entry list holds a visible entry named `n` of folderness
/// `k`: one point of the set that mirror convergence speaks of.
pub open spec fn has_visible_pair(es: Seq<EntryModel>, n: Seq<char>, k: bool) -> bool {
    exists|i: int|
        0 <= i < es.len() && (#[trigger] es[i]).name == n && node_visible(es[i].node)
            && node_is_folder(es[i].node) == k
}

/// Mirror convergence makes the set of visible `(name, is_folder)`
/// pairs of the destination equal to that of the source.
pub proof fn lemma_mirror_pair_equivalence(
    src: Seq<EntryModel>,
    dst: Seq<EntryModel>,
    n: Seq<char>,
    k: bool,
)
    requires
        mirrored_with(src, dst),
        uniq_names(src),
        uniq_names(dst),
    ensures
        has_visible_pair(dst, n, k) <==> has_visible_pair(src, n, k),
{
    if has_visible_pair(dst, n, k) {
        let j = choose|j: int|
            0 <= j < dst.len() && (#[trigger] dst[j]).name == n && node_visible(dst[j].node)
                && node_is_folder(dst[j].node) == k;
        lemma_lookup_index(dst, n, j);
        assert(lookup(dst, n) == Option::Some(dst[j].node));
        assert(src_has_visible(src, n));
        let i = choose|i: int|
            0 <= i < src.len() && (#[trigger] src[i]).name == n && node_visible(src[i].node);
        assert(node_is_folder(lookup(dst, src[i].name)->Some_0) == node_is_folder(src[i].node));
        assert(has_visible_pair(src, n, k));
    }
    if has_visible_pair(src, n, k) {
        let i = choose|i: int|
            0 <= i < src.len() && (#[trigger] src[i]).name == n && node_visible(src[i].node)
                && node_is_folder(src[i].node) == k;
        let d = lookup(dst, src[i].name)->Some_0;
        assert(node_visible(d) && node_is_folder(d) == k);
        lemma_lookup_entries(dst, n);
        let j = choose|j: int|
            0 <= j < dst.len() && (#[trigger] dst[j]).name == n && dst[j].node == lookup(
                dst,
                n,
            )->Some_0;
        assert(has_visible_pair(dst, n, k));
    }
}

} // verus!
