//! The engine's cross-operation guarantees, stated once over the store and
//! edge-set model and proved for every input.
//!
//! Each proof function here connects the contracts of two or more operations:
//! what `update_index` leaves behind when handed the current state, what a
//! completed `create_index` makes readable from either end, what a diff
//! converges to, and what `create` and `update` make `read` return.

use vstd::prelude::*;

use crate::errors::RecordError;
use crate::graph::{
    add_pair_edges, all_resolve, dest_ids, edge_back, edge_between, graph_has, has_dest,
    is_pair_edge, lemma_add_pairs_graph_has, lemma_dest_ids_iff_has_dest, lemma_graph_has_push_missing,
    lemma_remove_pairs_graph_has, lemma_retained_in_contains, lemma_targets_iff_graph_has,
    lemma_without_contains, push_missing, remove_pair_edges, retained_in, targets_from, without,
    EdgeModel,
};
use crate::identity::{identity_anchor, AnchorModel, IdentityAddress, RevisionAddress};
use crate::store::{read_result, Store};

verus! {

proof fn lemma_retained_in_none(s: Seq<IdentityAddress>)
    ensures
        retained_in(s, Seq::<IdentityAddress>::empty()) == Seq::<IdentityAddress>::empty(),
    decreases s.len(),
{
    if s.len() > 0 {
        lemma_retained_in_none(s.drop_last());
        assert(!Seq::<IdentityAddress>::empty().contains(s.last())) by {
            if Seq::<IdentityAddress>::empty().contains(s.last()) {
                let i = choose|i: int|
                    0 <= i < Seq::<IdentityAddress>::empty().len()
                        && Seq::<IdentityAddress>::empty()[i] == s.last();
            }
        }
    }
}

proof fn lemma_without_all_in(s: Seq<IdentityAddress>, full: Seq<IdentityAddress>)
    requires
        forall|i: int| 0 <= i < s.len() ==> full.contains(#[trigger] s[i]),
    ensures
        without(s, full) == Seq::<IdentityAddress>::empty(),
    decreases s.len(),
{
    if s.len() > 0 {
        assert(full.contains(s[s.len() - 1]));
        lemma_without_all_in(s.drop_last(), full);
    }
}

/// Idempotence: converging an index onto its own current destination set is
/// a no-op. With the current destinations requested as additions and nothing
/// to remove, `update_index` computes an empty removal list and an empty
/// addition list, leaves the edge set exactly as it was, and so reports no
/// edge operations at all.
pub proof fn lemma_update_index_idempotent(
    g: Seq<EdgeModel>,
    source_type: Seq<char>,
    source: IdentityAddress,
    tag: Seq<char>,
    dest_type: Seq<char>,
    tag_reciprocal: Seq<char>,
)
    ensures
        ({
            let current = dest_ids(g, identity_anchor(source_type, source), tag);
            let to_remove = retained_in(current, Seq::<IdentityAddress>::empty());
            let to_add = without(current, current);
            &&& to_remove == Seq::<IdentityAddress>::empty()
            &&& to_add == Seq::<IdentityAddress>::empty()
            &&& add_pair_edges(
                remove_pair_edges(
                    g,
                    source_type,
                    source,
                    tag,
                    dest_type,
                    tag_reciprocal,
                    to_remove,
                ),
                source_type,
                source,
                tag,
                dest_type,
                tag_reciprocal,
                to_add,
            ) == g
        }),
{
    let current = dest_ids(g, identity_anchor(source_type, source), tag);
    lemma_retained_in_none(current);
    assert forall|i: int| 0 <= i < current.len() implies current.contains(#[trigger] current[i]) by {
        assert(current[i] == current[i]);
    }
    lemma_without_all_in(current, current);
}

/// Bidirectionality: once both halves of `create_index` have succeeded, the
/// relationship is traversable from either endpoint. The forward index of
/// the source lists the destination's anchor, the reverse index of the
/// destination lists the source's anchor, and wherever those indexes are
/// readable at all their destination sets contain the reciprocal identity.
pub proof fn lemma_create_index_bidirectional(
    g: Seq<EdgeModel>,
    source_type: Seq<char>,
    source: IdentityAddress,
    dest_type: Seq<char>,
    dest: IdentityAddress,
    tag: Seq<char>,
    tag_reciprocal: Seq<char>,
)
    ensures
        ({
            let g2 = push_missing(
                push_missing(g, edge_between(source_type, source, tag, dest_type, dest)),
                edge_back(source_type, source, tag_reciprocal, dest_type, dest),
            );
            let src = identity_anchor(source_type, source);
            let dst = identity_anchor(dest_type, dest);
            &&& graph_has(g2, edge_between(source_type, source, tag, dest_type, dest))
            &&& graph_has(g2, edge_back(source_type, source, tag_reciprocal, dest_type, dest))
            &&& targets_from(g2, src, tag).contains(dst)
            &&& targets_from(g2, dst, tag_reciprocal).contains(src)
            &&& (all_resolve(targets_from(g2, src, tag)) ==> dest_ids(g2, src, tag).contains(
                dest,
            ))
            &&& (all_resolve(targets_from(g2, dst, tag_reciprocal)) ==> dest_ids(
                g2,
                dst,
                tag_reciprocal,
            ).contains(source))
        }),
{
    let fwd = edge_between(source_type, source, tag, dest_type, dest);
    let back = edge_back(source_type, source, tag_reciprocal, dest_type, dest);
    let g1 = push_missing(g, fwd);
    let g2 = push_missing(g1, back);
    let src = identity_anchor(source_type, source);
    let dst = identity_anchor(dest_type, dest);
    lemma_graph_has_push_missing(g, fwd, fwd);
    lemma_graph_has_push_missing(g1, back, fwd);
    lemma_graph_has_push_missing(g1, back, back);
    lemma_targets_iff_graph_has(g2, src, tag, dst);
    lemma_targets_iff_graph_has(g2, dst, tag_reciprocal, src);
    assert(graph_has(g2, EdgeModel { source: src, tag, target: dst }));
    assert(graph_has(g2, EdgeModel { source: dst, tag: tag_reciprocal, target: src }));
    if all_resolve(targets_from(g2, src, tag)) {
        lemma_dest_ids_iff_has_dest(g2, src, tag, dest);
        assert(has_dest(g2, src, tag, dest));
    }
    if all_resolve(targets_from(g2, dst, tag_reciprocal)) {
        lemma_dest_ids_iff_has_dest(g2, dst, tag_reciprocal, source);
        assert(has_dest(g2, dst, tag_reciprocal, source));
    }
}

/// Diff correctness: over a well-typed index, the edge set `update_index`
/// leaves behind reads as exactly `(current - remove) + (add - current)`,
/// checked from both endpoints. An identity is a destination of the source
/// afterwards precisely when it was current and not flagged for removal, or
/// requested and not yet current; and the reciprocal edge of an identity
/// exists afterwards precisely when it survived the removals or was just
/// created. Requires the index to be homogeneous (every listed target is a
/// resolving anchor of the destination type) and the two tags of the
/// relationship to differ.
pub proof fn lemma_update_index_converges(
    g: Seq<EdgeModel>,
    source_type: Seq<char>,
    source: IdentityAddress,
    tag: Seq<char>,
    dest_type: Seq<char>,
    tag_reciprocal: Seq<char>,
    add: Seq<IdentityAddress>,
    remove: Seq<IdentityAddress>,
)
    requires
        g.no_duplicates(),
        tag != tag_reciprocal,
        forall|i: int|
            0 <= i < targets_from(g, identity_anchor(source_type, source), tag).len() ==> {
                let t = #[trigger] targets_from(g, identity_anchor(source_type, source), tag)[i];
                t.entry_type == dest_type && t.base is Some
            },
    ensures
        ({
            let src = identity_anchor(source_type, source);
            let current = dest_ids(g, src, tag);
            let to_remove = retained_in(current, remove);
            let to_add = without(add, current);
            let g2 = add_pair_edges(
                remove_pair_edges(
                    g,
                    source_type,
                    source,
                    tag,
                    dest_type,
                    tag_reciprocal,
                    to_remove,
                ),
                source_type,
                source,
                tag,
                dest_type,
                tag_reciprocal,
                to_add,
            );
            &&& (forall|id: IdentityAddress|
                #[trigger] has_dest(g2, src, tag, id) == ((current.contains(id)
                    && !remove.contains(id)) || (add.contains(id) && !current.contains(id))))
            &&& (forall|id: IdentityAddress|
                #[trigger] graph_has(
                    g2,
                    edge_back(source_type, source, tag_reciprocal, dest_type, id),
                ) == ((graph_has(g, edge_back(source_type, source, tag_reciprocal, dest_type, id))
                    && !(current.contains(id) && remove.contains(id))) || (add.contains(id)
                    && !current.contains(id))))
        }),
{
    let src = identity_anchor(source_type, source);
    let ts = targets_from(g, src, tag);
    let current = dest_ids(g, src, tag);
    let to_remove = retained_in(current, remove);
    let to_add = without(add, current);
    let g1 = remove_pair_edges(g, source_type, source, tag, dest_type, tag_reciprocal, to_remove);
    let g2 = add_pair_edges(g1, source_type, source, tag, dest_type, tag_reciprocal, to_add);
    lemma_remove_pairs_graph_has(g, source_type, source, tag, dest_type, tag_reciprocal, to_remove);
    lemma_add_pairs_graph_has(g1, source_type, source, tag, dest_type, tag_reciprocal, to_add);
    assert(all_resolve(ts));

    assert forall|id: IdentityAddress|
        #[trigger] has_dest(g2, src, tag, id) == ((current.contains(id) && !remove.contains(id))
            || (add.contains(id) && !current.contains(id))) by {
        lemma_retained_in_contains(current, remove, id);
        lemma_without_contains(add, current, id);
        lemma_dest_ids_iff_has_dest(g, src, tag, id);
        let dst = AnchorModel { entry_type: dest_type, base: Some(id) };
        if current.contains(id) && !remove.contains(id) {
            let t = choose|t: AnchorModel|
                #[trigger] graph_has(g, EdgeModel { source: src, tag, target: t }) && t.base
                    == Some(id);
            let e = EdgeModel { source: src, tag, target: t };
            lemma_targets_iff_graph_has(g, src, tag, t);
            let i = choose|i: int| 0 <= i < ts.len() && ts[i] == t;
            assert(t.entry_type == dest_type);
            assert(t == dst);
            assert(e == edge_between(source_type, source, tag, dest_type, id));
            assert(!is_pair_edge(
                e,
                source_type,
                source,
                tag,
                dest_type,
                tag_reciprocal,
                to_remove,
            )) by {
                if is_pair_edge(e, source_type, source, tag, dest_type, tag_reciprocal, to_remove) {
                    let d2 = choose|d2: IdentityAddress|
                        #[trigger] to_remove.contains(d2) && (e == edge_between(
                            source_type,
                            source,
                            tag,
                            dest_type,
                            d2,
                        ) || e == edge_back(source_type, source, tag_reciprocal, dest_type, d2));
                    if e == edge_between(source_type, source, tag, dest_type, d2) {
                        assert(d2 == id);
                    } else {
                        assert(e.tag == tag_reciprocal);
                    }
                }
            }
            assert(graph_has(g1, e));
            assert(graph_has(g2, e));
            assert(has_dest(g2, src, tag, id));
        }
        if add.contains(id) && !current.contains(id) {
            let e = edge_between(source_type, source, tag, dest_type, id);
            assert(to_add.contains(id));
            assert(is_pair_edge(e, source_type, source, tag, dest_type, tag_reciprocal, to_add));
            assert(graph_has(g2, e));
            assert(graph_has(g2, EdgeModel { source: src, tag, target: dst }));
            assert(has_dest(g2, src, tag, id));
        }
        if has_dest(g2, src, tag, id) {
            let t = choose|t: AnchorModel|
                #[trigger] graph_has(g2, EdgeModel { source: src, tag, target: t }) && t.base
                    == Some(id);
            let e = EdgeModel { source: src, tag, target: t };
            if is_pair_edge(e, source_type, source, tag, dest_type, tag_reciprocal, to_add) {
                let d2 = choose|d2: IdentityAddress|
                    #[trigger] to_add.contains(d2) && (e == edge_between(
                        source_type,
                        source,
                        tag,
                        dest_type,
                        d2,
                    ) || e == edge_back(source_type, source, tag_reciprocal, dest_type, d2));
                if e == edge_back(source_type, source, tag_reciprocal, dest_type, d2) {
                    assert(e.tag == tag_reciprocal);
                    assert(false);
                }
                assert(t.base == Some(d2));
                assert(d2 == id);
                assert(add.contains(id) && !current.contains(id));
            } else {
                assert(graph_has(g1, e));
                assert(graph_has(g, e));
                assert(!is_pair_edge(
                    e,
                    source_type,
                    source,
                    tag,
                    dest_type,
                    tag_reciprocal,
                    to_remove,
                ));
                assert(has_dest(g, src, tag, id));
                assert(current.contains(id));
                if remove.contains(id) {
                    assert(to_remove.contains(id));
                    lemma_targets_iff_graph_has(g, src, tag, t);
                    let i = choose|i: int| 0 <= i < ts.len() && ts[i] == t;
                    assert(t.entry_type == dest_type);
                    assert(t == dst);
                    assert(e == edge_between(source_type, source, tag, dest_type, id));
                    assert(is_pair_edge(
                        e,
                        source_type,
                        source,
                        tag,
                        dest_type,
                        tag_reciprocal,
                        to_remove,
                    ));
                }
                assert(!remove.contains(id));
            }
        }
    }

    assert forall|id: IdentityAddress|
        #[trigger] graph_has(g2, edge_back(source_type, source, tag_reciprocal, dest_type, id)) == (
        (graph_has(g, edge_back(source_type, source, tag_reciprocal, dest_type, id)) && !(
        current.contains(id) && remove.contains(id))) || (add.contains(id) && !current.contains(
            id,
        ))) by {
        lemma_retained_in_contains(current, remove, id);
        lemma_without_contains(add, current, id);
        let b = edge_back(source_type, source, tag_reciprocal, dest_type, id);
        assert(is_pair_edge(b, source_type, source, tag, dest_type, tag_reciprocal, to_remove)
            == to_remove.contains(id)) by {
            if is_pair_edge(b, source_type, source, tag, dest_type, tag_reciprocal, to_remove) {
                let d2 = choose|d2: IdentityAddress|
                    #[trigger] to_remove.contains(d2) && (b == edge_between(
                        source_type,
                        source,
                        tag,
                        dest_type,
                        d2,
                    ) || b == edge_back(source_type, source, tag_reciprocal, dest_type, d2));
                if b == edge_between(source_type, source, tag, dest_type, d2) {
                    assert(b.tag == tag);
                    assert(false);
                }
                assert(d2 == id);
            }
        }
        assert(is_pair_edge(b, source_type, source, tag, dest_type, tag_reciprocal, to_add)
            == to_add.contains(id)) by {
            if is_pair_edge(b, source_type, source, tag, dest_type, tag_reciprocal, to_add) {
                let d2 = choose|d2: IdentityAddress|
                    #[trigger] to_add.contains(d2) && (b == edge_between(
                        source_type,
                        source,
                        tag,
                        dest_type,
                        d2,
                    ) || b == edge_back(source_type, source, tag_reciprocal, dest_type, d2));
                if b == edge_between(source_type, source, tag, dest_type, d2) {
                    assert(b.tag == tag);
                    assert(false);
                }
                assert(d2 == id);
            }
        }
    }
}

/// Round trip: what `create` stores under a fresh identity, `read` hands
/// back unchanged. The facts on the left are exactly what `create` ensures
/// about the store it leaves behind.
pub proof fn lemma_create_read_round_trip<T>(
    s: Store<T>,
    t: Seq<char>,
    payload: T,
    id: IdentityAddress,
    rv: RevisionAddress,
)
    requires
        s.is_live(id),
        s.record_type(id) == t,
        s.chain(id) == seq![(rv, payload)],
    ensures
        read_result(s, t, id) == Ok::<(RevisionAddress, T), RecordError>((rv, payload)),
{
    assert(s.chain(id).last() == (rv, payload));
}

/// Revision progression: after an update has appended a new revision, `read`
/// on the identity returns the newest entry, never a stale one, while every
/// pair of the earlier chain is still retrievable, unchanged, at its own
/// revision address.
pub proof fn lemma_revision_progression<T>(
    pre: Store<T>,
    post: Store<T>,
    t: Seq<char>,
    id: IdentityAddress,
    new_rv: RevisionAddress,
    new_entry: T,
)
    requires
        post.wf(),
        post.has_record(id),
        post.is_live(id),
        post.record_type(id) == t,
        post.chain(id) == pre.chain(id).push((new_rv, new_entry)),
    ensures
        read_result(post, t, id) == Ok::<(RevisionAddress, T), RecordError>((new_rv, new_entry)),
        forall|k: int|
            0 <= k < pre.chain(id).len() ==> {
                let pair = #[trigger] pre.chain(id)[k];
                post.has_revision(pair.0) && post.revision_owner(pair.0) == id
                    && post.revision_entry(pair.0) == pair.1
            },
{
    assert(post.chain(id).last() == (new_rv, new_entry));
    assert forall|k: int| 0 <= k < pre.chain(id).len() implies {
        let pair = #[trigger] pre.chain(id)[k];
        post.has_revision(pair.0) && post.revision_owner(pair.0) == id && post.revision_entry(
            pair.0,
        ) == pair.1
    } by {
        assert(post.chain(id)[k] == pre.chain(id)[k]);
        crate::store::lemma_chain_revision(post, id, k);
    }
}

} // verus!
