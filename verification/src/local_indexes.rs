//! Bidirectional edge maintenance within one storage domain.
//!
//! Edges between records are created in reciprocal pairs (a forward tag and a
//! reverse tag) so a relationship can be traversed from either endpoint. The
//! operations here are diff-based and idempotent: re-creating an existing
//! edge changes nothing, and `update_index` converges the destination set
//! under a (source, tag) pair to the desired state, touching only the edges
//! it has to.

use vstd::prelude::*;

use crate::errors::RecordError;
use crate::graph::{
    add_pair_edges, all_resolve, clear_tag, edge_back, edge_between, edges_from, push_missing,
    remove_pair_edges, resolved_ids, retained_in, targets_from, without, Edge, EdgeModel,
};
use crate::graph::lemma_targets_from_prefix;
use crate::identity::{anchor_for, identity_anchor, AnchorAddress, AnchorModel, IdentityAddress};
use crate::identity::RevisionAddress;
use crate::record_interface::Duplicable;
use crate::store::{
    lemma_index_of_is, records_unchanged, slot_chain, store_unchanged, typed_ids_of, RecordSlot,
    Store,
};

verus! {

/// Whether the vector holds this identity.
pub(crate) fn contains_id(v: &Vec<IdentityAddress>, id: IdentityAddress) -> (r: bool)
    ensures
        r == v@.contains(id),
{
    let n = v.len();
    let mut i: usize = 0;
    while i < n
        invariant
            n == v@.len(),
            i <= n,
            forall|j: int| 0 <= j < i ==> v@[j] != id,
        decreases n - i,
    {
        if v[i] == id {
            return true;
        }
        i = i + 1;
    }
    proof {
        if v@.contains(id) {
            let j = choose|j: int| 0 <= j < v@.len() && v@[j] == id;
            assert(v@[j] != id);
        }
    }
    false
}

/// Creates a bidirectional link between two records: the forward edge from
/// the source's anchor under `link_tag`, and the reciprocal edge from the
/// destination's anchor under `link_tag_reciprocal`. Each half is created as
/// an independent operation and reported separately; within one domain
/// neither can fail, and re-creating an existing half changes nothing.
pub fn create_index<T>(
    store: &mut Store<T>,
    source_entry_type: &String,
    source: IdentityAddress,
    dest_entry_type: &String,
    dest: IdentityAddress,
    link_tag: &String,
    link_tag_reciprocal: &String,
) -> (r: Vec<Result<Edge, RecordError>>)
    requires
        old(store).wf(),
    ensures
        final(store).wf(),
        records_unchanged(*old(store), *final(store)),
        final(store).graph() == push_missing(
            push_missing(
                old(store).graph(),
                edge_between(source_entry_type@, source, link_tag@, dest_entry_type@, dest),
            ),
            edge_back(source_entry_type@, source, link_tag_reciprocal@, dest_entry_type@, dest),
        ),
        r@.len() == 2,
        r@[0] matches Ok(e) && e@ == edge_between(
            source_entry_type@,
            source,
            link_tag@,
            dest_entry_type@,
            dest,
        ),
        r@[1] matches Ok(e) && e@ == edge_back(
            source_entry_type@,
            source,
            link_tag_reciprocal@,
            dest_entry_type@,
            dest,
        ),
{
    let forward = Edge {
        source: anchor_for(source_entry_type, source),
        tag: link_tag.clone(),
        target: anchor_for(dest_entry_type, dest),
    };
    let reciprocal = Edge {
        source: anchor_for(dest_entry_type, dest),
        tag: link_tag_reciprocal.clone(),
        target: anchor_for(source_entry_type, source),
    };
    let forward_result = forward.clone();
    let reciprocal_result = reciprocal.clone();
    store.push_edge(forward);
    store.push_edge(reciprocal);
    let mut r: Vec<Result<Edge, RecordError>> = Vec::new();
    r.push(Ok(forward_result));
    r.push(Ok(reciprocal_result));
    r
}

/// Writes one raw link between two anchors, as any peer with write access to
/// the shared store may. The target is not checked: a link whose target does
/// not resolve to a record identity is exactly what `read_index` reports as
/// a `LinkIntegrityError`.
pub fn create_link<T>(
    store: &mut Store<T>,
    source: &AnchorAddress,
    link_tag: &String,
    target: &AnchorAddress,
)
    requires
        old(store).wf(),
    ensures
        final(store).wf(),
        records_unchanged(*old(store), *final(store)),
        final(store).graph() == push_missing(
            old(store).graph(),
            EdgeModel { source: source@, tag: link_tag@, target: target@ },
        ),
{
    store.push_edge(
        Edge { source: source.clone(), tag: link_tag.clone(), target: target.clone() },
    );
}

/// Reads the identities referenced by the index at
/// (`base_entry_type`.`base_address`, `link_tag`), in edge creation order,
/// without loading the records themselves. Fails `LinkIntegrityError` when
/// any referenced link target does not resolve to a record identity.
pub fn read_index<T>(
    store: &Store<T>,
    base_entry_type: &String,
    base_address: IdentityAddress,
    link_tag: &String,
) -> (r: Result<Vec<IdentityAddress>, RecordError>)
    requires
        store.wf(),
    ensures
        ({
            let ts = targets_from(
                store.graph(),
                identity_anchor(base_entry_type@, base_address),
                link_tag@,
            );
            match r {
                Ok(ids) => all_resolve(ts) && ids@ == resolved_ids(ts),
                Err(RecordError::LinkIntegrityError) => !all_resolve(ts),
                Err(_) => false,
            }
        }),
{
    let base = anchor_for(base_entry_type, base_address);
    let ghost g = store.graph();
    let ghost src = base@;
    let n = store.edges.len();
    let mut out: Vec<IdentityAddress> = Vec::new();
    proof {
        assert(g.subrange(0, 0) =~= Seq::<EdgeModel>::empty());
        assert(out@ =~= resolved_ids(targets_from(g.subrange(0, 0), src, link_tag@)));
    }
    let mut i: usize = 0;
    while i < n
        invariant
            n == store.edges@.len(),
            i <= n,
            store.wf(),
            g == store.graph(),
            src == base@,
            src == identity_anchor(base_entry_type@, base_address),
            all_resolve(targets_from(g.subrange(0, i as int), src, link_tag@)),
            out@ == resolved_ids(targets_from(g.subrange(0, i as int), src, link_tag@)),
        decreases n - i,
    {
        let ghost pre = g.subrange(0, i as int);
        let ghost cur = g.subrange(0, i as int + 1);
        proof {
            assert(cur.drop_last() =~= pre);
            assert(cur.last() == g[i as int]);
        }
        let edge_matches = store.edges[i].source.matches(&base) && store.edges[i].tag == *link_tag;
        if edge_matches {
            proof {
                assert(g[i as int].source == src && g[i as int].tag == link_tag@);
                assert(targets_from(cur, src, link_tag@) == targets_from(pre, src, link_tag@).push(
                    g[i as int].target,
                ));
            }
            match store.edges[i].target.base {
                Some(id) => {
                    out.push(id);
                    proof {
                        assert(g[i as int].target.base == Some(id));
                        assert(out@ =~= resolved_ids(targets_from(cur, src, link_tag@)));
                    }
                },
                None => {
                    proof {
                        let ts_cur = targets_from(cur, src, link_tag@);
                        let bad = ts_cur.len() - 1;
                        assert(ts_cur[bad].base is None);
                        lemma_targets_from_prefix(g, src, link_tag@, i as int + 1);
                        let ts = targets_from(g, src, link_tag@);
                        assert(ts[bad] == ts_cur[bad]);
                        assert(!all_resolve(ts));
                    }
                    return Err(RecordError::LinkIntegrityError);
                },
            }
        } else {
            proof {
                assert(!(g[i as int].source == src && g[i as int].tag == link_tag@));
                assert(targets_from(cur, src, link_tag@) == targets_from(pre, src, link_tag@));
            }
        }
        i = i + 1;
    }
    proof {
        assert(g.subrange(0, n as int) =~= g);
    }
    Ok(out)
}

/// Deletes every edge leaving the source's anchor under `link_tag` and every
/// edge leaving the destination's anchor under `link_tag_reciprocal`. The
/// deletion is deliberately tag-scoped, not edge-scoped: it clears the whole
/// tag on both endpoints, not just the pair between them, and reports one
/// result per removed edge.
pub fn delete_index<T>(
    store: &mut Store<T>,
    source_entry_type: &String,
    source: IdentityAddress,
    dest_entry_type: &String,
    dest: IdentityAddress,
    link_tag: &String,
    link_tag_reciprocal: &String,
) -> (r: Vec<Result<Edge, RecordError>>)
    requires
        old(store).wf(),
    ensures
        final(store).wf(),
        records_unchanged(*old(store), *final(store)),
        ({
            let g0 = old(store).graph();
            let src = identity_anchor(source_entry_type@, source);
            let dst = identity_anchor(dest_entry_type@, dest);
            let g1 = clear_tag(g0, src, link_tag@);
            let removed_fwd = edges_from(g0, src, link_tag@);
            let removed_rev = edges_from(g1, dst, link_tag_reciprocal@);
            &&& final(store).graph() == clear_tag(g1, dst, link_tag_reciprocal@)
            &&& r@.len() == removed_fwd.len() + removed_rev.len()
            &&& (forall|i: int|
                #![trigger removed_fwd[i]]
                0 <= i < removed_fwd.len() ==> (r@[i] matches Ok(e) && e@ == removed_fwd[i]))
            &&& (forall|i: int|
                #![trigger r@[i]]
                removed_fwd.len() <= i < r@.len() ==> (r@[i] matches Ok(e) && e@ == removed_rev[
                    i - removed_fwd.len()
                ]))
        }),
{
    let source_anchor = anchor_for(source_entry_type, source);
    let dest_anchor = anchor_for(dest_entry_type, dest);
    let removed_fwd = store.remove_tagged(&source_anchor, link_tag);
    let removed_rev = store.remove_tagged(&dest_anchor, link_tag_reciprocal);
    let ghost fwd_models = edges_from(old(store).graph(), source_anchor@, link_tag@);
    let ghost rev_models = edges_from(
        clear_tag(old(store).graph(), source_anchor@, link_tag@),
        dest_anchor@,
        link_tag_reciprocal@,
    );
    let mut r: Vec<Result<Edge, RecordError>> = Vec::new();
    let nf = removed_fwd.len();
    let mut i: usize = 0;
    while i < nf
        invariant
            nf == removed_fwd@.len(),
            i <= nf,
            fwd_models.len() == removed_fwd@.len(),
            forall|j: int| 0 <= j < removed_fwd@.len() ==> removed_fwd@[j]@ == fwd_models[j],
            r@.len() == i,
            forall|j: int| #![trigger r@[j]] 0 <= j < i ==> (r@[j] matches Ok(e) && e@ == fwd_models[j]),
        decreases nf - i,
    {
        r.push(Ok(removed_fwd[i].clone()));
        i = i + 1;
    }
    let nr = removed_rev.len();
    let mut k: usize = 0;
    while k < nr
        invariant
            nf == removed_fwd@.len(),
            nr == removed_rev@.len(),
            k <= nr,
            fwd_models.len() == removed_fwd@.len(),
            rev_models.len() == removed_rev@.len(),
            forall|j: int| 0 <= j < removed_rev@.len() ==> removed_rev@[j]@ == rev_models[j],
            r@.len() == fwd_models.len() + k,
            forall|j: int|
                #![trigger r@[j]]
                0 <= j < fwd_models.len() ==> (r@[j] matches Ok(e) && e@ == fwd_models[j]),
            forall|j: int|
                #![trigger r@[j]]
                fwd_models.len() <= j < r@.len() ==> (r@[j] matches Ok(e) && e@ == rev_models[
                    j - fwd_models.len()
                ]),
        decreases nr - k,
    {
        r.push(Ok(removed_rev[k].clone()));
        k = k + 1;
    }
    r
}

/// Converges the index at (`source_entry_type`.`source`, `link_tag`) to a
/// desired destination set by an idempotent diff. The current destinations
/// are read first; both halves of the edge pair are then removed for every
/// current destination also named in `remove_dest_addresses`, and created
/// for every destination in `add_dest_addresses` not already current.
/// Destinations both current and requested stay untouched, and removing an
/// absent destination is a no-op. Returns one result per touched edge, in
/// order: the removal pairs, then the addition pairs. Fails
/// `LinkIntegrityError`, changing nothing, when the current index cannot be
/// read.
///
/// Convergence is checked from the source side only: for a destination
/// already current, the reciprocal half is not inspected, so a pair that was
/// left one-sided earlier stays one-sided; for a destination being added,
/// a reciprocal half that already exists is kept as it is.
pub fn update_index<T>(
    store: &mut Store<T>,
    source_entry_type: &String,
    source: IdentityAddress,
    dest_entry_type: &String,
    link_tag: &String,
    link_tag_reciprocal: &String,
    add_dest_addresses: &Vec<IdentityAddress>,
    remove_dest_addresses: &Vec<IdentityAddress>,
) -> (r: Result<Vec<Result<Edge, RecordError>>, RecordError>)
    requires
        old(store).wf(),
        add_dest_addresses@.no_duplicates(),
        remove_dest_addresses@.no_duplicates(),
    ensures
        final(store).wf(),
        records_unchanged(*old(store), *final(store)),
        ({
            let g0 = old(store).graph();
            let src = identity_anchor(source_entry_type@, source);
            let ts = targets_from(g0, src, link_tag@);
            let current = resolved_ids(ts);
            let to_remove = retained_in(current, remove_dest_addresses@);
            let to_add = without(add_dest_addresses@, current);
            match r {
                Ok(results) => {
                    &&& all_resolve(ts)
                    &&& final(store).graph() == add_pair_edges(
                        remove_pair_edges(
                            g0,
                            source_entry_type@,
                            source,
                            link_tag@,
                            dest_entry_type@,
                            link_tag_reciprocal@,
                            to_remove,
                        ),
                        source_entry_type@,
                        source,
                        link_tag@,
                        dest_entry_type@,
                        link_tag_reciprocal@,
                        to_add,
                    )
                    &&& results@.len() == 2 * to_remove.len() + 2 * to_add.len()
                    &&& (forall|m: int|
                        #![trigger to_remove[m]]
                        0 <= m < to_remove.len() ==> (results@[2 * m] matches Ok(e) && e@
                            == edge_between(
                            source_entry_type@,
                            source,
                            link_tag@,
                            dest_entry_type@,
                            to_remove[m],
                        )) && (results@[2 * m + 1] matches Ok(e) && e@ == edge_back(
                            source_entry_type@,
                            source,
                            link_tag_reciprocal@,
                            dest_entry_type@,
                            to_remove[m],
                        )))
                    &&& (forall|m: int|
                        #![trigger to_add[m]]
                        0 <= m < to_add.len() ==> (results@[2 * to_remove.len() + 2 * m] matches Ok(
                            e,
                        ) && e@ == edge_between(
                            source_entry_type@,
                            source,
                            link_tag@,
                            dest_entry_type@,
                            to_add[m],
                        )) && (results@[2 * to_remove.len() + 2 * m + 1] matches Ok(e) && e@
                            == edge_back(
                            source_entry_type@,
                            source,
                            link_tag_reciprocal@,
                            dest_entry_type@,
                            to_add[m],
                        )))
                },
                Err(RecordError::LinkIntegrityError) => {
                    &&& !all_resolve(ts)
                    &&& store_unchanged(*old(store), *final(store))
                },
                Err(_) => false,
            }
        }),
{
    let current = match read_index(store, source_entry_type, source, link_tag) {
        Ok(c) => c,
        Err(e) => {
            return Err(e);
        },
    };
    let ghost g0 = old(store).graph();
    let ghost src = identity_anchor(source_entry_type@, source);
    let ghost current_spec = resolved_ids(targets_from(g0, src, link_tag@));

    // which of the current destinations are flagged for removal
    let mut to_remove: Vec<IdentityAddress> = Vec::new();
    let nc = current.len();
    proof {
        assert(current@.subrange(0, 0) =~= Seq::<IdentityAddress>::empty());
        assert(to_remove@ =~= retained_in(current@.subrange(0, 0), remove_dest_addresses@));
    }
    let mut i: usize = 0;
    while i < nc
        invariant
            nc == current@.len(),
            i <= nc,
            to_remove@ == retained_in(current@.subrange(0, i as int), remove_dest_addresses@),
        decreases nc - i,
    {
        let ghost pre = current@.subrange(0, i as int);
        let ghost cur = current@.subrange(0, i as int + 1);
        proof {
            assert(cur.drop_last() =~= pre);
            assert(cur.last() == current@[i as int]);
        }
        if contains_id(remove_dest_addresses, current[i]) {
            to_remove.push(current[i]);
        }
        i = i + 1;
    }
    proof {
        assert(current@.subrange(0, nc as int) =~= current@);
    }

    // which of the requested additions are not already present
    let mut to_add: Vec<IdentityAddress> = Vec::new();
    let na = add_dest_addresses.len();
    proof {
        assert(add_dest_addresses@.subrange(0, 0) =~= Seq::<IdentityAddress>::empty());
        assert(to_add@ =~= without(add_dest_addresses@.subrange(0, 0), current@));
    }
    let mut k: usize = 0;
    while k < na
        invariant
            na == add_dest_addresses@.len(),
            k <= na,
            to_add@ == without(add_dest_addresses@.subrange(0, k as int), current@),
        decreases na - k,
    {
        let ghost pre = add_dest_addresses@.subrange(0, k as int);
        let ghost cur = add_dest_addresses@.subrange(0, k as int + 1);
        proof {
            assert(cur.drop_last() =~= pre);
            assert(cur.last() == add_dest_addresses@[k as int]);
        }
        if !contains_id(&current, add_dest_addresses[k]) {
            to_add.push(add_dest_addresses[k]);
        }
        k = k + 1;
    }
    proof {
        assert(add_dest_addresses@.subrange(0, na as int) =~= add_dest_addresses@);
    }

    let mut results: Vec<Result<Edge, RecordError>> = Vec::new();

    // wipe the pairs flagged for removal
    let nr = to_remove.len();
    proof {
        assert(to_remove@.subrange(0, 0) =~= Seq::<IdentityAddress>::empty());
    }
    let mut m: usize = 0;
    while m < nr
        invariant
            nr == to_remove@.len(),
            m <= nr,
            store.wf(),
            records_unchanged(*old(store), *store),
            to_remove@ == retained_in(current_spec, remove_dest_addresses@),
            g0 == old(store).graph(),
            store.graph() == remove_pair_edges(
                g0,
                source_entry_type@,
                source,
                link_tag@,
                dest_entry_type@,
                link_tag_reciprocal@,
                to_remove@.subrange(0, m as int),
            ),
            results@.len() == 2 * m,
            forall|j: int|
                #![trigger to_remove@[j]]
                0 <= j < m ==> (results@[2 * j] matches Ok(e) && e@ == edge_between(
                    source_entry_type@,
                    source,
                    link_tag@,
                    dest_entry_type@,
                    to_remove@[j],
                )) && (results@[2 * j + 1] matches Ok(e) && e@ == edge_back(
                    source_entry_type@,
                    source,
                    link_tag_reciprocal@,
                    dest_entry_type@,
                    to_remove@[j],
                )),
        decreases nr - m,
    {
        let ghost pre = to_remove@.subrange(0, m as int);
        let ghost cur = to_remove@.subrange(0, m as int + 1);
        proof {
            assert(cur.drop_last() =~= pre);
            assert(cur.last() == to_remove@[m as int]);
        }
        let d = to_remove[m];
        let forward = Edge {
            source: anchor_for(source_entry_type, source),
            tag: link_tag.clone(),
            target: anchor_for(dest_entry_type, d),
        };
        store.remove_edge(&forward);
        let reciprocal = Edge {
            source: anchor_for(dest_entry_type, d),
            tag: link_tag_reciprocal.clone(),
            target: anchor_for(source_entry_type, source),
        };
        store.remove_edge(&reciprocal);
        results.push(Ok(forward));
        results.push(Ok(reciprocal));
        m = m + 1;
    }
    proof {
        assert(to_remove@.subrange(0, nr as int) =~= to_remove@);
    }

    // create the pairs that are genuinely new
    let ghost g1 = store.graph();
    let nd = to_add.len();
    proof {
        assert(to_add@.subrange(0, 0) =~= Seq::<IdentityAddress>::empty());
    }
    let mut a: usize = 0;
    while a < nd
        invariant
            nd == to_add@.len(),
            nr == to_remove@.len(),
            a <= nd,
            store.wf(),
            records_unchanged(*old(store), *store),
            to_remove@ == retained_in(current_spec, remove_dest_addresses@),
            to_add@ == without(add_dest_addresses@, current_spec),
            g0 == old(store).graph(),
            g1 == remove_pair_edges(
                g0,
                source_entry_type@,
                source,
                link_tag@,
                dest_entry_type@,
                link_tag_reciprocal@,
                to_remove@,
            ),
            store.graph() == add_pair_edges(
                g1,
                source_entry_type@,
                source,
                link_tag@,
                dest_entry_type@,
                link_tag_reciprocal@,
                to_add@.subrange(0, a as int),
            ),
            results@.len() == 2 * nr + 2 * a,
            forall|j: int|
                #![trigger to_remove@[j]]
                0 <= j < nr ==> (results@[2 * j] matches Ok(e) && e@ == edge_between(
                    source_entry_type@,
                    source,
                    link_tag@,
                    dest_entry_type@,
                    to_remove@[j],
                )) && (results@[2 * j + 1] matches Ok(e) && e@ == edge_back(
                    source_entry_type@,
                    source,
                    link_tag_reciprocal@,
                    dest_entry_type@,
                    to_remove@[j],
                )),
            forall|j: int|
                #![trigger to_add@[j]]
                0 <= j < a ==> (results@[2 * nr + 2 * j] matches Ok(e) && e@ == edge_between(
                    source_entry_type@,
                    source,
                    link_tag@,
                    dest_entry_type@,
                    to_add@[j],
                )) && (results@[2 * nr + 2 * j + 1] matches Ok(e) && e@ == edge_back(
                    source_entry_type@,
                    source,
                    link_tag_reciprocal@,
                    dest_entry_type@,
                    to_add@[j],
                )),
        decreases nd - a,
    {
        let ghost pre = to_add@.subrange(0, a as int);
        let ghost cur = to_add@.subrange(0, a as int + 1);
        proof {
            assert(cur.drop_last() =~= pre);
            assert(cur.last() == to_add@[a as int]);
        }
        let d = to_add[a];
        let forward = Edge {
            source: anchor_for(source_entry_type, source),
            tag: link_tag.clone(),
            target: anchor_for(dest_entry_type, d),
        };
        store.push_edge(forward.clone());
        let reciprocal = Edge {
            source: anchor_for(dest_entry_type, d),
            tag: link_tag_reciprocal.clone(),
            target: anchor_for(source_entry_type, source),
        };
        store.push_edge(reciprocal.clone());
        results.push(Ok(forward));
        results.push(Ok(reciprocal));
        a = a + 1;
    }
    proof {
        assert(to_add@.subrange(0, nd as int) =~= to_add@);
    }
    Ok(results)
}

/// What dereferencing one link target yields: the target must resolve to an
/// identity, the record must exist untombstoned, and its content must decode
/// under the type the anchor names.
pub open spec fn query_item<T>(s: Store<T>, t: AnchorModel) -> Result<
    (RevisionAddress, IdentityAddress, T),
    RecordError,
> {
    match t.base {
        None => Err(RecordError::LinkIntegrityError),
        Some(id) => {
            if !s.is_live(id) {
                Err(RecordError::NotFound)
            } else if s.record_type(id) != t.entry_type {
                Err(RecordError::SerializationError)
            } else {
                Ok((s.current_revision(id), id, s.current_entry(id)))
            }
        },
    }
}

/// What reading one record during a root enumeration yields.
pub open spec fn root_item<T>(s: Store<T>, id: IdentityAddress) -> Result<
    (RevisionAddress, IdentityAddress, T),
    RecordError,
> {
    if s.is_live(id) {
        Ok((s.current_revision(id), id, s.current_entry(id)))
    } else {
        Err(RecordError::NotFound)
    }
}

/// Queries the records referenced by the index at
/// (`base_entry_type`.`base_address`, `link_tag`) in full: one result per
/// discovered link target, in edge creation order. A target that fails to
/// resolve, to load, or to decode is reported as that element's failure and
/// never aborts the rest of the query.
pub fn query_index<T: Duplicable>(
    store: &Store<T>,
    base_entry_type: &String,
    base_address: IdentityAddress,
    link_tag: &String,
) -> (r: Vec<Result<(RevisionAddress, IdentityAddress, T), RecordError>>)
    requires
        store.wf(),
    ensures
        ({
            let ts = targets_from(
                store.graph(),
                identity_anchor(base_entry_type@, base_address),
                link_tag@,
            );
            &&& r@.len() == ts.len()
            &&& (forall|i: int|
                #![trigger ts[i]]
                0 <= i < ts.len() ==> r@[i] == query_item(*store, ts[i]))
        }),
{
    let base = anchor_for(base_entry_type, base_address);
    let ghost g = store.graph();
    let ghost src = base@;
    let n = store.edges.len();
    let mut out: Vec<Result<(RevisionAddress, IdentityAddress, T), RecordError>> = Vec::new();
    proof {
        assert(g.subrange(0, 0) =~= Seq::<EdgeModel>::empty());
    }
    let mut i: usize = 0;
    while i < n
        invariant
            n == store.edges@.len(),
            i <= n,
            store.wf(),
            g == store.graph(),
            src == base@,
            src == identity_anchor(base_entry_type@, base_address),
            out@.len() == targets_from(g.subrange(0, i as int), src, link_tag@).len(),
            forall|j: int|
                #![trigger out@[j]]
                0 <= j < out@.len() ==> out@[j] == query_item(
                    *store,
                    targets_from(g.subrange(0, i as int), src, link_tag@)[j],
                ),
        decreases n - i,
    {
        let ghost pre = g.subrange(0, i as int);
        let ghost cur = g.subrange(0, i as int + 1);
        proof {
            assert(cur.drop_last() =~= pre);
            assert(cur.last() == g[i as int]);
        }
        let edge_matches = store.edges[i].source.matches(&base) && store.edges[i].tag == *link_tag;
        if edge_matches {
            proof {
                assert(g[i as int].source == src && g[i as int].tag == link_tag@);
                assert(targets_from(cur, src, link_tag@) == targets_from(pre, src, link_tag@).push(
                    g[i as int].target,
                ));
            }
            let item = match store.edges[i].target.base {
                None => Err(RecordError::LinkIntegrityError),
                Some(id) => {
                    match store.read(&store.edges[i].target.entry_type, id) {
                        Ok((rv, entry)) => Ok((rv, id, entry)),
                        Err(e) => Err(e),
                    }
                },
            };
            proof {
                assert(item == query_item(*store, g[i as int].target));
            }
            out.push(item);
        } else {
            proof {
                assert(!(g[i as int].source == src && g[i as int].tag == link_tag@));
                assert(targets_from(cur, src, link_tag@) == targets_from(pre, src, link_tag@));
            }
        }
        i = i + 1;
    }
    proof {
        assert(g.subrange(0, n as int) =~= g);
    }
    out
}

/// Enumerates every record ever created under a type's root anchor, in
/// creation order, one result per record; a tombstoned record is reported as
/// that element's `NotFound`. No pagination or sharding: callers get the
/// whole set.
pub fn query_root_index<T: Duplicable>(store: &Store<T>, base_entry_type: &String) -> (r: Vec<
    Result<(RevisionAddress, IdentityAddress, T), RecordError>,
>)
    requires
        store.wf(),
    ensures
        ({
            let ids = store.typed_ids(base_entry_type@);
            &&& r@.len() == ids.len()
            &&& (forall|i: int|
                #![trigger ids[i]]
                0 <= i < ids.len() ==> r@[i] == root_item(*store, ids[i]))
        }),
{
    let ghost rs = store.records@;
    let n = store.records.len();
    let mut out: Vec<Result<(RevisionAddress, IdentityAddress, T), RecordError>> = Vec::new();
    proof {
        assert(rs.subrange(0, 0) =~= Seq::<RecordSlot<T>>::empty());
    }
    let mut i: usize = 0;
    while i < n
        invariant
            n == store.records@.len(),
            rs == store.records@,
            i <= n,
            store.wf(),
            out@.len() == typed_ids_of(rs.subrange(0, i as int), base_entry_type@).len(),
            forall|j: int|
                #![trigger out@[j]]
                0 <= j < out@.len() ==> out@[j] == root_item(
                    *store,
                    typed_ids_of(rs.subrange(0, i as int), base_entry_type@)[j],
                ),
        decreases n - i,
    {
        let ghost pre = rs.subrange(0, i as int);
        let ghost cur = rs.subrange(0, i as int + 1);
        proof {
            assert(cur.drop_last() =~= pre);
            assert(cur.last() == rs[i as int]);
        }
        if store.records[i].entry_type == *base_entry_type {
            let id = store.records[i].identity;
            proof {
                assert(typed_ids_of(cur, base_entry_type@) == typed_ids_of(
                    pre,
                    base_entry_type@,
                ).push(id));
                lemma_index_of_is(*store, id, i as int);
            }
            let item = if store.records[i].deleted {
                Err(RecordError::NotFound)
            } else {
                let m = store.records[i].revisions.len();
                proof {
                    assert(store.records@[i as int].revisions@.len() > 0);
                }
                let rv = store.records[i].revisions[m - 1].address;
                let entry = store.records[i].revisions[m - 1].entry.duplicate();
                proof {
                    assert(store.chain(id) == slot_chain(store.records@[i as int]));
                    assert(store.chain(id).last() == (
                        rv,
                        store.records@[i as int].revisions@[m - 1].entry,
                    ));
                }
                Ok((rv, id, entry))
            };
            proof {
                assert(item == root_item(*store, id));
            }
            out.push(item);
        } else {
            proof {
                assert(typed_ids_of(cur, base_entry_type@) == typed_ids_of(pre, base_entry_type@));
            }
        }
        i = i + 1;
    }
    proof {
        assert(rs.subrange(0, n as int) =~= rs);
    }
    out
}


/// Dereferences a batch of record identities, as obtained from an index
/// read, into full records: exactly one result per input identity, in input
/// order, where an identity that fails to load is that element's failure and
/// never aborts the batch.
pub fn resolve_records<T: Duplicable>(store: &Store<T>, addresses: &Vec<IdentityAddress>) -> (r:
    Vec<Result<(RevisionAddress, IdentityAddress, T), RecordError>>)
    requires
        store.wf(),
    ensures
        r@.len() == addresses@.len(),
        forall|i: int|
            #![trigger r@[i]]
            0 <= i < addresses@.len() ==> r@[i] == root_item(*store, addresses@[i]),
{
    let n = addresses.len();
    let mut out: Vec<Result<(RevisionAddress, IdentityAddress, T), RecordError>> = Vec::new();
    let mut i: usize = 0;
    while i < n
        invariant
            n == addresses@.len(),
            i <= n,
            store.wf(),
            out@.len() == i,
            forall|j: int|
                #![trigger out@[j]]
                0 <= j < i ==> out@[j] == root_item(*store, addresses@[j]),
        decreases n - i,
    {
        let id = addresses[i];
        let item = match store.find_record_index(id) {
            None => Err(RecordError::NotFound),
            Some(idx) => {
                if store.records[idx].deleted {
                    Err(RecordError::NotFound)
                } else {
                    let m = store.records[idx].revisions.len();
                    proof {
                        assert(store.records@[idx as int].revisions@.len() > 0);
                    }
                    let rv = store.records[idx].revisions[m - 1].address;
                    let entry = store.records[idx].revisions[m - 1].entry.duplicate();
                    proof {
                        assert(store.chain(id) == slot_chain(store.records@[idx as int]));
                        assert(store.chain(id).last() == (
                            rv,
                            store.records@[idx as int].revisions@[m - 1].entry,
                        ));
                    }
                    Ok((rv, id, entry))
                }
            },
        };
        proof {
            assert(item == root_item(*store, id));
        }
        out.push(item);
        i = i + 1;
    }
    out
}

} // verus!
