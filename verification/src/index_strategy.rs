//! The per-call choice between a local and a cross-domain index operation.
//!
//! A relationship's two endpoints either share a storage domain or do not,
//! and the caller knows which at each call site. That choice is an explicit
//! tagged value handed to the operations here, not a naming convention.
//! Under `Local` both halves of the edge pair are written in this domain and
//! no request leaves it; under `Remote` the forward half is written here and
//! the returned request, delivered to the named operation of the named
//! domain, settles the reciprocal half there.

use vstd::prelude::*;

use crate::errors::RecordError;
use crate::graph::{
    add_forward_edges, add_pair_edges, all_resolve, edge_back, edge_between, push_missing,
    remove_forward_edges, remove_pair_edges, resolved_ids, retained_in, targets_from, without,
    Edge,
};
use crate::identity::{identity_anchor, IdentityAddress};
use crate::local_indexes::{create_index, update_index};
use crate::remote_indexes::{create_remote_index_via, update_remote_index_via, RemoteIndexRequest};
use crate::store::{records_unchanged, store_unchanged, Store};

verus! {

/// Where the reciprocal half of an edge pair lives: in this domain, or in a
/// remote domain behind a named operation.
pub enum IndexStrategy {
    Local,
    Remote { domain: String, operation: String },
}

/// `create_index` under an explicit strategy. With `Local`, both halves are
/// created here, as `create_index` does, and no request is returned. With
/// `Remote`, the forward half is created here, as `create_remote_index_via`
/// does, and the request for the reciprocal half is returned for delivery.
pub fn create_index_with<T>(
    store: &mut Store<T>,
    strategy: IndexStrategy,
    source_entry_type: &String,
    source: IdentityAddress,
    dest_entry_type: &String,
    dest: IdentityAddress,
    link_tag: &String,
    link_tag_reciprocal: &String,
) -> (r: (Vec<Result<Edge, RecordError>>, Option<RemoteIndexRequest>))
    requires
        old(store).wf(),
    ensures
        final(store).wf(),
        records_unchanged(*old(store), *final(store)),
        ({
            let fwd = edge_between(source_entry_type@, source, link_tag@, dest_entry_type@, dest);
            let back = edge_back(
                source_entry_type@,
                source,
                link_tag_reciprocal@,
                dest_entry_type@,
                dest,
            );
            match strategy {
                IndexStrategy::Local => {
                    &&& final(store).graph() == push_missing(
                        push_missing(old(store).graph(), fwd),
                        back,
                    )
                    &&& r.1 is None
                    &&& r.0@.len() == 2
                    &&& (r.0@[0] matches Ok(e) && e@ == fwd)
                    &&& (r.0@[1] matches Ok(e) && e@ == back)
                },
                IndexStrategy::Remote { domain, operation } => {
                    &&& final(store).graph() == push_missing(old(store).graph(), fwd)
                    &&& r.0@.len() == 1
                    &&& (r.0@[0] matches Ok(e) && e@ == fwd)
                    &&& (r.1 matches Some(req) && {
                        &&& req.domain == domain
                        &&& req.operation == operation
                        &&& req.source_entry_type@ == source_entry_type@
                        &&& req.source == source
                        &&& req.dest_entry_type@ == dest_entry_type@
                        &&& req.link_tag@ == link_tag@
                        &&& req.link_tag_reciprocal@ == link_tag_reciprocal@
                        &&& req.add_dest_addresses@ == seq![dest]
                        &&& req.remove_dest_addresses@ == Seq::<IdentityAddress>::empty()
                    })
                },
            }
        }),
{
    match strategy {
        IndexStrategy::Local => {
            let results = create_index(store, source_entry_type, source, dest_entry_type, dest,
                link_tag, link_tag_reciprocal);
            (results, None)
        },
        IndexStrategy::Remote { domain, operation } => {
            let (locals, request) = create_remote_index_via(store, domain, operation,
                source_entry_type, source, dest_entry_type, dest, link_tag, link_tag_reciprocal);
            (locals, Some(request))
        },
    }
}

/// `update_index` under an explicit strategy. With `Local`, the diff touches
/// both halves of every affected pair here, as `update_index` does, and no
/// request is returned. With `Remote`, the diff touches only the forward
/// halves, as `update_remote_index_via` does, and the request converging the
/// reciprocal halves is returned for delivery. The per-edge reports of the
/// two underlying operations carry over unchanged.
pub fn update_index_with<T>(
    store: &mut Store<T>,
    strategy: IndexStrategy,
    source_entry_type: &String,
    source: IdentityAddress,
    dest_entry_type: &String,
    link_tag: &String,
    link_tag_reciprocal: &String,
    add_dest_addresses: &Vec<IdentityAddress>,
    remove_dest_addresses: &Vec<IdentityAddress>,
) -> (r: Result<(Vec<Result<Edge, RecordError>>, Option<RemoteIndexRequest>), RecordError>)
    requires
        old(store).wf(),
        add_dest_addresses@.no_duplicates(),
        remove_dest_addresses@.no_duplicates(),
    ensures
        final(store).wf(),
        records_unchanged(*old(store), *final(store)),
        ({
            let g0 = old(store).graph();
            let src = identity_anchor(source_entry_type@, source);
            let ts = targets_from(g0, src, link_tag@);
            let current = resolved_ids(ts);
            let to_remove = retained_in(current, remove_dest_addresses@);
            let to_add = without(add_dest_addresses@, current);
            match r {
                Ok(p) => {
                    &&& all_resolve(ts)
                    &&& match strategy {
                        IndexStrategy::Local => {
                            &&& final(store).graph() == add_pair_edges(
                                remove_pair_edges(
                                    g0,
                                    source_entry_type@,
                                    source,
                                    link_tag@,
                                    dest_entry_type@,
                                    link_tag_reciprocal@,
                                    to_remove,
                                ),
                                source_entry_type@,
                                source,
                                link_tag@,
                                dest_entry_type@,
                                link_tag_reciprocal@,
                                to_add,
                            )
                            &&& p.1 is None
                            &&& p.0@.len() == 2 * to_remove.len() + 2 * to_add.len()
                            &&& (forall|j: int|
                                #![trigger p.0@[j]]
                                0 <= j < p.0@.len() ==> p.0@[j] is Ok)
                        },
                        IndexStrategy::Remote { domain, operation } => {
                            &&& final(store).graph() == add_forward_edges(
                                remove_forward_edges(
                                    g0,
                                    source_entry_type@,
                                    source,
                                    link_tag@,
                                    dest_entry_type@,
                                    to_remove,
                                ),
                                source_entry_type@,
                                source,
                                link_tag@,
                                dest_entry_type@,
                                to_add,
                            )
                            &&& p.0@.len() == to_remove.len() + to_add.len()
                            &&& (forall|j: int|
                                #![trigger p.0@[j]]
                                0 <= j < p.0@.len() ==> p.0@[j] is Ok)
                            &&& (p.1 matches Some(req) && {
                                &&& req.domain == domain
                                &&& req.operation == operation
                                &&& req.source_entry_type@ == source_entry_type@
                                &&& req.source == source
                                &&& req.dest_entry_type@ == dest_entry_type@
                                &&& req.link_tag@ == link_tag@
                                &&& req.link_tag_reciprocal@ == link_tag_reciprocal@
                                &&& req.add_dest_addresses@ == to_add
                                &&& req.remove_dest_addresses@ == to_remove
                            })
                        },
                    }
                },
                Err(RecordError::LinkIntegrityError) => !all_resolve(ts) && store_unchanged(
                    *old(store),
                    *final(store),
                ),
                Err(_) => false,
            }
        }),
{
    match strategy {
        IndexStrategy::Local => {
            match update_index(store, source_entry_type, source, dest_entry_type, link_tag,
                link_tag_reciprocal, add_dest_addresses, remove_dest_addresses) {
                Ok(results) => {
                    proof {
                        let g0 = old(store).graph();
                        let src = identity_anchor(source_entry_type@, source);
                        let current = resolved_ids(targets_from(g0, src, link_tag@));
                        let to_remove = retained_in(current, remove_dest_addresses@);
                        let to_add = without(add_dest_addresses@, current);
                        assert forall|j: int| #![trigger results@[j]]
                            0 <= j < results@.len() implies results@[j] is Ok by {
                            if j < 2 * to_remove.len() {
                                let m = j / 2;
                                assert(to_remove[m] == to_remove[m]);
                                assert(j == 2 * m || j == 2 * m + 1);
                                assert(results@[2 * m] matches Ok(e) && e@ == edge_between(
                                    source_entry_type@,
                                    source,
                                    link_tag@,
                                    dest_entry_type@,
                                    to_remove[m],
                                ));
                                assert(results@[2 * m + 1] matches Ok(e) && e@ == edge_back(
                                    source_entry_type@,
                                    source,
                                    link_tag_reciprocal@,
                                    dest_entry_type@,
                                    to_remove[m],
                                ));
                            } else {
                                let m = (j - 2 * to_remove.len()) / 2;
                                assert(to_add[m] == to_add[m]);
                                assert(j == 2 * to_remove.len() + 2 * m || j == 2 * to_remove.len()
                                    + 2 * m + 1);
                                assert(results@[2 * to_remove.len() + 2 * m] matches Ok(e) && e@
                                    == edge_between(
                                    source_entry_type@,
                                    source,
                                    link_tag@,
                                    dest_entry_type@,
                                    to_add[m],
                                ));
                                assert(results@[2 * to_remove.len() + 2 * m + 1] matches Ok(e)
                                    && e@ == edge_back(
                                    source_entry_type@,
                                    source,
                                    link_tag_reciprocal@,
                                    dest_entry_type@,
                                    to_add[m],
                                ));
                            }
                        }
                    }
                    Ok((results, None))
                },
                Err(e) => Err(e),
            }
        },
        IndexStrategy::Remote { domain, operation } => {
            match update_remote_index_via(store, domain, operation, source_entry_type, source,
                dest_entry_type, link_tag, link_tag_reciprocal, add_dest_addresses,
                remove_dest_addresses) {
                Ok((locals, request)) => {
                    proof {
                        let g0 = old(store).graph();
                        let src = identity_anchor(source_entry_type@, source);
                        let current = resolved_ids(targets_from(g0, src, link_tag@));
                        let to_remove = retained_in(current, remove_dest_addresses@);
                        assert forall|j: int| #![trigger locals@[j]]
                            0 <= j < locals@.len() implies locals@[j] is Ok by {
                            if j < to_remove.len() {
                                assert(to_remove[j] == to_remove[j]);
                                assert(locals@[j] matches Ok(e) && e@ == edge_between(
                                    source_entry_type@,
                                    source,
                                    link_tag@,
                                    dest_entry_type@,
                                    to_remove[j],
                                ));
                            }
                        }
                    }
                    Ok((locals, Some(request)))
                },
                Err(e) => Err(e),
            }
        },
    }
}

} // verus!
