//! Edge maintenance across storage domains.
//!
//! When the two endpoints of a relationship live in different storage
//! domains, only the forward half can be written locally. The reciprocal
//! half is requested from the remote domain by a named operation, looked up
//! at call time in a caller-supplied configuration keyed by relationship
//! name. The origin functions here mutate the local store and hand back the
//! request to deliver; `handle_remote_index_request` is the destination
//! domain's side; `merge_remote_results` folds the delivery outcome into the
//! per-edge report. A failed delivery never rolls the local half back: it is
//! reported as one distinguishable per-edge error, so the one-sided state
//! stays visible and repairable.

use vstd::prelude::*;

use crate::errors::RecordError;
use crate::graph::{
    add_forward_edges, add_reciprocal_edges, all_resolve, edge_back, edge_between,
    push_missing, remove_forward_edges, remove_reciprocal_edges, resolved_ids, retained_in,
    targets_from, without, Edge,
};
use crate::identity::{anchor_for, identity_anchor, IdentityAddress};
use crate::local_indexes::read_index;
use crate::store::{records_unchanged, store_unchanged, Store};

verus! {

/// One entry of the remote index configuration: which domain, and which
/// operation on it, maintains the reciprocal half of a relationship.
pub struct RemoteIndexRoute {
    pub relationship: String,
    pub domain: String,
    pub operation: String,
}

/// The caller-supplied mapping from relationship name to (remote domain,
/// operation name), resolved once per call rather than compiled in.
pub struct RemoteIndexConfig {
    pub routes: Vec<RemoteIndexRoute>,
}

/// The (domain, operation) the configuration names for a relationship: the
/// first matching entry wins.
pub open spec fn route_for(routes: Seq<RemoteIndexRoute>, relationship: Seq<char>) -> Option<
    (Seq<char>, Seq<char>),
>
    decreases routes.len(),
{
    if routes.len() == 0 {
        None
    } else if routes.first().relationship@ == relationship {
        Some((routes.first().domain@, routes.first().operation@))
    } else {
        route_for(routes.drop_first(), relationship)
    }
}

/// Looks a relationship up in the configuration.
pub fn resolve_route(config: &RemoteIndexConfig, relationship: &String) -> (r: Option<
    (String, String),
>)
    ensures
        match r {
            Some(p) => route_for(config.routes@, relationship@) == Some((p.0@, p.1@)),
            None => route_for(config.routes@, relationship@) is None,
        },
{
    let ghost routes = config.routes@;
    let n = config.routes.len();
    let mut i: usize = 0;
    proof {
        assert(routes.subrange(0, routes.len() as int) =~= routes);
    }
    while i < n
        invariant
            n == config.routes@.len(),
            i <= n,
            routes == config.routes@,
            route_for(routes, relationship@) == route_for(
                routes.subrange(i as int, routes.len() as int),
                relationship@,
            ),
        decreases n - i,
    {
        let ghost rest = routes.subrange(i as int, routes.len() as int);
        proof {
            assert(rest.first() == routes[i as int]);
            assert(rest.drop_first() =~= routes.subrange(i as int + 1, routes.len() as int));
        }
        if config.routes[i].relationship == *relationship {
            let found = &config.routes[i];
            return Some((found.domain.clone(), found.operation.clone()));
        }
        i = i + 1;
    }
    None
}

/// A request for the reciprocal half of an index operation, to be delivered
/// to the named operation of the named remote domain: create the reciprocal
/// edge for every identity in `add_dest_addresses`, and remove it for every
/// identity in `remove_dest_addresses`.
pub struct RemoteIndexRequest {
    pub domain: String,
    pub operation: String,
    pub source_entry_type: String,
    pub source: IdentityAddress,
    pub dest_entry_type: String,
    pub link_tag: String,
    pub link_tag_reciprocal: String,
    pub add_dest_addresses: Vec<IdentityAddress>,
    pub remove_dest_addresses: Vec<IdentityAddress>,
}

/// Origin half of a cross-domain `create_index` whose route is already
/// known: writes the forward edge into the local store, durable immediately,
/// and returns the local per-edge results together with the request whose
/// delivery creates the reciprocal edge in the remote domain. Never fails
/// locally.
pub fn create_remote_index_via<T>(
    store: &mut Store<T>,
    domain: String,
    operation: String,
    source_entry_type: &String,
    source: IdentityAddress,
    dest_entry_type: &String,
    dest: IdentityAddress,
    link_tag: &String,
    link_tag_reciprocal: &String,
) -> (r: (Vec<Result<Edge, RecordError>>, RemoteIndexRequest))
    requires
        old(store).wf(),
    ensures
        final(store).wf(),
        records_unchanged(*old(store), *final(store)),
        r.1.domain == domain,
        r.1.operation == operation,
        r.1.source_entry_type@ == source_entry_type@,
        r.1.source == source,
        r.1.dest_entry_type@ == dest_entry_type@,
        r.1.link_tag@ == link_tag@,
        r.1.link_tag_reciprocal@ == link_tag_reciprocal@,
        r.1.add_dest_addresses@ == seq![dest],
        r.1.remove_dest_addresses@ == Seq::<IdentityAddress>::empty(),
        final(store).graph() == push_missing(
            old(store).graph(),
            edge_between(source_entry_type@, source, link_tag@, dest_entry_type@, dest),
        ),
        r.0@.len() == 1,
        r.0@[0] matches Ok(e) && e@ == edge_between(
            source_entry_type@,
            source,
            link_tag@,
            dest_entry_type@,
            dest,
        ),
{
    let forward = Edge {
        source: anchor_for(source_entry_type, source),
        tag: link_tag.clone(),
        target: anchor_for(dest_entry_type, dest),
    };
    let forward_result = forward.clone();
    store.push_edge(forward);
    let mut locals: Vec<Result<Edge, RecordError>> = Vec::new();
    locals.push(Ok(forward_result));
    let mut add_list: Vec<IdentityAddress> = Vec::new();
    add_list.push(dest);
    proof {
        assert(add_list@ =~= seq![dest]);
    }
    let remove_list: Vec<IdentityAddress> = Vec::new();
    proof {
        assert(remove_list@ =~= Seq::<IdentityAddress>::empty());
    }
    let request = RemoteIndexRequest {
        domain,
        operation,
        source_entry_type: source_entry_type.clone(),
        source,
        dest_entry_type: dest_entry_type.clone(),
        link_tag: link_tag.clone(),
        link_tag_reciprocal: link_tag_reciprocal.clone(),
        add_dest_addresses: add_list,
        remove_dest_addresses: remove_list,
    };
    (locals, request)
}

/// Origin half of a cross-domain `create_index`: resolves the relationship
/// in the configuration, writes the forward edge into the local store, and
/// returns the local per-edge results together with the request whose
/// delivery creates the reciprocal edge in the remote domain. Fails
/// `RemoteCallError`, changing nothing, when the configuration names no
/// route for the relationship.
pub fn create_remote_index<T>(
    store: &mut Store<T>,
    config: &RemoteIndexConfig,
    relationship: &String,
    source_entry_type: &String,
    source: IdentityAddress,
    dest_entry_type: &String,
    dest: IdentityAddress,
    link_tag: &String,
    link_tag_reciprocal: &String,
) -> (r: Result<(Vec<Result<Edge, RecordError>>, RemoteIndexRequest), RecordError>)
    requires
        old(store).wf(),
    ensures
        final(store).wf(),
        records_unchanged(*old(store), *final(store)),
        match r {
            Ok(p) => {
                &&& route_for(config.routes@, relationship@) == Some(
                    (p.1.domain@, p.1.operation@),
                )
                &&& p.1.source_entry_type@ == source_entry_type@
                &&& p.1.source == source
                &&& p.1.dest_entry_type@ == dest_entry_type@
                &&& p.1.link_tag@ == link_tag@
                &&& p.1.link_tag_reciprocal@ == link_tag_reciprocal@
                &&& p.1.add_dest_addresses@ == seq![dest]
                &&& p.1.remove_dest_addresses@ == Seq::<IdentityAddress>::empty()
                &&& final(store).graph() == push_missing(
                    old(store).graph(),
                    edge_between(source_entry_type@, source, link_tag@, dest_entry_type@, dest),
                )
                &&& p.0@.len() == 1
                &&& (p.0@[0] matches Ok(e) && e@ == edge_between(
                    source_entry_type@,
                    source,
                    link_tag@,
                    dest_entry_type@,
                    dest,
                ))
            },
            Err(RecordError::RemoteCallError) => route_for(config.routes@, relationship@) is None
                && store_unchanged(*old(store), *final(store)),
            Err(_) => false,
        },
{
    match resolve_route(config, relationship) {
        None => Err(RecordError::RemoteCallError),
        Some((domain, operation)) => Ok(
            create_remote_index_via(store, domain, operation, source_entry_type, source,
                dest_entry_type, dest, link_tag, link_tag_reciprocal),
        ),
    }
}

/// Origin half of a cross-domain `update_index` whose route is already
/// known: diffs the local forward index exactly as `update_index` does, but
/// touches only forward edges, and returns the request whose delivery
/// converges the reciprocal edges in the remote domain. Fails
/// `LinkIntegrityError`, changing nothing, when the current index cannot be
/// read.
pub fn update_remote_index_via<T>(
    store: &mut Store<T>,
    domain: String,
    operation: String,
    source_entry_type: &String,
    source: IdentityAddress,
    dest_entry_type: &String,
    link_tag: &String,
    link_tag_reciprocal: &String,
    add_dest_addresses: &Vec<IdentityAddress>,
    remove_dest_addresses: &Vec<IdentityAddress>,
) -> (r: Result<(Vec<Result<Edge, RecordError>>, RemoteIndexRequest), RecordError>)
    requires
        old(store).wf(),
        add_dest_addresses@.no_duplicates(),
        remove_dest_addresses@.no_duplicates(),
    ensures
        final(store).wf(),
        records_unchanged(*old(store), *final(store)),
        ({
            let g0 = old(store).graph();
            let src = identity_anchor(source_entry_type@, source);
            let ts = targets_from(g0, src, link_tag@);
            let current = resolved_ids(ts);
            let to_remove = retained_in(current, remove_dest_addresses@);
            let to_add = without(add_dest_addresses@, current);
            match r {
                Ok(p) => {
                    &&& p.1.domain == domain
                    &&& p.1.operation == operation
                    &&& all_resolve(ts)
                    &&& p.1.source_entry_type@ == source_entry_type@
                    &&& p.1.source == source
                    &&& p.1.dest_entry_type@ == dest_entry_type@
                    &&& p.1.link_tag@ == link_tag@
                    &&& p.1.link_tag_reciprocal@ == link_tag_reciprocal@
                    &&& p.1.add_dest_addresses@ == to_add
                    &&& p.1.remove_dest_addresses@ == to_remove
                    &&& final(store).graph() == add_forward_edges(
                        remove_forward_edges(
                            g0,
                            source_entry_type@,
                            source,
                            link_tag@,
                            dest_entry_type@,
                            to_remove,
                        ),
                        source_entry_type@,
                        source,
                        link_tag@,
                        dest_entry_type@,
                        to_add,
                    )
                    &&& p.0@.len() == to_remove.len() + to_add.len()
                    &&& (forall|j: int|
                        #![trigger to_remove[j]]
                        0 <= j < to_remove.len() ==> (p.0@[j] matches Ok(e) && e@ == edge_between(
                            source_entry_type@,
                            source,
                            link_tag@,
                            dest_entry_type@,
                            to_remove[j],
                        )))
                    &&& (forall|j: int|
                        #![trigger p.0@[j]]
                        to_remove.len() <= j < p.0@.len() ==> (p.0@[j] matches Ok(e) && e@
                            == edge_between(
                            source_entry_type@,
                            source,
                            link_tag@,
                            dest_entry_type@,
                            to_add[j - to_remove.len()],
                        )))
                },
                Err(RecordError::LinkIntegrityError) => {
                    &&& !all_resolve(ts)
                    &&& store_unchanged(*old(store), *final(store))
                },
                Err(_) => false,
            }
        }),
{
    let current = match read_index(store, source_entry_type, source, link_tag) {
        Ok(c) => c,
        Err(e) => {
            return Err(e);
        },
    };
    let ghost g0 = old(store).graph();
    let ghost src = identity_anchor(source_entry_type@, source);
    let ghost current_spec = resolved_ids(targets_from(g0, src, link_tag@));

    let mut to_remove: Vec<IdentityAddress> = Vec::new();
    let nc = current.len();
    proof {
        assert(current@.subrange(0, 0) =~= Seq::<IdentityAddress>::empty());
        assert(to_remove@ =~= retained_in(current@.subrange(0, 0), remove_dest_addresses@));
    }
    let mut i: usize = 0;
    while i < nc
        invariant
            nc == current@.len(),
            i <= nc,
            to_remove@ == retained_in(current@.subrange(0, i as int), remove_dest_addresses@),
        decreases nc - i,
    {
        let ghost pre = current@.subrange(0, i as int);
        let ghost cur = current@.subrange(0, i as int + 1);
        proof {
            assert(cur.drop_last() =~= pre);
            assert(cur.last() == current@[i as int]);
        }
        if crate::local_indexes::contains_id(remove_dest_addresses, current[i]) {
            to_remove.push(current[i]);
        }
        i = i + 1;
    }
    proof {
        assert(current@.subrange(0, nc as int) =~= current@);
    }

    let mut to_add: Vec<IdentityAddress> = Vec::new();
    let na = add_dest_addresses.len();
    proof {
        assert(add_dest_addresses@.subrange(0, 0) =~= Seq::<IdentityAddress>::empty());
        assert(to_add@ =~= without(add_dest_addresses@.subrange(0, 0), current@));
    }
    let mut k: usize = 0;
    while k < na
        invariant
            na == add_dest_addresses@.len(),
            k <= na,
            to_add@ == without(add_dest_addresses@.subrange(0, k as int), current@),
        decreases na - k,
    {
        let ghost pre = add_dest_addresses@.subrange(0, k as int);
        let ghost cur = add_dest_addresses@.subrange(0, k as int + 1);
        proof {
            assert(cur.drop_last() =~= pre);
            assert(cur.last() == add_dest_addresses@[k as int]);
        }
        if !crate::local_indexes::contains_id(&current, add_dest_addresses[k]) {
            to_add.push(add_dest_addresses[k]);
        }
        k = k + 1;
    }
    proof {
        assert(add_dest_addresses@.subrange(0, na as int) =~= add_dest_addresses@);
    }

    let mut results: Vec<Result<Edge, RecordError>> = Vec::new();
    let nr = to_remove.len();
    proof {
        assert(to_remove@.subrange(0, 0) =~= Seq::<IdentityAddress>::empty());
    }
    let mut m: usize = 0;
    while m < nr
        invariant
            nr == to_remove@.len(),
            m <= nr,
            store.wf(),
            records_unchanged(*old(store), *store),
            to_remove@ == retained_in(current_spec, remove_dest_addresses@),
            g0 == old(store).graph(),
            store.graph() == remove_forward_edges(
                g0,
                source_entry_type@,
                source,
                link_tag@,
                dest_entry_type@,
                to_remove@.subrange(0, m as int),
            ),
            results@.len() == m,
            forall|j: int|
                #![trigger to_remove@[j]]
                0 <= j < m ==> (results@[j] matches Ok(e) && e@ == edge_between(
                    source_entry_type@,
                    source,
                    link_tag@,
                    dest_entry_type@,
                    to_remove@[j],
                )),
        decreases nr - m,
    {
        let ghost pre = to_remove@.subrange(0, m as int);
        let ghost cur = to_remove@.subrange(0, m as int + 1);
        proof {
            assert(cur.drop_last() =~= pre);
            assert(cur.last() == to_remove@[m as int]);
        }
        let d = to_remove[m];
        let forward = Edge {
            source: anchor_for(source_entry_type, source),
            tag: link_tag.clone(),
            target: anchor_for(dest_entry_type, d),
        };
        store.remove_edge(&forward);
        results.push(Ok(forward));
        m = m + 1;
    }
    proof {
        assert(to_remove@.subrange(0, nr as int) =~= to_remove@);
    }

    let ghost g1 = store.graph();
    let nd = to_add.len();
    proof {
        assert(to_add@.subrange(0, 0) =~= Seq::<IdentityAddress>::empty());
    }
    let mut a: usize = 0;
    while a < nd
        invariant
            nd == to_add@.len(),
            nr == to_remove@.len(),
            a <= nd,
            store.wf(),
            records_unchanged(*old(store), *store),
            to_remove@ == retained_in(current_spec, remove_dest_addresses@),
            to_add@ == without(add_dest_addresses@, current_spec),
            g0 == old(store).graph(),
            g1 == remove_forward_edges(
                g0,
                source_entry_type@,
                source,
                link_tag@,
                dest_entry_type@,
                to_remove@,
            ),
            store.graph() == add_forward_edges(
                g1,
                source_entry_type@,
                source,
                link_tag@,
                dest_entry_type@,
                to_add@.subrange(0, a as int),
            ),
            results@.len() == nr + a,
            forall|j: int|
                #![trigger to_remove@[j]]
                0 <= j < nr ==> (results@[j] matches Ok(e) && e@ == edge_between(
                    source_entry_type@,
                    source,
                    link_tag@,
                    dest_entry_type@,
                    to_remove@[j],
                )),
            forall|j: int|
                #![trigger results@[j]]
                nr <= j < results@.len() ==> (results@[j] matches Ok(e) && e@ == edge_between(
                    source_entry_type@,
                    source,
                    link_tag@,
                    dest_entry_type@,
                    to_add@[j - nr],
                )),
        decreases nd - a,
    {
        let ghost pre = to_add@.subrange(0, a as int);
        let ghost cur = to_add@.subrange(0, a as int + 1);
        proof {
            assert(cur.drop_last() =~= pre);
            assert(cur.last() == to_add@[a as int]);
        }
        let d = to_add[a];
        let forward = Edge {
            source: anchor_for(source_entry_type, source),
            tag: link_tag.clone(),
            target: anchor_for(dest_entry_type, d),
        };
        store.push_edge(forward.clone());
        results.push(Ok(forward));
        a = a + 1;
    }
    proof {
        assert(to_add@.subrange(0, nd as int) =~= to_add@);
    }

    let request = RemoteIndexRequest {
        domain,
        operation,
        source_entry_type: source_entry_type.clone(),
        source,
        dest_entry_type: dest_entry_type.clone(),
        link_tag: link_tag.clone(),
        link_tag_reciprocal: link_tag_reciprocal.clone(),
        add_dest_addresses: to_add,
        remove_dest_addresses: to_remove,
    };
    Ok((results, request))
}

/// Origin half of a cross-domain `update_index`: resolves the relationship
/// in the configuration, diffs the local forward index, and returns the
/// request whose delivery converges the reciprocal edges in the remote
/// domain. Fails `RemoteCallError` when the configuration names no route,
/// and `LinkIntegrityError` when the current index cannot be read; in both
/// cases the store is unchanged.
pub fn update_remote_index<T>(
    store: &mut Store<T>,
    config: &RemoteIndexConfig,
    relationship: &String,
    source_entry_type: &String,
    source: IdentityAddress,
    dest_entry_type: &String,
    link_tag: &String,
    link_tag_reciprocal: &String,
    add_dest_addresses: &Vec<IdentityAddress>,
    remove_dest_addresses: &Vec<IdentityAddress>,
) -> (r: Result<(Vec<Result<Edge, RecordError>>, RemoteIndexRequest), RecordError>)
    requires
        old(store).wf(),
        add_dest_addresses@.no_duplicates(),
        remove_dest_addresses@.no_duplicates(),
    ensures
        final(store).wf(),
        records_unchanged(*old(store), *final(store)),
        ({
            let g0 = old(store).graph();
            let src = identity_anchor(source_entry_type@, source);
            let ts = targets_from(g0, src, link_tag@);
            let current = resolved_ids(ts);
            let to_remove = retained_in(current, remove_dest_addresses@);
            let to_add = without(add_dest_addresses@, current);
            match r {
                Ok(p) => {
                    &&& route_for(config.routes@, relationship@) == Some(
                        (p.1.domain@, p.1.operation@),
                    )
                    &&& all_resolve(ts)
                    &&& p.1.source_entry_type@ == source_entry_type@
                    &&& p.1.source == source
                    &&& p.1.dest_entry_type@ == dest_entry_type@
                    &&& p.1.link_tag@ == link_tag@
                    &&& p.1.link_tag_reciprocal@ == link_tag_reciprocal@
                    &&& p.1.add_dest_addresses@ == to_add
                    &&& p.1.remove_dest_addresses@ == to_remove
                    &&& final(store).graph() == add_forward_edges(
                        remove_forward_edges(
                            g0,
                            source_entry_type@,
                            source,
                            link_tag@,
                            dest_entry_type@,
                            to_remove,
                        ),
                        source_entry_type@,
                        source,
                        link_tag@,
                        dest_entry_type@,
                        to_add,
                    )
                    &&& p.0@.len() == to_remove.len() + to_add.len()
                    &&& (forall|j: int|
                        #![trigger to_remove[j]]
                        0 <= j < to_remove.len() ==> (p.0@[j] matches Ok(e) && e@ == edge_between(
                            source_entry_type@,
                            source,
                            link_tag@,
                            dest_entry_type@,
                            to_remove[j],
                        )))
                    &&& (forall|j: int|
                        #![trigger p.0@[j]]
                        to_remove.len() <= j < p.0@.len() ==> (p.0@[j] matches Ok(e) && e@
                            == edge_between(
                            source_entry_type@,
                            source,
                            link_tag@,
                            dest_entry_type@,
                            to_add[j - to_remove.len()],
                        )))
                },
                Err(RecordError::RemoteCallError) => route_for(config.routes@, relationship@)
                    is None && store_unchanged(*old(store), *final(store)),
                Err(RecordError::LinkIntegrityError) => {
                    &&& route_for(config.routes@, relationship@) is Some
                    &&& !all_resolve(ts)
                    &&& store_unchanged(*old(store), *final(store))
                },
                Err(_) => false,
            }
        }),
{
    match resolve_route(config, relationship) {
        None => Err(RecordError::RemoteCallError),
        Some((domain, operation)) => update_remote_index_via(store, domain, operation,
            source_entry_type, source, dest_entry_type, link_tag, link_tag_reciprocal,
            add_dest_addresses, remove_dest_addresses),
    }
}

/// Destination half of a cross-domain index operation: applies, in this
/// domain's store, the reciprocal edges a delivered request asks for —
/// removals first, then creations — and reports one result per edge. Within
/// the domain neither can fail.
pub fn handle_remote_index_request<T>(store: &mut Store<T>, request: &RemoteIndexRequest) -> (r:
    Vec<Result<Edge, RecordError>>)
    requires
        old(store).wf(),
    ensures
        final(store).wf(),
        records_unchanged(*old(store), *final(store)),
        ({
            let g0 = old(store).graph();
            let removes = request.remove_dest_addresses@;
            let adds = request.add_dest_addresses@;
            let g1 = remove_reciprocal_edges(
                g0,
                request.source_entry_type@,
                request.source,
                request.link_tag_reciprocal@,
                request.dest_entry_type@,
                removes,
            );
            &&& final(store).graph() == add_reciprocal_edges(
                g1,
                request.source_entry_type@,
                request.source,
                request.link_tag_reciprocal@,
                request.dest_entry_type@,
                adds,
            )
            &&& r@.len() == removes.len() + adds.len()
            &&& (forall|j: int|
                #![trigger removes[j]]
                0 <= j < removes.len() ==> (r@[j] matches Ok(e) && e@ == edge_back(
                    request.source_entry_type@,
                    request.source,
                    request.link_tag_reciprocal@,
                    request.dest_entry_type@,
                    removes[j],
                )))
            &&& (forall|j: int|
                #![trigger r@[j]]
                removes.len() <= j < r@.len() ==> (r@[j] matches Ok(e) && e@ == edge_back(
                    request.source_entry_type@,
                    request.source,
                    request.link_tag_reciprocal@,
                    request.dest_entry_type@,
                    adds[j - removes.len()],
                )))
        }),
{
    let ghost g0 = store.graph();
    let ghost removes = request.remove_dest_addresses@;
    let ghost adds = request.add_dest_addresses@;
    let mut r: Vec<Result<Edge, RecordError>> = Vec::new();
    let nr = request.remove_dest_addresses.len();
    proof {
        assert(removes.subrange(0, 0) =~= Seq::<IdentityAddress>::empty());
    }
    let mut m: usize = 0;
    while m < nr
        invariant
            nr == removes.len(),
            m <= nr,
            removes == request.remove_dest_addresses@,
            adds == request.add_dest_addresses@,
            store.wf(),
            records_unchanged(*old(store), *store),
            g0 == old(store).graph(),
            store.graph() == remove_reciprocal_edges(
                g0,
                request.source_entry_type@,
                request.source,
                request.link_tag_reciprocal@,
                request.dest_entry_type@,
                removes.subrange(0, m as int),
            ),
            r@.len() == m,
            forall|j: int|
                #![trigger removes[j]]
                0 <= j < m ==> (r@[j] matches Ok(e) && e@ == edge_back(
                    request.source_entry_type@,
                    request.source,
                    request.link_tag_reciprocal@,
                    request.dest_entry_type@,
                    removes[j],
                )),
        decreases nr - m,
    {
        let ghost pre = removes.subrange(0, m as int);
        let ghost cur = removes.subrange(0, m as int + 1);
        proof {
            assert(cur.drop_last() =~= pre);
            assert(cur.last() == removes[m as int]);
        }
        let d = request.remove_dest_addresses[m];
        let reciprocal = Edge {
            source: anchor_for(&request.dest_entry_type, d),
            tag: request.link_tag_reciprocal.clone(),
            target: anchor_for(&request.source_entry_type, request.source),
        };
        store.remove_edge(&reciprocal);
        r.push(Ok(reciprocal));
        m = m + 1;
    }
    proof {
        assert(removes.subrange(0, nr as int) =~= removes);
    }
    let ghost g1 = store.graph();
    let na = request.add_dest_addresses.len();
    proof {
        assert(adds.subrange(0, 0) =~= Seq::<IdentityAddress>::empty());
    }
    let mut a: usize = 0;
    while a < na
        invariant
            na == adds.len(),
            nr == removes.len(),
            a <= na,
            removes == request.remove_dest_addresses@,
            adds == request.add_dest_addresses@,
            store.wf(),
            records_unchanged(*old(store), *store),
            g0 == old(store).graph(),
            g1 == remove_reciprocal_edges(
                g0,
                request.source_entry_type@,
                request.source,
                request.link_tag_reciprocal@,
                request.dest_entry_type@,
                removes,
            ),
            store.graph() == add_reciprocal_edges(
                g1,
                request.source_entry_type@,
                request.source,
                request.link_tag_reciprocal@,
                request.dest_entry_type@,
                adds.subrange(0, a as int),
            ),
            r@.len() == nr + a,
            forall|j: int|
                #![trigger removes[j]]
                0 <= j < nr ==> (r@[j] matches Ok(e) && e@ == edge_back(
                    request.source_entry_type@,
                    request.source,
                    request.link_tag_reciprocal@,
                    request.dest_entry_type@,
                    removes[j],
                )),
            forall|j: int|
                #![trigger r@[j]]
                nr <= j < r@.len() ==> (r@[j] matches Ok(e) && e@ == edge_back(
                    request.source_entry_type@,
                    request.source,
                    request.link_tag_reciprocal@,
                    request.dest_entry_type@,
                    adds[j - nr],
                )),
        decreases na - a,
    {
        let ghost pre = adds.subrange(0, a as int);
        let ghost cur = adds.subrange(0, a as int + 1);
        proof {
            assert(cur.drop_last() =~= pre);
            assert(cur.last() == adds[a as int]);
        }
        let d = request.add_dest_addresses[a];
        let reciprocal = Edge {
            source: anchor_for(&request.dest_entry_type, d),
            tag: request.link_tag_reciprocal.clone(),
            target: anchor_for(&request.source_entry_type, request.source),
        };
        store.push_edge(reciprocal.clone());
        r.push(Ok(reciprocal));
        a = a + 1;
    }
    proof {
        assert(adds.subrange(0, na as int) =~= adds);
    }
    r
}

/// Folds the remote delivery's outcome into the origin's per-edge report. A
/// successful delivery appends the remote results after the local ones; a
/// failed delivery appends one distinguishable `RemoteCallError` for the
/// reciprocal half, after the local results, which are never rolled back.
pub fn merge_remote_results(
    local: Vec<Result<Edge, RecordError>>,
    remote: Result<Vec<Result<Edge, RecordError>>, RecordError>,
) -> (r: Vec<Result<Edge, RecordError>>)
    ensures
        match remote {
            Ok(remote_results) => r@ == local@ + remote_results@,
            Err(_) => {
                &&& r@.len() == local@.len() + 1
                &&& (forall|i: int| 0 <= i < local@.len() ==> r@[i] == local@[i])
                &&& r@[local@.len() as int] == Err::<Edge, RecordError>(
                    RecordError::RemoteCallError,
                )
            },
        },
{
    let mut r = local;
    match remote {
        Ok(remote_results) => {
            let ghost locals = r@;
            let ghost rs = remote_results@;
            let n = remote_results.len();
            proof {
                assert(rs.subrange(0, 0) =~= Seq::<Result<Edge, RecordError>>::empty());
                assert(r@ =~= locals + rs.subrange(0, 0));
            }
            let mut i: usize = 0;
            while i < n
                invariant
                    n == remote_results@.len(),
                    i <= n,
                    rs == remote_results@,
                    r@ == locals + rs.subrange(0, i as int),
                decreases n - i,
            {
                let item = match &remote_results[i] {
                    Ok(e) => Ok(e.clone()),
                    Err(err) => Err(*err),
                };
                proof {
                    assert(item == rs[i as int]);
                }
                r.push(item);
                proof {
                    assert(r@ =~= locals + rs.subrange(0, i as int + 1));
                }
                i = i + 1;
            }
            proof {
                assert(rs.subrange(0, n as int) =~= rs);
                assert(r@ == locals + rs);
            }
            r
        },
        Err(_) => {
            r.push(Err(RecordError::RemoteCallError));
            r
        },
    }
}

} // verus!
