use record_graph::errors::RecordError;
use record_graph::identity::{anchor_for, resolve_identity, root_path_for, IdentityAddress};
use record_graph::index_strategy::{create_index_with, update_index_with, IndexStrategy};
use record_graph::local_indexes::{
    create_index, create_link, delete_index, query_index, read_index, update_index,
};
use record_graph::store::Store;
use record_graph::unit::Entry;

fn commitment() -> String {
    "commitment".to_string()
}

fn process() -> String {
    "process".to_string()
}

fn committed_inputs() -> String {
    "committed_inputs".to_string()
}

fn input_of() -> String {
    "input_of".to_string()
}

fn entry(name: &str) -> Entry {
    Entry { name: name.to_string(), symbol: name.to_string() }
}

#[test]
fn create_index_is_bidirectional() {
    let mut store: Store<Entry> = Store::new();
    let (_, a, _) = store.create(&process(), entry("p"));
    let (_, b, _) = store.create(&commitment(), entry("c"));

    let results = create_index(&mut store, &process(), a, &commitment(), b, &committed_inputs(),
        &input_of());
    assert_eq!(results.len(), 2);
    assert!(results.iter().all(|r| r.is_ok()));

    let forward = read_index(&store, &process(), a, &committed_inputs()).unwrap();
    assert_eq!(forward, vec![b]);
    let reverse = read_index(&store, &commitment(), b, &input_of()).unwrap();
    assert_eq!(reverse, vec![a]);
}

#[test]
fn create_index_recreation_changes_nothing() {
    let mut store: Store<Entry> = Store::new();
    let (_, a, _) = store.create(&process(), entry("p"));
    let (_, b, _) = store.create(&commitment(), entry("c"));

    create_index(&mut store, &process(), a, &commitment(), b, &committed_inputs(), &input_of());
    create_index(&mut store, &process(), a, &commitment(), b, &committed_inputs(), &input_of());

    let forward = read_index(&store, &process(), a, &committed_inputs()).unwrap();
    assert_eq!(forward, vec![b]);
    let reverse = read_index(&store, &commitment(), b, &input_of()).unwrap();
    assert_eq!(reverse, vec![a]);
}

#[test]
fn update_index_with_current_set_is_idempotent() {
    let mut store: Store<Entry> = Store::new();
    let (_, a, _) = store.create(&process(), entry("p"));
    let (_, b, _) = store.create(&commitment(), entry("c1"));
    let (_, c, _) = store.create(&commitment(), entry("c2"));
    create_index(&mut store, &process(), a, &commitment(), b, &committed_inputs(), &input_of());
    create_index(&mut store, &process(), a, &commitment(), c, &committed_inputs(), &input_of());

    let current = read_index(&store, &process(), a, &committed_inputs()).unwrap();
    assert_eq!(current, vec![b, c]);

    // add = current, remove = nothing: changes nothing, reports no edges
    let results =
        update_index(&mut store, &process(), a, &commitment(), &committed_inputs(), &input_of(),
            &current, &Vec::new()).unwrap();
    assert_eq!(results.len(), 0);

    assert_eq!(read_index(&store, &process(), a, &committed_inputs()).unwrap(), vec![b, c]);
    assert_eq!(read_index(&store, &commitment(), b, &input_of()).unwrap(), vec![a]);
    assert_eq!(read_index(&store, &commitment(), c, &input_of()).unwrap(), vec![a]);
}

#[test]
fn update_index_diff_converges_both_sides() {
    let mut store: Store<Entry> = Store::new();
    let (_, a, _) = store.create(&process(), entry("a"));
    let (_, y, _) = store.create(&commitment(), entry("y"));
    let (_, z, _) = store.create(&commitment(), entry("z"));
    let (_, x, _) = store.create(&commitment(), entry("x"));

    // current destination set of (a, committed_inputs) is {y, z}
    create_index(&mut store, &process(), a, &commitment(), y, &committed_inputs(), &input_of());
    create_index(&mut store, &process(), a, &commitment(), z, &committed_inputs(), &input_of());

    // add {x}, remove {y}: every touched edge reports a result
    let results =
        update_index(&mut store, &process(), a, &commitment(), &committed_inputs(), &input_of(),
            &vec![x], &vec![y]).unwrap();
    assert_eq!(results.len(), 4);
    assert!(results.iter().all(|r| r.is_ok()));

    // the new set is {z, x}, checked from the source...
    assert_eq!(read_index(&store, &process(), a, &committed_inputs()).unwrap(), vec![z, x]);
    // ... and from each destination's reverse tag
    assert_eq!(read_index(&store, &commitment(), y, &input_of()).unwrap(), Vec::new());
    assert_eq!(read_index(&store, &commitment(), z, &input_of()).unwrap(), vec![a]);
    assert_eq!(read_index(&store, &commitment(), x, &input_of()).unwrap(), vec![a]);
}

#[test]
fn update_index_removing_absent_destination_is_noop() {
    let mut store: Store<Entry> = Store::new();
    let (_, a, _) = store.create(&process(), entry("a"));
    let (_, b, _) = store.create(&commitment(), entry("b"));
    create_index(&mut store, &process(), a, &commitment(), b, &committed_inputs(), &input_of());

    let absent = IdentityAddress { raw: 404 };
    let results =
        update_index(&mut store, &process(), a, &commitment(), &committed_inputs(), &input_of(),
            &Vec::new(), &vec![absent]).unwrap();
    assert_eq!(results.len(), 0);
    assert_eq!(read_index(&store, &process(), a, &committed_inputs()).unwrap(), vec![b]);
}

#[test]
fn scenario_commitment_under_process() {
    let mut store: Store<Entry> = Store::new();
    let (_, c1, _) = store.create(&commitment(), entry("produce"));
    let (_, p1, _) = store.create(&process(), entry("bake"));

    let results = create_index(&mut store, &process(), p1, &commitment(), c1,
        &committed_inputs(), &input_of());
    assert_eq!(results.len(), 2);
    assert!(results.iter().all(|r| r.is_ok()));

    assert_eq!(read_index(&store, &process(), p1, &committed_inputs()).unwrap(), vec![c1]);
    assert_eq!(read_index(&store, &commitment(), c1, &input_of()).unwrap(), vec![p1]);

    // converge the process's committed inputs to the empty set
    update_index(&mut store, &process(), p1, &commitment(), &committed_inputs(), &input_of(),
        &Vec::new(), &vec![c1]).unwrap();

    assert_eq!(read_index(&store, &process(), p1, &committed_inputs()).unwrap(), Vec::new());
    assert_eq!(read_index(&store, &commitment(), c1, &input_of()).unwrap(), Vec::new());
}

#[test]
fn delete_index_clears_whole_tag_on_both_endpoints() {
    let mut store: Store<Entry> = Store::new();
    let (_, a, _) = store.create(&process(), entry("a"));
    let (_, b, _) = store.create(&commitment(), entry("b"));
    let (_, c, _) = store.create(&commitment(), entry("c"));
    create_index(&mut store, &process(), a, &commitment(), b, &committed_inputs(), &input_of());
    create_index(&mut store, &process(), a, &commitment(), c, &committed_inputs(), &input_of());

    // tag-scoped, not edge-scoped: both of a's edges under the tag go, not
    // just the pair between a and b
    let results = delete_index(&mut store, &process(), a, &commitment(), b, &committed_inputs(),
        &input_of());
    assert_eq!(results.len(), 3);
    assert!(results.iter().all(|r| r.is_ok()));

    assert_eq!(read_index(&store, &process(), a, &committed_inputs()).unwrap(), Vec::new());
    assert_eq!(read_index(&store, &commitment(), b, &input_of()).unwrap(), Vec::new());
    // c's reverse edge is under c's own anchor, which the call does not touch
    assert_eq!(read_index(&store, &commitment(), c, &input_of()).unwrap(), vec![a]);
}

#[test]
fn read_index_fails_on_unresolvable_link_target() {
    let mut store: Store<Entry> = Store::new();
    let (_, a, _) = store.create(&process(), entry("a"));

    // a raw link to a root anchor does not resolve to a record identity
    let source = anchor_for(&process(), a);
    let bad_target = root_path_for(&commitment());
    create_link(&mut store, &source, &committed_inputs(), &bad_target);

    let r = read_index(&store, &process(), a, &committed_inputs());
    assert_eq!(r, Err(RecordError::LinkIntegrityError));
}

#[test]
fn query_index_reports_each_destination_separately() {
    let mut store: Store<Entry> = Store::new();
    let (_, a, _) = store.create(&process(), entry("a"));
    let (good_revision, good, _) = store.create(&commitment(), entry("good"));

    create_index(&mut store, &process(), a, &commitment(), good, &committed_inputs(), &input_of());
    // a destination in another storage domain: locally there is no record
    let remote_only = IdentityAddress { raw: 900 };
    create_index(&mut store, &process(), a, &commitment(), remote_only, &committed_inputs(),
        &input_of());
    // a destination anchored under the wrong type cannot be decoded
    let source = anchor_for(&process(), a);
    let mistyped = anchor_for(&"agreement".to_string(), good);
    create_link(&mut store, &source, &committed_inputs(), &mistyped);
    // a link target that is no record identity at all
    let unresolvable = root_path_for(&commitment());
    create_link(&mut store, &source, &committed_inputs(), &unresolvable);

    let results = query_index(&store, &process(), a, &committed_inputs());
    assert_eq!(results.len(), 4);
    let (revision0, id0, entry0) = results[0].as_ref().unwrap();
    assert_eq!(*revision0, good_revision);
    assert_eq!(*id0, good);
    assert_eq!(entry0.name, "good");
    assert_eq!(results[1], Err(RecordError::NotFound));
    assert_eq!(results[2], Err(RecordError::SerializationError));
    assert_eq!(results[3], Err(RecordError::LinkIntegrityError));
}

#[test]
fn anchors_resolve_back_to_identities() {
    let id = IdentityAddress { raw: 3 };
    let anchor = anchor_for(&commitment(), id);
    assert_eq!(resolve_identity(&anchor), Ok(id));
    let root = root_path_for(&commitment());
    assert_eq!(resolve_identity(&root), Err(RecordError::LinkIntegrityError));
}

#[test]
fn local_strategy_wires_both_halves_without_a_request() {
    let mut store: Store<Entry> = Store::new();
    let (_, a, _) = store.create(&process(), entry("a"));
    let (_, b, _) = store.create(&commitment(), entry("b"));

    let (results, request) = create_index_with(&mut store, IndexStrategy::Local, &process(), a,
        &commitment(), b, &committed_inputs(), &input_of());
    assert_eq!(results.len(), 2);
    assert!(results.iter().all(|r| r.is_ok()));
    assert!(request.is_none());
    assert_eq!(read_index(&store, &process(), a, &committed_inputs()).unwrap(), vec![b]);
    assert_eq!(read_index(&store, &commitment(), b, &input_of()).unwrap(), vec![a]);

    let (results, request) = update_index_with(&mut store, IndexStrategy::Local, &process(), a,
        &commitment(), &committed_inputs(), &input_of(), &Vec::new(), &vec![b]).unwrap();
    assert_eq!(results.len(), 2);
    assert!(request.is_none());
    assert_eq!(read_index(&store, &process(), a, &committed_inputs()).unwrap(), Vec::new());
    assert_eq!(read_index(&store, &commitment(), b, &input_of()).unwrap(), Vec::new());
}

#[test]
fn remote_strategy_returns_the_reciprocal_request() {
    let mut store: Store<Entry> = Store::new();
    let (_, a, _) = store.create(&process(), entry("a"));
    let other_domain = IdentityAddress { raw: 321 };

    let strategy = IndexStrategy::Remote {
        domain: "planning_domain".to_string(),
        operation: "index_processes".to_string(),
    };
    let (results, request) = create_index_with(&mut store, strategy, &process(), a,
        &commitment(), other_domain, &committed_inputs(), &input_of());
    assert_eq!(results.len(), 1);
    assert!(results[0].is_ok());
    let request = request.unwrap();
    assert_eq!(request.domain, "planning_domain");
    assert_eq!(request.operation, "index_processes");
    assert_eq!(request.add_dest_addresses, vec![other_domain]);
    assert_eq!(request.remove_dest_addresses, Vec::new());
    // only the forward half was written here
    assert_eq!(
        read_index(&store, &process(), a, &committed_inputs()).unwrap(),
        vec![other_domain]
    );
    assert_eq!(
        read_index(&store, &commitment(), other_domain, &input_of()).unwrap(),
        Vec::new()
    );
}
