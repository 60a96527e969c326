use record_graph::errors::{summarize_results, RecordError};
use record_graph::graph::Edge;
use record_graph::local_indexes::read_index;
use record_graph::remote_indexes::{
    create_remote_index, handle_remote_index_request, merge_remote_results, resolve_route,
    update_remote_index, RemoteIndexConfig, RemoteIndexRoute,
};
use record_graph::store::Store;
use record_graph::unit::Entry;

fn commitment() -> String {
    "commitment".to_string()
}

fn agreement() -> String {
    "agreement".to_string()
}

fn clause_of() -> String {
    "clause_of".to_string()
}

fn commitments() -> String {
    "commitments".to_string()
}

fn entry(name: &str) -> Entry {
    Entry { name: name.to_string(), symbol: name.to_string() }
}

fn config() -> RemoteIndexConfig {
    RemoteIndexConfig {
        routes: vec![
            RemoteIndexRoute {
                relationship: "commitment.clause_of".to_string(),
                domain: "agreement_domain".to_string(),
                operation: "index_commitments".to_string(),
            },
        ],
    }
}

#[test]
fn resolve_route_finds_the_configured_operation() {
    let cfg = config();
    let (domain, operation) = resolve_route(&cfg, &"commitment.clause_of".to_string()).unwrap();
    assert_eq!(domain, "agreement_domain");
    assert_eq!(operation, "index_commitments");
    assert!(resolve_route(&cfg, &"commitment.input_of".to_string()).is_none());
}

#[test]
fn unknown_relationship_is_a_remote_call_error() {
    let mut planning: Store<Entry> = Store::new();
    let (_, c1, _) = planning.create(&commitment(), entry("c1"));
    let a1 = record_graph::identity::IdentityAddress { raw: 500 };

    let r = create_remote_index(&mut planning, &config(), &"commitment.unknown".to_string(),
        &commitment(), c1, &agreement(), a1, &clause_of(), &commitments());
    assert!(matches!(r, Err(RecordError::RemoteCallError)));
    // nothing was written locally
    assert_eq!(read_index(&planning, &commitment(), c1, &clause_of()).unwrap(), Vec::new());
}

#[test]
fn remote_create_index_completes_both_halves() {
    // two independently replicated storage domains
    let mut planning: Store<Entry> = Store::new();
    let mut agreements: Store<Entry> = Store::new();
    let (_, c1, _) = planning.create(&commitment(), entry("c1"));
    let (_, a1, _) = agreements.create(&agreement(), entry("a1"));

    let (locals, request) = create_remote_index(&mut planning, &config(),
        &"commitment.clause_of".to_string(), &commitment(), c1, &agreement(), a1, &clause_of(),
        &commitments()).unwrap();
    assert_eq!(locals.len(), 1);
    assert!(locals[0].is_ok());
    assert_eq!(request.domain, "agreement_domain");
    assert_eq!(request.operation, "index_commitments");

    // the transport delivers the request to the remote domain
    let remote_results = handle_remote_index_request(&mut agreements, &request);
    assert_eq!(remote_results.len(), 1);
    assert!(remote_results[0].is_ok());

    let merged = merge_remote_results(locals, Ok(remote_results));
    assert_eq!(merged.len(), 2);
    assert!(merged.iter().all(|r| r.is_ok()));

    // each domain answers from its own half
    assert_eq!(read_index(&planning, &commitment(), c1, &clause_of()).unwrap(), vec![a1]);
    assert_eq!(read_index(&agreements, &agreement(), a1, &commitments()).unwrap(), vec![c1]);
}

#[test]
fn remote_failure_leaves_local_half_and_is_visible_per_edge() {
    let mut planning: Store<Entry> = Store::new();
    let agreements: Store<Entry> = Store::new();
    let (_, c1, _) = planning.create(&commitment(), entry("c1"));
    let a1 = record_graph::identity::IdentityAddress { raw: 0 };

    let (locals, _request) = create_remote_index(&mut planning, &config(),
        &"commitment.clause_of".to_string(), &commitment(), c1, &agreement(), a1, &clause_of(),
        &commitments()).unwrap();

    // the remote call fails: the request is never delivered
    let merged = merge_remote_results(locals, Err(RecordError::RemoteCallError));

    // the local half is present and not rolled back
    assert_eq!(read_index(&planning, &commitment(), c1, &clause_of()).unwrap(), vec![a1]);
    // the remote half is absent
    assert_eq!(read_index(&agreements, &agreement(), a1, &commitments()).unwrap(), Vec::new());
    // and the report blames the remote half specifically, not the whole call
    assert_eq!(merged.len(), 2);
    assert!(merged[0].is_ok());
    assert!(matches!(merged[1], Err(RecordError::RemoteCallError)));
}

#[test]
fn remote_update_index_converges_across_domains() {
    let mut planning: Store<Entry> = Store::new();
    let mut agreements: Store<Entry> = Store::new();
    let (_, c1, _) = planning.create(&commitment(), entry("c1"));
    let (_, a_old, _) = agreements.create(&agreement(), entry("old"));
    let (_, a_new, _) = agreements.create(&agreement(), entry("new"));

    // wire the initial relationship
    let (locals, request) = create_remote_index(&mut planning, &config(),
        &"commitment.clause_of".to_string(), &commitment(), c1, &agreement(), a_old, &clause_of(),
        &commitments()).unwrap();
    let remote = handle_remote_index_request(&mut agreements, &request);
    merge_remote_results(locals, Ok(remote));

    // an update of a single linked field: new value added, previous removed
    let (locals, request) = update_remote_index(&mut planning, &config(),
        &"commitment.clause_of".to_string(), &commitment(), c1, &agreement(), &clause_of(),
        &commitments(), &vec![a_new], &vec![a_old]).unwrap();
    assert_eq!(locals.len(), 2);
    assert!(locals.iter().all(|r| r.is_ok()));
    assert_eq!(request.remove_dest_addresses, vec![a_old]);
    assert_eq!(request.add_dest_addresses, vec![a_new]);

    let remote = handle_remote_index_request(&mut agreements, &request);
    assert_eq!(remote.len(), 2);
    let merged = merge_remote_results(locals, Ok(remote));
    assert_eq!(merged.len(), 4);
    assert!(merged.iter().all(|r| r.is_ok()));

    assert_eq!(read_index(&planning, &commitment(), c1, &clause_of()).unwrap(), vec![a_new]);
    assert_eq!(read_index(&agreements, &agreement(), a_old, &commitments()).unwrap(), Vec::new());
    assert_eq!(read_index(&agreements, &agreement(), a_new, &commitments()).unwrap(), vec![c1]);
}

#[test]
fn merge_remote_results_appends_remote_successes() {
    let local = vec![Ok(sample_edge("one")), Ok(sample_edge("two"))];
    let remote = vec![Ok(sample_edge("three"))];
    let merged = merge_remote_results(local, Ok(remote));
    assert_eq!(merged.len(), 3);
    assert!(merged.iter().all(|r| r.is_ok()));
}

#[test]
fn summarize_results_tells_partial_failure_apart() {
    let all_ok: Vec<Result<Edge, RecordError>> = vec![Ok(sample_edge("a")), Ok(sample_edge("b"))];
    assert_eq!(summarize_results(&all_ok), Ok(()));

    let mixed: Vec<Result<Edge, RecordError>> =
        vec![Ok(sample_edge("a")), Err(RecordError::RemoteCallError)];
    assert_eq!(summarize_results(&mixed), Err(RecordError::PartialIndexFailure));

    let all_err: Vec<Result<Edge, RecordError>> =
        vec![Err(RecordError::NotFound), Err(RecordError::RemoteCallError)];
    assert_eq!(summarize_results(&all_err), Err(RecordError::NotFound));

    let untouched: Vec<Result<Edge, RecordError>> = Vec::new();
    assert_eq!(summarize_results(&untouched), Ok(()));
}

fn sample_edge(tag: &str) -> Edge {
    let a = record_graph::identity::anchor_for(
        &"x".to_string(),
        record_graph::identity::IdentityAddress { raw: 1 },
    );
    let b = record_graph::identity::anchor_for(
        &"y".to_string(),
        record_graph::identity::IdentityAddress { raw: 2 },
    );
    Edge { source: a, tag: tag.to_string(), target: b }
}
