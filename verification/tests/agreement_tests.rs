use record_graph::agreement::{
    agreement_commitments_link_tag, agreement_entry_type, handle_create_agreement,
    handle_delete_agreement, handle_get_agreement, handle_update_agreement, CreateRequest,
    EntryData, UpdateRequest,
};
use record_graph::errors::RecordError;
use record_graph::local_indexes::create_index;
use record_graph::maybe_undefined::MaybeUndefined;
use record_graph::store::Store;

fn new_store() -> Store<EntryData> {
    Store::new()
}

fn create_request(name: &str, created: i64) -> CreateRequest {
    CreateRequest {
        name: MaybeUndefined::Defined(name.to_string()),
        created: MaybeUndefined::Defined(created),
        note: MaybeUndefined::Undefined,
    }
}

#[test]
fn agreement_create_then_get() {
    let mut store = new_store();
    let response =
        handle_create_agreement(&mut store, &agreement_entry_type(), create_request("loan", 86400))
            .unwrap();
    assert_eq!(response.agreement.name, Some("loan".to_string()));
    assert_eq!(response.agreement.created, Some(86400));
    assert_eq!(response.agreement.note, None);
    assert_eq!(response.agreement.commitments, Vec::new());
    assert_eq!(response.agreement.economic_events, Vec::new());

    let fetched =
        handle_get_agreement(&store, &agreement_entry_type(), response.agreement.id).unwrap();
    assert_eq!(fetched, response);
}

#[test]
fn agreement_update_merges_only_provided_fields() {
    let mut store = new_store();
    let created = handle_create_agreement(
        &mut store,
        &agreement_entry_type(),
        CreateRequest {
            name: MaybeUndefined::Defined("barter".to_string()),
            created: MaybeUndefined::Defined(100),
            note: MaybeUndefined::Defined("first note".to_string()),
        },
    )
    .unwrap();

    let updated = handle_update_agreement(
        &mut store,
        &agreement_entry_type(),
        UpdateRequest {
            revision_id: created.agreement.revision_id,
            name: MaybeUndefined::Defined("barter agreement".to_string()),
            created: MaybeUndefined::Undefined,
            note: MaybeUndefined::Null,
        },
    )
    .unwrap();

    // provided fields replace, unprovided fields keep their prior values
    assert_eq!(updated.agreement.id, created.agreement.id);
    assert_eq!(updated.agreement.name, Some("barter agreement".to_string()));
    assert_eq!(updated.agreement.created, Some(100));
    assert_eq!(updated.agreement.note, Some("first note".to_string()));
    assert_ne!(updated.agreement.revision_id, created.agreement.revision_id);

    // the newest entry is what a later read returns
    let fetched =
        handle_get_agreement(&store, &agreement_entry_type(), created.agreement.id).unwrap();
    assert_eq!(fetched.agreement.name, Some("barter agreement".to_string()));
    assert_eq!(fetched.agreement.revision_id, updated.agreement.revision_id);
}

#[test]
fn agreement_update_of_unknown_revision_not_found() {
    let mut store = new_store();
    let r = handle_update_agreement(
        &mut store,
        &agreement_entry_type(),
        UpdateRequest {
            revision_id: record_graph::identity::RevisionAddress { raw: 41 },
            name: MaybeUndefined::Undefined,
            created: MaybeUndefined::Undefined,
            note: MaybeUndefined::Undefined,
        },
    );
    assert!(matches!(r, Err(RecordError::NotFound)));
}

#[test]
fn agreement_delete_then_get_not_found() {
    let mut store = new_store();
    let created =
        handle_create_agreement(&mut store, &agreement_entry_type(), create_request("lease", 7))
            .unwrap();
    assert_eq!(
        handle_delete_agreement(&mut store, created.agreement.revision_id),
        Ok(true)
    );
    let fetched = handle_get_agreement(&store, &agreement_entry_type(), created.agreement.id);
    assert!(matches!(fetched, Err(RecordError::NotFound)));
}

#[test]
fn agreement_response_carries_linked_commitments() {
    let mut store = new_store();
    let created =
        handle_create_agreement(&mut store, &agreement_entry_type(), create_request("sale", 12))
            .unwrap();
    let a1 = created.agreement.id;
    // a commitment recorded in another storage domain, known here by identity
    let c1 = record_graph::identity::IdentityAddress { raw: 77 };

    create_index(
        &mut store,
        &agreement_entry_type(),
        a1,
        &"commitment".to_string(),
        c1,
        &agreement_commitments_link_tag(),
        &"clause_of".to_string(),
    );

    let fetched = handle_get_agreement(&store, &agreement_entry_type(), a1).unwrap();
    assert_eq!(fetched.agreement.commitments, vec![c1]);
    assert_eq!(fetched.agreement.economic_events, Vec::new());
}

#[test]
fn agreement_entry_from_request_drops_null_and_undefined() {
    let entry = EntryData::from(CreateRequest {
        name: MaybeUndefined::Defined("swap".to_string()),
        created: MaybeUndefined::Null,
        note: MaybeUndefined::Undefined,
    });
    assert_eq!(entry.name, Some("swap".to_string()));
    assert_eq!(entry.created, None);
    assert_eq!(entry.note, None);
}

#[test]
fn maybe_undefined_accessors() {
    let defined: MaybeUndefined<String> = MaybeUndefined::Defined("x".to_string());
    let undefined: MaybeUndefined<String> = MaybeUndefined::Undefined;
    let null: MaybeUndefined<String> = MaybeUndefined::Null;
    assert!(defined.is_some());
    assert!(!undefined.is_some());
    assert!(!null.is_some());
    assert!(undefined.is_undefined());
    assert!(!null.is_undefined());
    assert_eq!(defined.to_option(), Some("x".to_string()));
    assert_eq!(undefined.to_option(), None);
    assert_eq!(null.to_option(), None);
}
