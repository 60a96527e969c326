use record_graph::errors::RecordError;
use record_graph::identity::IdentityAddress;
use record_graph::local_indexes::{query_root_index, resolve_records};
use record_graph::maybe_undefined::MaybeUndefined;
use record_graph::store::Store;
use record_graph::unit::{construct_response, CreateRequest, Entry, UpdateRequest};

fn unit_type() -> String {
    "unit".to_string()
}

fn sample_entry(name: &str, symbol: &str) -> Entry {
    Entry { name: name.to_string(), symbol: symbol.to_string() }
}

#[test]
fn round_trip_create_then_read() {
    let mut store: Store<Entry> = Store::new();
    let (revision, identity, stored) = store.create(&unit_type(), sample_entry("kilogram", "kg"));
    assert_eq!(stored.name, "kilogram");
    assert_eq!(stored.symbol, "kg");

    let (read_revision, entry) = store.read(&unit_type(), identity).unwrap();
    assert_eq!(read_revision, revision);
    assert_eq!(entry.name, "kilogram");
    assert_eq!(entry.symbol, "kg");
}

#[test]
fn revision_progression_update_then_read() {
    let mut store: Store<Entry> = Store::new();
    let (first_revision, identity, _) = store.create(&unit_type(), sample_entry("metre", "m"));

    let patch = UpdateRequest {
        id: identity,
        name: MaybeUndefined::Undefined,
        symbol: MaybeUndefined::Defined("mtr".to_string()),
    };
    let (second_revision, update_identity, new_entry, prev_entry) =
        store.update(&unit_type(), first_revision, &patch).unwrap();
    assert_eq!(update_identity, identity);
    assert_eq!(prev_entry.symbol, "m");
    assert_eq!(new_entry.name, "metre");
    assert_eq!(new_entry.symbol, "mtr");

    // reading by identity returns the newest entry, never a stale one
    let (current_revision, current) = store.read(&unit_type(), identity).unwrap();
    assert_eq!(current_revision, second_revision);
    assert_eq!(current.symbol, "mtr");

    // reading by the old revision address returns that revision's content
    // unchanged
    let (owner, old_entry) = store.read_revision(&unit_type(), first_revision).unwrap();
    assert_eq!(owner, identity);
    assert_eq!(old_entry.symbol, "m");
    let (_, newest) = store.read_revision(&unit_type(), second_revision).unwrap();
    assert_eq!(newest.symbol, "mtr");
}

#[test]
fn read_missing_returns_not_found() {
    let store: Store<Entry> = Store::new();
    let missing = IdentityAddress { raw: 40 };
    assert_eq!(store.read(&unit_type(), missing), Err(RecordError::NotFound));
}

#[test]
fn read_wrong_type_is_serialization_error() {
    let mut store: Store<Entry> = Store::new();
    let (_, identity, _) = store.create(&unit_type(), sample_entry("litre", "l"));
    let r = store.read(&"currency".to_string(), identity);
    assert_eq!(r, Err(RecordError::SerializationError));
}

#[test]
fn delete_tombstones_record() {
    let mut store: Store<Entry> = Store::new();
    let (revision, identity, _) = store.create(&unit_type(), sample_entry("hour", "h"));

    assert_eq!(store.delete(revision), Ok(true));
    assert_eq!(store.read(&unit_type(), identity), Err(RecordError::NotFound));
    assert_eq!(
        store.read_revision(&unit_type(), revision),
        Err(RecordError::NotFound)
    );
    // a second delete finds nothing left to delete
    assert_eq!(store.delete(revision), Err(RecordError::NotFound));
}

#[test]
fn update_of_deleted_record_not_found() {
    let mut store: Store<Entry> = Store::new();
    let (revision, _, _) = store.create(&unit_type(), sample_entry("day", "d"));
    assert_eq!(store.delete(revision), Ok(true));
    let patch = UpdateRequest {
        id: IdentityAddress { raw: 0 },
        name: MaybeUndefined::Defined("week".to_string()),
        symbol: MaybeUndefined::Undefined,
    };
    let r = store.update(&unit_type(), revision, &patch);
    assert!(matches!(r, Err(RecordError::NotFound)));
}

#[test]
fn unit_update_merges_only_provided_fields() {
    let mut store: Store<Entry> = Store::new();
    let (revision, identity, _) = store.create(&unit_type(), sample_entry("gram", "g"));
    let patch = UpdateRequest {
        id: identity,
        name: MaybeUndefined::Defined("megagram".to_string()),
        symbol: MaybeUndefined::Undefined,
    };
    let (_, _, new_entry, _) = store.update(&unit_type(), revision, &patch).unwrap();
    assert_eq!(new_entry.name, "megagram");
    assert_eq!(new_entry.symbol, "g");
}

#[test]
fn query_root_index_lists_every_record_ever_created() {
    let mut store: Store<Entry> = Store::new();
    let (_, first, _) = store.create(&unit_type(), sample_entry("metre", "m"));
    let (second_revision, _second, _) = store.create(&unit_type(), sample_entry("second", "s"));
    store.create(&"currency".to_string(), sample_entry("euro", "EUR"));

    // tombstoned records still appear, as that element's failure
    assert_eq!(store.delete(second_revision), Ok(true));

    let all = query_root_index(&store, &unit_type());
    assert_eq!(all.len(), 2);
    let (_, id0, e0) = all[0].as_ref().unwrap();
    assert_eq!(*id0, first);
    assert_eq!(e0.name, "metre");
    assert_eq!(all[1], Err(RecordError::NotFound));
}

#[test]
fn resolve_records_reports_per_item_failures() {
    let mut store: Store<Entry> = Store::new();
    let (_, known, _) = store.create(&unit_type(), sample_entry("mole", "mol"));
    let unknown = IdentityAddress { raw: 77 };

    let results = resolve_records(&store, &vec![known, unknown, known]);
    assert_eq!(results.len(), 3);
    assert!(results[0].is_ok());
    assert_eq!(results[1], Err(RecordError::NotFound));
    let (_, id2, e2) = results[2].as_ref().unwrap();
    assert_eq!(*id2, known);
    assert_eq!(e2.symbol, "mol");
}

#[test]
fn unit_requests_map_to_entries_and_responses() {
    let entry = Entry::from(CreateRequest { name: "candela".to_string(), symbol: "cd".to_string() });
    assert_eq!(entry.name, "candela");
    assert_eq!(entry.symbol, "cd");

    let identity = IdentityAddress { raw: 9 };
    let response = construct_response(identity, &entry);
    assert_eq!(response.process.id, identity);
    assert_eq!(response.process.name, "candela");
    assert_eq!(response.process.symbol, "cd");

    let patch = UpdateRequest {
        id: identity,
        name: MaybeUndefined::Undefined,
        symbol: MaybeUndefined::Defined("Cd".to_string()),
    };
    assert_eq!(patch.get_id(), identity);
}

#[test]
fn error_descriptions_are_stable() {
    assert_eq!(RecordError::NotFound.describe(), "entry does not exist");
    assert_eq!(RecordError::SerializationError.describe(), "could not decode entry");
    assert_eq!(
        RecordError::LinkIntegrityError.describe(),
        "linked entry is not a valid identity"
    );
    assert_eq!(RecordError::RemoteCallError.describe(), "remote index call failed");
    assert_eq!(
        RecordError::PartialIndexFailure.describe(),
        "one half of the index operation failed"
    );
}
