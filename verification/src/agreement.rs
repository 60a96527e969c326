//! The agreement record kind and its domain operations: create, read,
//! update and delete an agreement, wiring and reading its relationship
//! edges alongside.
//!
//! An agreement's creation time is carried as seconds since the epoch, so
//! the merge and response logic over it is plain integer data.

use vstd::prelude::*;

use crate::errors::RecordError;
use crate::graph::{all_resolve, dest_ids, resolved_ids, targets_from};
use crate::identity::{identity_anchor, IdentityAddress, RevisionAddress};
use crate::local_indexes::read_index;
use crate::maybe_undefined::MaybeUndefined;
use crate::record_interface::{Duplicable, Updateable};
use crate::store::{record_unchanged, store_unchanged, Store};

verus! {

/// The entry type name agreements are stored under.
pub fn agreement_entry_type() -> (t: String)
    ensures
        t@ == "vf_agreement"@,
{
    "vf_agreement".to_owned()
}

/// The tag of the edges from an agreement to the commitments under it.
pub fn agreement_commitments_link_tag() -> (t: String)
    ensures
        t@ == "commitments"@,
{
    "commitments".to_owned()
}

/// The tag of the edges from an agreement to the events realizing it.
pub fn agreement_events_link_tag() -> (t: String)
    ensures
        t@ == "economic_events"@,
{
    "economic_events".to_owned()
}

/// Duplicates an optional text field.
fn clone_opt_string(v: &Option<String>) -> (r: Option<String>)
    ensures
        r == *v,
{
    match v {
        Some(s) => Some(s.clone()),
        None => None,
    }
}

/// The stored content of an agreement record.
#[derive(Debug, PartialEq)]
pub struct EntryData {
    pub name: Option<String>,
    pub created: Option<i64>,
    pub note: Option<String>,
}

impl Duplicable for EntryData {
    fn duplicate(&self) -> (r: Self)
        ensures
            r == *self,
    {
        EntryData {
            name: clone_opt_string(&self.name),
            created: self.created,
            note: clone_opt_string(&self.note),
        }
    }
}

/// The input record describing an agreement to create.
#[derive(Debug)]
pub struct CreateRequest {
    pub name: MaybeUndefined<String>,
    pub created: MaybeUndefined<i64>,
    pub note: MaybeUndefined<String>,
}

/// The entry a create request describes.
pub open spec fn entry_data_from(e: CreateRequest) -> EntryData {
    EntryData { name: e.name.as_option(), created: e.created.as_option(), note: e.note.as_option() }
}

/// Pick relevant fields out of the input record into the stored entry.
impl From<CreateRequest> for EntryData {
    fn from(e: CreateRequest) -> (r: EntryData) {
        EntryData {
            name: match e.name {
                MaybeUndefined::Defined(v) => Some(v),
                _ => None,
            },
            created: match e.created {
                MaybeUndefined::Defined(v) => Some(v),
                _ => None,
            },
            note: match e.note {
                MaybeUndefined::Defined(v) => Some(v),
                _ => None,
            },
        }
    }
}

impl vstd::std_specs::convert::FromSpecImpl<CreateRequest> for EntryData {
    open spec fn obeys_from_spec() -> bool {
        true
    }

    open spec fn from_spec(e: CreateRequest) -> EntryData {
        entry_data_from(e)
    }
}

/// The input record describing how to change an existing agreement.
#[derive(Debug)]
pub struct UpdateRequest {
    pub revision_id: RevisionAddress,
    pub name: MaybeUndefined<String>,
    pub created: MaybeUndefined<i64>,
    pub note: MaybeUndefined<String>,
}

impl UpdateRequest {
    /// The revision the request builds on.
    pub fn get_revision_id(&self) -> (r: RevisionAddress)
        ensures
            r == self.revision_id,
    {
        self.revision_id
    }
}

/// Handles update operations by merging any newly provided fields: a field
/// the request does not define keeps its prior value.
impl Updateable<UpdateRequest> for EntryData {
    open spec fn merged_with(self, e: UpdateRequest) -> EntryData {
        EntryData {
            name: match e.name {
                MaybeUndefined::Defined(v) => Some(v),
                _ => self.name,
            },
            created: match e.created {
                MaybeUndefined::Defined(v) => Some(v),
                _ => self.created,
            },
            note: match e.note {
                MaybeUndefined::Defined(v) => Some(v),
                _ => self.note,
            },
        }
    }

    open spec fn update_allowed(e: UpdateRequest) -> bool {
        true
    }

    fn update_with(&self, e: &UpdateRequest) -> (r: EntryData) {
        EntryData {
            name: match &e.name {
                MaybeUndefined::Defined(v) => Some(v.clone()),
                _ => clone_opt_string(&self.name),
            },
            created: match &e.created {
                MaybeUndefined::Defined(v) => Some(*v),
                _ => self.created,
            },
            note: match &e.note {
                MaybeUndefined::Defined(v) => Some(v.clone()),
                _ => clone_opt_string(&self.note),
            },
        }
    }
}

/// The complete output record, including the managed link fields.
#[derive(Debug, PartialEq)]
pub struct Response {
    pub id: IdentityAddress,
    pub revision_id: RevisionAddress,
    pub name: Option<String>,
    pub created: Option<i64>,
    pub note: Option<String>,
    pub commitments: Vec<IdentityAddress>,
    pub economic_events: Vec<IdentityAddress>,
}

/// What is returned outside the gateway.
#[derive(Debug, PartialEq)]
pub struct ResponseData {
    pub agreement: Response,
}

/// Create response from stored primitives.
fn construct_response(
    address: IdentityAddress,
    revision_id: RevisionAddress,
    e: &EntryData,
    commitments: Vec<IdentityAddress>,
    economic_events: Vec<IdentityAddress>,
) -> (r: ResponseData)
    ensures
        r.agreement.id == address,
        r.agreement.revision_id == revision_id,
        r.agreement.name == e.name,
        r.agreement.created == e.created,
        r.agreement.note == e.note,
        r.agreement.commitments@ == commitments@,
        r.agreement.economic_events@ == economic_events@,
{
    ResponseData {
        agreement: Response {
            id: address,
            revision_id,
            name: clone_opt_string(&e.name),
            created: e.created,
            note: clone_opt_string(&e.note),
            commitments,
            economic_events,
        },
    }
}

/// Reads the agreement's two managed link fields.
fn get_link_fields(
    store: &Store<EntryData>,
    entry_def_id: &String,
    base_address: IdentityAddress,
) -> (r: Result<(Vec<IdentityAddress>, Vec<IdentityAddress>), RecordError>)
    requires
        store.wf(),
    ensures
        ({
            let src = identity_anchor(entry_def_id@, base_address);
            let ts_c = targets_from(store.graph(), src, "commitments"@);
            let ts_e = targets_from(store.graph(), src, "economic_events"@);
            match r {
                Ok(p) => {
                    &&& all_resolve(ts_c)
                    &&& all_resolve(ts_e)
                    &&& p.0@ == resolved_ids(ts_c)
                    &&& p.1@ == resolved_ids(ts_e)
                },
                Err(RecordError::LinkIntegrityError) => !all_resolve(ts_c) || !all_resolve(ts_e),
                Err(_) => false,
            }
        }),
{
    let commitments = match read_index(store, entry_def_id, base_address,
        &agreement_commitments_link_tag()) {
        Ok(c) => c,
        Err(e) => {
            return Err(e);
        },
    };
    let economic_events = match read_index(store, entry_def_id, base_address,
        &agreement_events_link_tag()) {
        Ok(c) => c,
        Err(e) => {
            return Err(e);
        },
    };
    Ok((commitments, economic_events))
}

/// Creates an agreement record, then reads its link fields to assemble the
/// response. A failed link-field read is reported after the entry has been
/// durably created: the entry write is never rolled back.
pub fn handle_create_agreement(
    store: &mut Store<EntryData>,
    entry_def_id: &String,
    agreement: CreateRequest,
) -> (r: Result<ResponseData, RecordError>)
    requires
        old(store).wf(),
        old(store).can_allocate(2),
    ensures
        final(store).wf(),
        final(store).graph() == old(store).graph(),
        final(store).rec_ids().len() == old(store).rec_ids().len() + 1,
        ({
            let new_id = final(store).rec_ids().last();
            let entry = entry_data_from(agreement);
            let src = identity_anchor(entry_def_id@, new_id);
            &&& !old(store).has_record(new_id)
            &&& final(store).is_live(new_id)
            &&& final(store).record_type(new_id) == entry_def_id@
            &&& final(store).current_entry(new_id) == entry
            &&& (forall|id2: IdentityAddress|
                id2 != new_id ==> #[trigger] record_unchanged(*old(store), *final(store), id2))
            &&& match r {
                Ok(resp) => {
                    &&& resp.agreement.id == new_id
                    &&& resp.agreement.revision_id == final(store).current_revision(new_id)
                    &&& resp.agreement.name == entry.name
                    &&& resp.agreement.created == entry.created
                    &&& resp.agreement.note == entry.note
                    &&& all_resolve(targets_from(final(store).graph(), src, "commitments"@))
                    &&& all_resolve(targets_from(final(store).graph(), src, "economic_events"@))
                    &&& resp.agreement.commitments@ == dest_ids(
                        final(store).graph(),
                        src,
                        "commitments"@,
                    )
                    &&& resp.agreement.economic_events@ == dest_ids(
                        final(store).graph(),
                        src,
                        "economic_events"@,
                    )
                },
                Err(RecordError::LinkIntegrityError) => !all_resolve(
                    targets_from(final(store).graph(), src, "commitments"@),
                ) || !all_resolve(targets_from(final(store).graph(), src, "economic_events"@)),
                Err(_) => false,
            }
        }),
{
    let entry = EntryData::from(agreement);
    let (revision_id, base_address, entry_stored) = store.create(entry_def_id, entry);
    proof {
        assert(store.rec_ids().last() == base_address);
    }
    match get_link_fields(store, entry_def_id, base_address) {
        Ok((commitments, economic_events)) => Ok(
            construct_response(base_address, revision_id, &entry_stored, commitments,
                economic_events),
        ),
        Err(e) => Err(e),
    }
}

/// Reads an agreement record and its link fields.
pub fn handle_get_agreement(
    store: &Store<EntryData>,
    entry_def_id: &String,
    address: IdentityAddress,
) -> (r: Result<ResponseData, RecordError>)
    requires
        store.wf(),
    ensures
        ({
            let src = identity_anchor(entry_def_id@, address);
            match r {
                Ok(resp) => {
                    &&& store.is_live(address)
                    &&& store.record_type(address) == entry_def_id@
                    &&& resp.agreement.id == address
                    &&& resp.agreement.revision_id == store.current_revision(address)
                    &&& resp.agreement.name == store.current_entry(address).name
                    &&& resp.agreement.created == store.current_entry(address).created
                    &&& resp.agreement.note == store.current_entry(address).note
                    &&& all_resolve(targets_from(store.graph(), src, "commitments"@))
                    &&& all_resolve(targets_from(store.graph(), src, "economic_events"@))
                    &&& resp.agreement.commitments@ == dest_ids(store.graph(), src, "commitments"@)
                    &&& resp.agreement.economic_events@ == dest_ids(
                        store.graph(),
                        src,
                        "economic_events"@,
                    )
                },
                Err(RecordError::NotFound) => !store.is_live(address),
                Err(RecordError::SerializationError) => store.is_live(address)
                    && store.record_type(address) != entry_def_id@,
                Err(RecordError::LinkIntegrityError) => {
                    &&& store.is_live(address)
                    &&& store.record_type(address) == entry_def_id@
                    &&& (!all_resolve(targets_from(store.graph(), src, "commitments"@))
                        || !all_resolve(targets_from(store.graph(), src, "economic_events"@)))
                },
                Err(_) => false,
            }
        }),
{
    let (revision, entry) = match store.read(entry_def_id, address) {
        Ok(p) => p,
        Err(e) => {
            return Err(e);
        },
    };
    match get_link_fields(store, entry_def_id, address) {
        Ok((commitments, economic_events)) => Ok(
            construct_response(address, revision, &entry, commitments, economic_events),
        ),
        Err(e) => Err(e),
    }
}

/// Merges an update request over the entry at its base revision, writes the
/// result as the agreement's new current revision, and assembles the
/// response from the new entry and the link fields.
pub fn handle_update_agreement(
    store: &mut Store<EntryData>,
    entry_def_id: &String,
    agreement: UpdateRequest,
) -> (r: Result<ResponseData, RecordError>)
    requires
        old(store).wf(),
        old(store).can_allocate(1),
    ensures
        final(store).wf(),
        final(store).graph() == old(store).graph(),
        ({
            let rv = agreement.revision_id;
            let id = old(store).revision_owner(rv);
            let merged = old(store).revision_entry(rv).merged_with(agreement);
            let src = identity_anchor(entry_def_id@, id);
            match r {
                Ok(resp) => {
                    &&& old(store).has_revision(rv)
                    &&& old(store).is_live(id)
                    &&& old(store).record_type(id) == entry_def_id@
                    &&& resp.agreement.id == id
                    &&& final(store).is_live(id)
                    &&& final(store).chain(id) == old(store).chain(id).push(
                        (resp.agreement.revision_id, merged),
                    )
                    &&& final(store).current_entry(id) == merged
                    &&& final(store).current_revision(id) == resp.agreement.revision_id
                    &&& resp.agreement.name == merged.name
                    &&& resp.agreement.created == merged.created
                    &&& resp.agreement.note == merged.note
                    &&& final(store).rec_ids() == old(store).rec_ids()
                    &&& (forall|id2: IdentityAddress|
                        id2 != id ==> #[trigger] record_unchanged(
                            *old(store),
                            *final(store),
                            id2,
                        ))
                    &&& all_resolve(targets_from(final(store).graph(), src, "commitments"@))
                    &&& all_resolve(targets_from(final(store).graph(), src, "economic_events"@))
                    &&& resp.agreement.commitments@ == dest_ids(
                        final(store).graph(),
                        src,
                        "commitments"@,
                    )
                    &&& resp.agreement.economic_events@ == dest_ids(
                        final(store).graph(),
                        src,
                        "economic_events"@,
                    )
                },
                Err(RecordError::NotFound) => {
                    &&& (!old(store).has_revision(rv) || !old(store).is_live(id))
                    &&& store_unchanged(*old(store), *final(store))
                },
                Err(RecordError::SerializationError) => {
                    &&& old(store).has_revision(rv)
                    &&& old(store).is_live(id)
                    &&& old(store).record_type(id) != entry_def_id@
                    &&& store_unchanged(*old(store), *final(store))
                },
                Err(RecordError::LinkIntegrityError) => {
                    &&& old(store).has_revision(rv)
                    &&& old(store).is_live(id)
                    &&& old(store).record_type(id) == entry_def_id@
                    &&& final(store).is_live(id)
                    &&& final(store).chain(id) == old(store).chain(id).push(
                        (final(store).current_revision(id), merged),
                    )
                    &&& (!all_resolve(targets_from(final(store).graph(), src, "commitments"@))
                        || !all_resolve(targets_from(final(store).graph(), src, "economic_events"@)))
                },
                Err(_) => false,
            }
        }),
{
    let revision = agreement.get_revision_id();
    let (new_revision, id, new_entry, _prev_entry) = match store.update(entry_def_id, revision,
        &agreement) {
        Ok(q) => q,
        Err(e) => {
            return Err(e);
        },
    };
    match get_link_fields(store, entry_def_id, id) {
        Ok((commitments, economic_events)) => Ok(
            construct_response(id, new_revision, &new_entry, commitments, economic_events),
        ),
        Err(e) => Err(e),
    }
}

/// Tombstones the agreement holding the given revision. Its relationship
/// edges are deliberately left alone: cascading edge removal is the
/// caller's responsibility, performed via explicit index calls.
pub fn handle_delete_agreement(store: &mut Store<EntryData>, address: RevisionAddress) -> (r:
    Result<bool, RecordError>)
    requires
        old(store).wf(),
    ensures
        final(store).wf(),
        final(store).graph() == old(store).graph(),
        match r {
            Ok(b) => {
                &&& b == true
                &&& old(store).has_revision(address)
                &&& old(store).is_live(old(store).revision_owner(address))
                &&& !final(store).is_live(old(store).revision_owner(address))
                &&& final(store).has_record(old(store).revision_owner(address))
                &&& final(store).chain(old(store).revision_owner(address)) == old(store).chain(
                    old(store).revision_owner(address),
                )
                &&& (forall|id2: IdentityAddress|
                    id2 != old(store).revision_owner(address) ==> #[trigger] record_unchanged(
                        *old(store),
                        *final(store),
                        id2,
                    ))
            },
            Err(RecordError::NotFound) => {
                &&& (!old(store).has_revision(address) || !old(store).is_live(
                    old(store).revision_owner(address),
                ))
                &&& store_unchanged(*old(store), *final(store))
            },
            Err(_) => false,
        },
{
    store.delete(address)
}

} // verus!
