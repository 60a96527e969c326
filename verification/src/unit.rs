//! The unit-of-measure record kind: the smallest record shape the engine
//! stores, with its requests, its response wrapping and its merge logic.

use vstd::prelude::*;

use crate::identity::IdentityAddress;
use crate::maybe_undefined::MaybeUndefined;
use crate::record_interface::{Duplicable, Updateable};

verus! {

/// The stored content of a unit record.
#[derive(Debug, PartialEq)]
pub struct Entry {
    pub name: String,
    pub symbol: String,
}

impl Duplicable for Entry {
    fn duplicate(&self) -> (r: Self)
        ensures
            r == *self,
    {
        Entry { name: self.name.clone(), symbol: self.symbol.clone() }
    }
}

/// The input record describing a unit to create.
#[derive(Debug)]
pub struct CreateRequest {
    pub name: String,
    pub symbol: String,
}

/// The entry a create request describes.
pub open spec fn entry_from(e: CreateRequest) -> Entry {
    Entry { name: e.name, symbol: e.symbol }
}

/// Pick relevant fields out of the input record into the stored entry.
impl From<CreateRequest> for Entry {
    fn from(e: CreateRequest) -> (r: Entry) {
        Entry { name: e.name, symbol: e.symbol }
    }
}

impl vstd::std_specs::convert::FromSpecImpl<CreateRequest> for Entry {
    open spec fn obeys_from_spec() -> bool {
        true
    }

    open spec fn from_spec(e: CreateRequest) -> Entry {
        entry_from(e)
    }
}

/// The input record describing how to change an existing unit. Both fields
/// of a unit are required, so a request clearing one is not accepted.
#[derive(Debug)]
pub struct UpdateRequest {
    pub id: IdentityAddress,
    pub name: MaybeUndefined<String>,
    pub symbol: MaybeUndefined<String>,
}

impl UpdateRequest {
    /// The identity of the unit the request addresses.
    pub fn get_id(&self) -> (r: IdentityAddress)
        ensures
            r == self.id,
    {
        self.id
    }
}

/// Handles update operations by merging any newly provided fields.
impl Updateable<UpdateRequest> for Entry {
    open spec fn merged_with(self, e: UpdateRequest) -> Entry {
        Entry {
            name: match e.name {
                MaybeUndefined::Defined(v) => v,
                _ => self.name,
            },
            symbol: match e.symbol {
                MaybeUndefined::Defined(v) => v,
                _ => self.symbol,
            },
        }
    }

    open spec fn update_allowed(e: UpdateRequest) -> bool {
        !(e.name is Null) && !(e.symbol is Null)
    }

    fn update_with(&self, e: &UpdateRequest) -> (r: Entry) {
        Entry {
            name: match &e.name {
                MaybeUndefined::Defined(v) => v.clone(),
                MaybeUndefined::Undefined => self.name.clone(),
                MaybeUndefined::Null => vstd::pervasive::unreached(),
            },
            symbol: match &e.symbol {
                MaybeUndefined::Defined(v) => v.clone(),
                MaybeUndefined::Undefined => self.symbol.clone(),
                MaybeUndefined::Null => vstd::pervasive::unreached(),
            },
        }
    }
}

/// The complete output record.
#[derive(Debug, PartialEq)]
pub struct Response {
    pub id: IdentityAddress,
    pub name: String,
    pub symbol: String,
}

/// What is returned outside the gateway.
#[derive(Debug, PartialEq)]
pub struct ResponseData {
    pub process: Response,
}

/// Wraps a stored entry and its identity into the output record.
pub fn construct_response(address: IdentityAddress, e: &Entry) -> (r: ResponseData)
    ensures
        r.process.id == address,
        r.process.name == e.name,
        r.process.symbol == e.symbol,
{
    ResponseData {
        process: Response { id: address, name: e.name.clone(), symbol: e.symbol.clone() },
    }
}

} // verus!
