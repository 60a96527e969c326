//! Identity, revision and anchor addresses, and the resolver between them.
//!
//! An identity address is a stable, content-independent pointer to a record's
//! logical identity; it is assigned once, at the first write, and never
//! changes across updates. A revision address points at one immutable
//! snapshot of the record. An anchor is the deterministic address derived
//! from a type name (and optionally a seed identity) from which relationship
//! edges originate; deriving it from its parts alone makes it pure and
//! collision-resistant by construction.

use vstd::prelude::*;

use crate::errors::RecordError;

verus! {

/// Stable pointer to a record's logical identity.
#[derive(Clone, Copy, Debug, PartialEq, Eq, Structural, Hash)]
pub struct IdentityAddress {
    pub raw: u64,
}

/// Content-addressed pointer to one immutable revision of a record.
#[derive(Clone, Copy, Debug, PartialEq, Eq, Structural, Hash)]
pub struct RevisionAddress {
    pub raw: u64,
}

/// Address of an anchor node: the root anchor of a record type (no seed), or
/// the per-record anchor of one identity under that type.
#[derive(Debug)]
pub struct AnchorAddress {
    pub entry_type: String,
    pub base: Option<IdentityAddress>,
}

/// The mathematical value of an `AnchorAddress`.
pub struct AnchorModel {
    pub entry_type: Seq<char>,
    pub base: Option<IdentityAddress>,
}

impl View for AnchorAddress {
    type V = AnchorModel;

    open spec fn view(&self) -> AnchorModel {
        AnchorModel { entry_type: self.entry_type@, base: self.base }
    }
}

/// The model of the root anchor for a record type.
pub open spec fn root_anchor(entry_type: Seq<char>) -> AnchorModel {
    AnchorModel { entry_type, base: None }
}

/// The model of the per-record anchor of `seed` under a record type.
pub open spec fn identity_anchor(entry_type: Seq<char>, seed: IdentityAddress) -> AnchorModel {
    AnchorModel { entry_type, base: Some(seed) }
}

impl Clone for AnchorAddress {
    fn clone(&self) -> (r: Self)
        ensures
            r == *self,
    {
        AnchorAddress { entry_type: self.entry_type.clone(), base: self.base }
    }
}

impl AnchorAddress {
    /// True when both anchors name the same type and the same seed.
    pub fn matches(&self, other: &AnchorAddress) -> (r: bool)
        ensures
            r == (self@ == other@),
    {
        let types_equal = self.entry_type == other.entry_type;
        let bases_equal = match (self.base, other.base) {
            (Some(a), Some(b)) => a == b,
            (None, None) => true,
            _ => false,
        };
        types_equal && bases_equal
    }
}

/// Canonical anchor representing "all records of this type".
pub fn root_path_for(entry_type: &String) -> (a: AnchorAddress)
    ensures
        a@ == root_anchor(entry_type@),
{
    AnchorAddress { entry_type: entry_type.clone(), base: None }
}

/// Deterministic anchor address combining a type's root path and a seed
/// identity. Pure: the address is a function of its two parts alone.
pub fn anchor_for(entry_type: &String, seed: IdentityAddress) -> (a: AnchorAddress)
    ensures
        a@ == identity_anchor(entry_type@, seed),
{
    AnchorAddress { entry_type: entry_type.clone(), base: Some(seed) }
}

/// Anchor derivation is collision-resistant: two anchors collide only when
/// they were derived from the same type name and the same seed.
pub proof fn lemma_anchor_collision_resistant(
    type_a: Seq<char>,
    seed_a: IdentityAddress,
    type_b: Seq<char>,
    seed_b: IdentityAddress,
)
    ensures
        identity_anchor(type_a, seed_a) == identity_anchor(type_b, seed_b) <==> (type_a == type_b
            && seed_a == seed_b),
        root_anchor(type_a) != identity_anchor(type_b, seed_b),
{
}

/// Dereferences a link destination down to the canonical record identity it
/// stands for. A root anchor names a whole type, not one record, so it does
/// not resolve.
pub fn resolve_identity(target: &AnchorAddress) -> (r: Result<IdentityAddress, RecordError>)
    ensures
        match target.base {
            Some(id) => r == Ok::<IdentityAddress, RecordError>(id),
            None => r == Err::<IdentityAddress, RecordError>(RecordError::LinkIntegrityError),
        },
{
    match target.base {
        Some(id) => Ok(id),
        None => Err(RecordError::LinkIntegrityError),
    }
}

} // verus!
