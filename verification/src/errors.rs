//! The error taxonomy shared by the record store and the index managers.

use vstd::prelude::*;

verus! {

/// Everything that can go wrong while reading records or maintaining edges.
///
/// Record-store failures abort the enclosing operation (fail-fast); edge
/// failures are reported per edge and never cancel the other edges
/// (fail-soft).
#[derive(Clone, Copy, Debug, PartialEq, Eq, Structural)]
pub enum RecordError {
    /// The addressed record does not exist, or has been tombstoned.
    NotFound,
    /// The stored content cannot be decoded as the requested record type.
    SerializationError,
    /// A traversed edge does not resolve to a valid record identity.
    LinkIntegrityError,
    /// A call into another storage domain failed, or was rejected there.
    RemoteCallError,
    /// One half of a bidirectional edge operation failed while the other
    /// half succeeded.
    PartialIndexFailure,
}

impl RecordError {
    /// A short, stable description of the failure.
    pub fn describe(&self) -> (r: &'static str)
        ensures
            r@ =~= match self {
                RecordError::NotFound => "entry does not exist"@,
                RecordError::SerializationError => "could not decode entry"@,
                RecordError::LinkIntegrityError => "linked entry is not a valid identity"@,
                RecordError::RemoteCallError => "remote index call failed"@,
                RecordError::PartialIndexFailure => "one half of the index operation failed"@,
            },
    {
        match self {
            RecordError::NotFound => "entry does not exist",
            RecordError::SerializationError => "could not decode entry",
            RecordError::LinkIntegrityError => "linked entry is not a valid identity",
            RecordError::RemoteCallError => "remote index call failed",
            RecordError::PartialIndexFailure => "one half of the index operation failed",
        }
    }
}

/// Collapses a per-edge report into one overall outcome, for callers that
/// treat any failed half as fatal. Success only when every edge succeeded
/// (or none was touched); `PartialIndexFailure` when some edges succeeded
/// and some failed, so the caller can see the graph was left one-sided; and
/// the first edge's own error when every edge failed.
pub fn summarize_results<T>(results: &Vec<Result<T, RecordError>>) -> (r: Result<(), RecordError>)
    ensures
        ({
            let rs = results@;
            match r {
                Ok(u) => forall|i: int| 0 <= i < rs.len() ==> (#[trigger] rs[i]) is Ok,
                Err(e) => {
                    &&& (exists|i: int| 0 <= i < rs.len() && (#[trigger] rs[i]) is Err)
                    &&& if exists|i: int| 0 <= i < rs.len() && (#[trigger] rs[i]) is Ok {
                        e == RecordError::PartialIndexFailure
                    } else {
                        rs[0] matches Err(first) && e == first
                    }
                },
            }
        }),
{
    let n = results.len();
    let mut saw_ok = false;
    let mut first_err: Option<RecordError> = None;
    let mut i: usize = 0;
    while i < n
        invariant
            n == results@.len(),
            i <= n,
            saw_ok == (exists|j: int| 0 <= j < i && (#[trigger] results@[j]) is Ok),
            first_err is None ==> (forall|j: int| 0 <= j < i ==> (#[trigger] results@[j]) is Ok),
            first_err is Some ==> (exists|j: int| 0 <= j < i && (#[trigger] results@[j]) is Err),
            ((forall|j: int| 0 <= j < i ==> (#[trigger] results@[j]) is Err) && i > 0) ==> (
            results@[0] matches Err(first) && first_err == Some(first)),
        decreases n - i,
    {
        match &results[i] {
            Ok(_) => {
                saw_ok = true;
                proof {
                    assert(results@[i as int] is Ok);
                }
            },
            Err(e) => {
                if first_err.is_none() {
                    first_err = Some(*e);
                }
                proof {
                    assert(results@[i as int] is Err);
                }
            },
        }
        i = i + 1;
    }
    match first_err {
        None => Ok(()),
        Some(e) => {
            if saw_ok {
                Err(RecordError::PartialIndexFailure)
            } else {
                proof {
                    assert forall|j: int| 0 <= j < n implies (#[trigger] results@[j]) is Err by {
                        if results@[j] is Ok {
                            assert(exists|k: int|
                                0 <= k < n && (#[trigger] results@[k]) is Ok);
                        }
                    }
                }
                Err(e)
            }
        },
    }
}

} // verus!
