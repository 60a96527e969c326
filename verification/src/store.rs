//! One storage domain: versioned records plus the tagged edges between their
//! anchors.
//!
//! A record is created once, gaining a stable identity address and a first
//! revision; every update appends a new immutable revision to its chain; a
//! delete tombstones it. Writes are append-only and a record's identity never
//! moves. Edges live beside the records and are never touched by record
//! deletion: cascading edge removal is the caller's responsibility.
//!
//! All contracts are stated over the store's mathematical model: the record
//! observers defined here and the edge-set model of `crate::graph`.

use vstd::prelude::*;

use crate::errors::RecordError;
use crate::graph::{clear_tag, edges_from, graph_has, graph_remove, push_missing, Edge, EdgeModel};
use crate::graph::{lemma_clear_tag_no_duplicates, lemma_graph_remove_props, lemma_push_missing_no_duplicates};
use crate::identity::{AnchorAddress, IdentityAddress, RevisionAddress};
use crate::record_interface::{Duplicable, Updateable};

verus! {

/// One immutable snapshot of a record's content.
pub struct Revision<T> {
    pub address: RevisionAddress,
    pub entry: T,
}

/// A record: its identity, its type, its revision chain in order of writing,
/// and its tombstone flag.
pub struct RecordSlot<T> {
    pub identity: IdentityAddress,
    pub entry_type: String,
    pub revisions: Vec<Revision<T>>,
    pub deleted: bool,
}

/// The revision chain of a record, as (address, content) pairs in order of
/// writing; the last pair is current.
pub open spec fn slot_chain<T>(s: RecordSlot<T>) -> Seq<(RevisionAddress, T)> {
    Seq::new(s.revisions@.len() as nat, |k: int| (s.revisions@[k].address, s.revisions@[k].entry))
}

/// The identities in `rs` whose record was created under type `t`, in
/// order.
pub open spec fn typed_ids_of<T>(rs: Seq<RecordSlot<T>>, t: Seq<char>) -> Seq<IdentityAddress>
    decreases rs.len(),
{
    if rs.len() == 0 {
        Seq::empty()
    } else if rs.last().entry_type@ == t {
        typed_ids_of(rs.drop_last(), t).push(rs.last().identity)
    } else {
        typed_ids_of(rs.drop_last(), t)
    }
}

/// One storage domain.
pub struct Store<T> {
    pub records: Vec<RecordSlot<T>>,
    pub edges: Vec<Edge>,
    pub next_handle: u64,
}

impl<T> Store<T> {
    /// The model of this domain's edge set, in creation order.
    pub open spec fn graph(self) -> Seq<EdgeModel> {
        Seq::new(self.edges@.len() as nat, |i: int| self.edges@[i]@)
    }

    /// The identities of all records, in creation order.
    pub open spec fn rec_ids(self) -> Seq<IdentityAddress> {
        Seq::new(self.records@.len() as nat, |i: int| self.records@[i].identity)
    }

    /// The identities of the records created under this type name, in
    /// creation order.
    pub open spec fn typed_ids(self, t: Seq<char>) -> Seq<IdentityAddress> {
        typed_ids_of(self.records@, t)
    }

    /// Whether a record with this identity was ever created.
    pub open spec fn has_record(self, id: IdentityAddress) -> bool {
        exists|i: int|
            0 <= i < self.records@.len() && (#[trigger] self.records@[i]).identity == id
    }

    /// The position of the record with this identity.
    pub open spec fn index_of(self, id: IdentityAddress) -> int {
        choose|i: int| 0 <= i < self.records@.len() && (#[trigger] self.records@[i]).identity == id
    }

    /// The record with this identity.
    pub open spec fn slot_of(self, id: IdentityAddress) -> RecordSlot<T> {
        self.records@[self.index_of(id)]
    }

    /// The type name the record was created under.
    pub open spec fn record_type(self, id: IdentityAddress) -> Seq<char> {
        self.slot_of(id).entry_type@
    }

    /// Whether the record has been tombstoned.
    pub open spec fn is_deleted(self, id: IdentityAddress) -> bool {
        self.slot_of(id).deleted
    }

    /// Whether the record exists and is not tombstoned.
    pub open spec fn is_live(self, id: IdentityAddress) -> bool {
        self.has_record(id) && !self.is_deleted(id)
    }

    /// The record's revision chain.
    pub open spec fn chain(self, id: IdentityAddress) -> Seq<(RevisionAddress, T)> {
        slot_chain(self.slot_of(id))
    }

    /// The record's current content.
    pub open spec fn current_entry(self, id: IdentityAddress) -> T {
        self.chain(id).last().1
    }

    /// The address of the record's current revision.
    pub open spec fn current_revision(self, id: IdentityAddress) -> RevisionAddress {
        self.chain(id).last().0
    }

    /// Whether (record position, revision position) is in range.
    pub open spec fn rev_in(self, i: int, k: int) -> bool {
        0 <= i < self.records@.len() && 0 <= k < self.records@[i].revisions@.len()
    }

    /// The revision address at (record position, revision position).
    pub open spec fn rev_addr(self, i: int, k: int) -> RevisionAddress {
        self.records@[i].revisions@[k].address
    }

    /// Whether any record holds a revision at this address.
    pub open spec fn has_revision(self, rv: RevisionAddress) -> bool {
        exists|i: int, k: int| self.rev_in(i, k) && #[trigger] self.rev_addr(i, k) == rv
    }

    /// The (record position, revision position) of this revision address.
    pub open spec fn rev_pos(self, rv: RevisionAddress) -> (int, int) {
        choose|i: int, k: int| self.rev_in(i, k) && #[trigger] self.rev_addr(i, k) == rv
    }

    /// The identity of the record holding this revision.
    pub open spec fn revision_owner(self, rv: RevisionAddress) -> IdentityAddress {
        self.records@[self.rev_pos(rv).0].identity
    }

    /// The content stored at this revision.
    pub open spec fn revision_entry(self, rv: RevisionAddress) -> T {
        self.records@[self.rev_pos(rv).0].revisions@[self.rev_pos(rv).1].entry
    }

    /// Whether `n` more addresses can still be assigned.
    pub open spec fn can_allocate(self, n: int) -> bool {
        self.next_handle + n <= u64::MAX
    }

    /// Well-formedness of the record side: one record per identity, no empty
    /// revision chain, every assigned address below the allocation counter,
    /// and no two revisions sharing an address.
    pub open spec fn records_wf(self) -> bool {
        &&& (forall|i: int, j: int|
            0 <= i < j < self.records@.len() ==> (#[trigger] self.records@[i]).identity != (
            #[trigger] self.records@[j]).identity)
        &&& (forall|i: int|
            0 <= i < self.records@.len() ==> (#[trigger] self.records@[i]).revisions@.len() > 0)
        &&& (forall|i: int|
            0 <= i < self.records@.len() ==> (#[trigger] self.records@[i]).identity.raw
                < self.next_handle)
        &&& (forall|i: int, k: int|
            self.rev_in(i, k) ==> (#[trigger] self.rev_addr(i, k)).raw < self.next_handle)
        &&& (forall|i: int, k: int, j: int, l: int|
            self.rev_in(i, k) && self.rev_in(j, l) && (i != j || k != l) ==> #[trigger] self
                .rev_addr(i, k) != #[trigger] self.rev_addr(j, l))
    }

    /// Well-formedness: a duplicate-free edge set beside well-formed records.
    pub open spec fn wf(self) -> bool {
        self.graph().no_duplicates() && self.records_wf()
    }
}

/// Record well-formedness carries over to any store holding the same records
/// under the same allocation counter.
pub proof fn lemma_records_wf_same<T>(a: Store<T>, b: Store<T>)
    requires
        a.records_wf(),
        b.records@ == a.records@,
        b.next_handle == a.next_handle,
    ensures
        b.records_wf(),
{
    assert forall|i: int, k: int| b.rev_in(i, k) implies (#[trigger] b.rev_addr(i, k)).raw
        < b.next_handle by {
        assert(a.rev_in(i, k));
        assert(a.rev_addr(i, k) == b.rev_addr(i, k));
    }
    assert forall|i: int, k: int, j: int, l: int|
        b.rev_in(i, k) && b.rev_in(j, l) && (i != j || k != l) implies #[trigger] b.rev_addr(i, k)
        != #[trigger] b.rev_addr(j, l) by {
        assert(a.rev_in(i, k) && a.rev_in(j, l));
        assert(a.rev_addr(i, k) == b.rev_addr(i, k) && a.rev_addr(j, l) == b.rev_addr(j, l));
    }
}

/// Both stores hold the same records: used to say that an operation left the
/// record side of a store alone.
pub open spec fn records_unchanged<T>(pre: Store<T>, post: Store<T>) -> bool {
    post.records@ == pre.records@ && post.next_handle == pre.next_handle
}

/// The record with this identity reads the same in both stores.
pub open spec fn record_unchanged<T>(
    pre: Store<T>,
    post: Store<T>,
    id: IdentityAddress,
) -> bool {
    &&& post.has_record(id) == pre.has_record(id)
    &&& (pre.has_record(id) ==> {
        &&& post.record_type(id) == pre.record_type(id)
        &&& post.is_deleted(id) == pre.is_deleted(id)
        &&& post.chain(id) == pre.chain(id)
    })
}

/// Nothing observable about the store changed.
pub open spec fn store_unchanged<T>(pre: Store<T>, post: Store<T>) -> bool {
    post.records@ == pre.records@ && post.edges@ == pre.edges@ && post.next_handle
        == pre.next_handle
}

impl<T> Store<T> {
    /// An empty storage domain.
    pub fn new() -> (s: Store<T>)
        ensures
            s.wf(),
            s.records@.len() == 0,
            s.edges@.len() == 0,
            s.next_handle == 0,
            s.graph() == Seq::<EdgeModel>::empty(),
            s.rec_ids() == Seq::<IdentityAddress>::empty(),
    {
        let s = Store { records: Vec::new(), edges: Vec::new(), next_handle: 0 };
        proof {
            assert(s.graph() =~= Seq::<EdgeModel>::empty());
            assert(s.rec_ids() =~= Seq::<IdentityAddress>::empty());
        }
        s
    }

    /// The record position holding this identity, if any.
    pub(crate) fn find_record_index(&self, id: IdentityAddress) -> (r: Option<usize>)
        requires
            self.wf(),
        ensures
            match r {
                Some(i) => {
                    &&& i < self.records@.len()
                    &&& self.records@[i as int].identity == id
                    &&& self.has_record(id)
                    &&& self.index_of(id) == i as int
                },
                None => !self.has_record(id),
            },
    {
        let n = self.records.len();
        let mut i: usize = 0;
        while i < n
            invariant
                n == self.records@.len(),
                i <= n,
                self.wf(),
                forall|j: int| 0 <= j < i ==> (#[trigger] self.records@[j]).identity != id,
            decreases n - i,
        {
            if self.records[i].identity == id {
                proof {
                    let j = self.index_of(id);
                    assert(0 <= j < self.records@.len() && self.records@[j].identity == id);
                    if j != i as int {
                        assert(self.records@[j].identity != self.records@[i as int].identity);
                    }
                }
                return Some(i);
            }
            i = i + 1;
        }
        None
    }

    /// The (record, revision) position holding this revision address, if any.
    fn find_revision_pos(&self, rv: RevisionAddress) -> (r: Option<(usize, usize)>)
        requires
            self.wf(),
        ensures
            match r {
                Some((i, k)) => {
                    &&& self.rev_in(i as int, k as int)
                    &&& self.rev_addr(i as int, k as int) == rv
                    &&& self.has_revision(rv)
                    &&& self.rev_pos(rv) == (i as int, k as int)
                },
                None => !self.has_revision(rv),
            },
    {
        let n = self.records.len();
        let mut i: usize = 0;
        while i < n
            invariant
                n == self.records@.len(),
                i <= n,
                self.wf(),
                forall|j: int, l: int|
                    0 <= j < i && self.rev_in(j, l) ==> #[trigger] self.rev_addr(j, l) != rv,
            decreases n - i,
        {
            let m = self.records[i].revisions.len();
            let mut k: usize = 0;
            while k < m
                invariant
                    n == self.records@.len(),
                    i < n,
                    m == self.records@[i as int].revisions@.len(),
                    k <= m,
                    self.wf(),
                    forall|j: int, l: int|
                        0 <= j < i && self.rev_in(j, l) ==> #[trigger] self.rev_addr(j, l) != rv,
                    forall|l: int|
                        0 <= l < k ==> #[trigger] self.rev_addr(i as int, l) != rv,
                decreases m - k,
            {
                if self.records[i].revisions[k].address == rv {
                    proof {
                        assert(self.rev_in(i as int, k as int));
                        assert(self.rev_addr(i as int, k as int) == rv);
                        assert(self.has_revision(rv));
                        let (j, l) = self.rev_pos(rv);
                        assert(self.rev_in(j, l) && self.rev_addr(j, l) == rv);
                        if j != i as int || l != k as int {
                            assert(self.rev_addr(j, l) != self.rev_addr(i as int, k as int));
                        }
                    }
                    return Some((i, k));
                }
                k = k + 1;
            }
            i = i + 1;
        }
        proof {
            if self.has_revision(rv) {
                let (j, l) = self.rev_pos(rv);
                assert(self.rev_addr(j, l) != rv);
            }
        }
        None
    }

    /// Appends an edge unless an equal edge already exists: edge creation is
    /// idempotent and never fails locally.
    pub fn push_edge(&mut self, e: Edge)
        requires
            old(self).wf(),
        ensures
            final(self).wf(),
            records_unchanged(*old(self), *final(self)),
            final(self).graph() == push_missing(old(self).graph(), e@),
    {
        let ghost g0 = self.graph();
        let n = self.edges.len();
        let mut i: usize = 0;
        while i < n
            invariant
                n == self.edges@.len(),
                i <= n,
                self.wf(),
                self.graph() == g0,
                *self == *old(self),
                forall|j: int| 0 <= j < i ==> self.graph()[j] != e@,
            decreases n - i,
        {
            if self.edges[i].matches(&e) {
                proof {
                    assert(self.graph()[i as int] == e@);
                    assert(graph_has(g0, e@));
                }
                return ;
            }
            i = i + 1;
        }
        proof {
            if graph_has(g0, e@) {
                let j = choose|j: int| 0 <= j < g0.len() && g0[j] == e@;
                assert(g0[j] != e@);
            }
        }
        let ghost e0 = e@;
        self.edges.push(e);
        proof {
            lemma_records_wf_same(*old(self), *self);
            assert(self.graph() =~= g0.push(e0));
            lemma_push_missing_no_duplicates(g0, e0);
            assert(self.graph() == push_missing(g0, e0));
        }
    }

    /// Removes the edge between these anchors under this tag, if present.
    pub fn remove_edge(&mut self, e: &Edge)
        requires
            old(self).wf(),
        ensures
            final(self).wf(),
            records_unchanged(*old(self), *final(self)),
            final(self).graph() == graph_remove(old(self).graph(), e@),
    {
        let ghost g0 = self.graph();
        let n = self.edges.len();
        let mut kept: Vec<Edge> = Vec::new();
        proof {
            assert(g0.subrange(0, 0) =~= Seq::<EdgeModel>::empty());
            assert(Seq::new(kept@.len() as nat, |j: int| kept@[j]@) =~= graph_remove(
                g0.subrange(0, 0),
                e@,
            ));
        }
        let mut i: usize = 0;
        while i < n
            invariant
                n == self.edges@.len(),
                i <= n,
                self.wf(),
                self.graph() == g0,
                *self == *old(self),
                Seq::new(kept@.len() as nat, |j: int| kept@[j]@) == graph_remove(
                    g0.subrange(0, i as int),
                    e@,
                ),
            decreases n - i,
        {
            let ghost pre = g0.subrange(0, i as int);
            let ghost cur = g0.subrange(0, i as int + 1);
            proof {
                assert(cur.drop_last() =~= pre);
                assert(cur.last() == g0[i as int]);
            }
            if self.edges[i].matches(e) {
                proof {
                    assert(g0[i as int] == e@);
                    assert(graph_remove(cur, e@) == graph_remove(pre, e@));
                }
            } else {
                kept.push(self.edges[i].clone());
                proof {
                    assert(g0[i as int] != e@);
                    assert(graph_remove(cur, e@) == graph_remove(pre, e@).push(g0[i as int]));
                    assert(Seq::new(kept@.len() as nat, |j: int| kept@[j]@) =~= graph_remove(
                        cur,
                        e@,
                    ));
                }
            }
            i = i + 1;
        }
        proof {
            assert(g0.subrange(0, n as int) =~= g0);
        }
        self.edges = kept;
        proof {
            lemma_records_wf_same(*old(self), *self);
            assert(self.graph() =~= graph_remove(g0, e@));
            lemma_graph_remove_props(g0, e@);
        }
    }

    /// Removes every edge leaving `source` under `tag` and returns them in
    /// creation order.
    pub fn remove_tagged(&mut self, source: &AnchorAddress, tag: &String) -> (removed: Vec<Edge>)
        requires
            old(self).wf(),
        ensures
            final(self).wf(),
            records_unchanged(*old(self), *final(self)),
            final(self).graph() == clear_tag(old(self).graph(), source@, tag@),
            Seq::new(removed@.len() as nat, |i: int| removed@[i]@) == edges_from(
                old(self).graph(),
                source@,
                tag@,
            ),
    {
        let ghost g0 = self.graph();
        let n = self.edges.len();
        let mut kept: Vec<Edge> = Vec::new();
        let mut removed: Vec<Edge> = Vec::new();
        proof {
            assert(g0.subrange(0, 0) =~= Seq::<EdgeModel>::empty());
            assert(Seq::new(kept@.len() as nat, |j: int| kept@[j]@) =~= clear_tag(
                g0.subrange(0, 0),
                source@,
                tag@,
            ));
            assert(Seq::new(removed@.len() as nat, |j: int| removed@[j]@) =~= edges_from(
                g0.subrange(0, 0),
                source@,
                tag@,
            ));
        }
        let mut i: usize = 0;
        while i < n
            invariant
                n == self.edges@.len(),
                i <= n,
                self.wf(),
                self.graph() == g0,
                *self == *old(self),
                Seq::new(kept@.len() as nat, |j: int| kept@[j]@) == clear_tag(
                    g0.subrange(0, i as int),
                    source@,
                    tag@,
                ),
                Seq::new(removed@.len() as nat, |j: int| removed@[j]@) == edges_from(
                    g0.subrange(0, i as int),
                    source@,
                    tag@,
                ),
            decreases n - i,
        {
            let ghost pre = g0.subrange(0, i as int);
            let ghost cur = g0.subrange(0, i as int + 1);
            proof {
                assert(cur.drop_last() =~= pre);
                assert(cur.last() == g0[i as int]);
            }
            let tag_matches = self.edges[i].source.matches(source) && self.edges[i].tag == *tag;
            if tag_matches {
                removed.push(self.edges[i].clone());
                proof {
                    assert(g0[i as int].source == source@ && g0[i as int].tag == tag@);
                    assert(clear_tag(cur, source@, tag@) == clear_tag(pre, source@, tag@));
                    assert(Seq::new(removed@.len() as nat, |j: int| removed@[j]@) =~= edges_from(
                        cur,
                        source@,
                        tag@,
                    ));
                }
            } else {
                kept.push(self.edges[i].clone());
                proof {
                    assert(!(g0[i as int].source == source@ && g0[i as int].tag == tag@));
                    assert(edges_from(cur, source@, tag@) == edges_from(pre, source@, tag@));
                    assert(Seq::new(kept@.len() as nat, |j: int| kept@[j]@) =~= clear_tag(
                        cur,
                        source@,
                        tag@,
                    ));
                }
            }
            i = i + 1;
        }
        proof {
            assert(g0.subrange(0, n as int) =~= g0);
        }
        self.edges = kept;
        proof {
            lemma_records_wf_same(*old(self), *self);
            assert(self.graph() =~= clear_tag(g0, source@, tag@));
            lemma_clear_tag_no_duplicates(g0, source@, tag@);
            assert(Seq::new(removed@.len() as nat, |i: int| removed@[i]@) =~= edges_from(
                g0,
                source@,
                tag@,
            ));
        }
        removed
    }
}

/// What `read` must return for a given store, type and identity: the
/// contract of `read`, as one deterministic function of the model.
pub open spec fn read_result<T>(s: Store<T>, t: Seq<char>, id: IdentityAddress) -> Result<
    (RevisionAddress, T),
    RecordError,
> {
    if !s.is_live(id) {
        Err(RecordError::NotFound)
    } else if s.record_type(id) != t {
        Err(RecordError::SerializationError)
    } else {
        Ok((s.current_revision(id), s.current_entry(id)))
    }
}

/// Every pair in a record's chain is a retrievable revision of that record.
pub proof fn lemma_chain_revision<T>(s: Store<T>, id: IdentityAddress, k: int)
    requires
        s.wf(),
        s.has_record(id),
        0 <= k < s.chain(id).len(),
    ensures
        s.has_revision(s.chain(id)[k].0),
        s.revision_owner(s.chain(id)[k].0) == id,
        s.revision_entry(s.chain(id)[k].0) == s.chain(id)[k].1,
{
    let i = s.index_of(id);
    lemma_index_of_is(s, id, i);
    assert(s.rev_in(i, k));
    assert(s.rev_addr(i, k) == s.chain(id)[k].0);
    lemma_rev_pos_is(s, s.chain(id)[k].0, i, k);
}

/// The chosen record position agrees with any witness position.
pub proof fn lemma_index_of_is<T>(s: Store<T>, id: IdentityAddress, i: int)
    requires
        s.records_wf(),
        0 <= i < s.records@.len(),
        s.records@[i].identity == id,
    ensures
        s.has_record(id),
        s.index_of(id) == i,
{
    assert(s.has_record(id));
    let j = s.index_of(id);
    if j < i {
        assert(s.records@[j].identity != s.records@[i].identity);
    } else if j > i {
        assert(s.records@[i].identity != s.records@[j].identity);
    }
}

/// The chosen revision position agrees with any witness position.
pub proof fn lemma_rev_pos_is<T>(s: Store<T>, rv: RevisionAddress, i: int, k: int)
    requires
        s.records_wf(),
        s.rev_in(i, k),
        s.rev_addr(i, k) == rv,
    ensures
        s.has_revision(rv),
        s.rev_pos(rv) == (i, k),
{
    assert(s.has_revision(rv));
    let (j, l) = s.rev_pos(rv);
    if j != i || l != k {
        assert(s.rev_addr(i, k) != s.rev_addr(j, l));
    }
}

impl<T: Duplicable> Store<T> {
    /// Writes a new record: a fresh identity, a first revision holding
    /// `payload`, registered under `entry_type`. Returns the new revision
    /// address, the identity, and the stored content. Never fails; edges are
    /// untouched.
    pub fn create(&mut self, entry_type: &String, payload: T) -> (r: (
        RevisionAddress,
        IdentityAddress,
        T,
    ))
        requires
            old(self).wf(),
            old(self).can_allocate(2),
        ensures
            final(self).wf(),
            !old(self).has_record(r.1),
            !old(self).has_revision(r.0),
            final(self).has_record(r.1),
            final(self).is_live(r.1),
            final(self).record_type(r.1) == entry_type@,
            final(self).chain(r.1) == seq![(r.0, payload)],
            final(self).current_entry(r.1) == payload,
            final(self).current_revision(r.1) == r.0,
            final(self).has_revision(r.0),
            final(self).revision_owner(r.0) == r.1,
            final(self).revision_entry(r.0) == payload,
            r.2 == payload,
            final(self).rec_ids() == old(self).rec_ids().push(r.1),
            forall|id2: IdentityAddress|
                id2 != r.1 ==> #[trigger] record_unchanged(*old(self), *final(self), id2),
            final(self).graph() == old(self).graph(),
            final(self).edges@ == old(self).edges@,
            final(self).next_handle == old(self).next_handle + 2,
    {
        let id = IdentityAddress { raw: self.next_handle };
        let rv = RevisionAddress { raw: self.next_handle + 1 };
        self.next_handle = self.next_handle + 2;
        let returned = payload.duplicate();
        let mut revisions: Vec<Revision<T>> = Vec::new();
        revisions.push(Revision { address: rv, entry: payload });
        let slot = RecordSlot {
            identity: id,
            entry_type: entry_type.clone(),
            revisions,
            deleted: false,
        };
        self.records.push(slot);
        proof {
            let pre = *old(self);
            let post = *self;
            let n = pre.records@.len() as int;
            assert(post.records@ == pre.records@.push(slot));
            assert(post.records@[n] == slot);
            assert(forall|i: int| 0 <= i < n ==> post.records@[i] == pre.records@[i]);
            assert(!pre.has_record(id)) by {
                if pre.has_record(id) {
                    let i = choose|i: int|
                        0 <= i < pre.records@.len() && (#[trigger] pre.records@[i]).identity == id;
                    assert(pre.records@[i].identity.raw < pre.next_handle);
                }
            }
            assert(!pre.has_revision(rv)) by {
                if pre.has_revision(rv) {
                    let (i, k) = pre.rev_pos(rv);
                    assert(pre.rev_addr(i, k).raw < pre.next_handle);
                }
            }
            assert forall|i: int, k: int| post.rev_in(i, k) implies (#[trigger] post.rev_addr(
                i,
                k,
            )).raw < post.next_handle by {
                if i < n {
                    assert(pre.rev_in(i, k));
                    assert(post.rev_addr(i, k) == pre.rev_addr(i, k));
                    assert(pre.rev_addr(i, k).raw < pre.next_handle);
                } else {
                    assert(post.rev_addr(i, k) == rv);
                }
            }
            assert forall|i: int, k: int, j: int, l: int|
                post.rev_in(i, k) && post.rev_in(j, l) && (i != j || k != l) implies #[trigger] post
                .rev_addr(i, k) != #[trigger] post.rev_addr(j, l) by {
                if i < n && j < n {
                    assert(pre.rev_in(i, k) && pre.rev_in(j, l));
                    assert(post.rev_addr(i, k) == pre.rev_addr(i, k));
                    assert(post.rev_addr(j, l) == pre.rev_addr(j, l));
                } else if i < n && j == n {
                    assert(pre.rev_in(i, k));
                    assert(post.rev_addr(i, k) == pre.rev_addr(i, k));
                    assert(pre.rev_addr(i, k).raw < pre.next_handle);
                    assert(post.rev_addr(j, l) == rv);
                } else if i == n && j < n {
                    assert(pre.rev_in(j, l));
                    assert(post.rev_addr(j, l) == pre.rev_addr(j, l));
                    assert(pre.rev_addr(j, l).raw < pre.next_handle);
                    assert(post.rev_addr(i, k) == rv);
                } else {
                    assert(slot.revisions@.len() == 1);
                }
            }
            assert forall|i: int, j: int|
                0 <= i < j < post.records@.len() implies (#[trigger] post.records@[i]).identity != (
            #[trigger] post.records@[j]).identity by {
                if j < n {
                    assert(pre.records@[i].identity != pre.records@[j].identity);
                } else {
                    assert(pre.records@[i].identity.raw < pre.next_handle);
                }
            }
            assert(post.records_wf());
            assert(post.graph() =~= pre.graph());
            assert(post.wf());
            lemma_index_of_is(post, id, n);
            assert(post.chain(id) =~= seq![(rv, payload)]);
            lemma_rev_pos_is(post, rv, n, 0);
            assert(post.rec_ids() =~= pre.rec_ids().push(id));
            assert forall|id2: IdentityAddress| id2 != id implies #[trigger] record_unchanged(
                pre,
                post,
                id2,
            ) by {
                if pre.has_record(id2) {
                    let i = pre.index_of(id2);
                    lemma_index_of_is(post, id2, i);
                    assert(post.slot_of(id2) == pre.slot_of(id2));
                    assert(post.chain(id2) == pre.chain(id2));
                } else {
                    if post.has_record(id2) {
                        let i = choose|i: int|
                            0 <= i < post.records@.len() && (#[trigger] post.records@[i]).identity
                                == id2;
                        assert(i == n);
                    }
                }
            }
        }
        (rv, id, returned)
    }

    /// Returns the current revision and content of the record `address`,
    /// decoded as `entry_type`. Fails `NotFound` when the record is unknown
    /// or tombstoned, `SerializationError` when it was created under another
    /// type.
    pub fn read(&self, entry_type: &String, address: IdentityAddress) -> (r: Result<
        (RevisionAddress, T),
        RecordError,
    >)
        requires
            self.wf(),
        ensures
            match r {
                Ok(p) => {
                    &&& self.is_live(address)
                    &&& self.record_type(address) == entry_type@
                    &&& p.0 == self.current_revision(address)
                    &&& p.1 == self.current_entry(address)
                },
                Err(RecordError::NotFound) => !self.is_live(address),
                Err(RecordError::SerializationError) => self.is_live(address) && self.record_type(
                    address,
                ) != entry_type@,
                Err(_) => false,
            },
            r == read_result(*self, entry_type@, address),
    {
        match self.find_record_index(address) {
            None => Err(RecordError::NotFound),
            Some(i) => {
                if self.records[i].deleted {
                    Err(RecordError::NotFound)
                } else if !(self.records[i].entry_type == *entry_type) {
                    Err(RecordError::SerializationError)
                } else {
                    let m = self.records[i].revisions.len();
                    proof {
                        assert(self.records@[i as int].revisions@.len() > 0);
                    }
                    let rv = self.records[i].revisions[m - 1].address;
                    let entry = self.records[i].revisions[m - 1].entry.duplicate();
                    proof {
                        assert(self.chain(address) == slot_chain(self.records@[i as int]));
                        assert(self.chain(address).last() == (
                            rv,
                            self.records@[i as int].revisions@[m - 1].entry,
                        ));
                    }
                    Ok((rv, entry))
                }
            },
        }
    }

    /// Returns the identity and the content stored at one specific revision,
    /// decoded as `entry_type`. Fails `NotFound` when the revision is unknown
    /// or its record is tombstoned, `SerializationError` on a type mismatch.
    pub fn read_revision(&self, entry_type: &String, revision: RevisionAddress) -> (r: Result<
        (IdentityAddress, T),
        RecordError,
    >)
        requires
            self.wf(),
        ensures
            match r {
                Ok(p) => {
                    &&& self.has_revision(revision)
                    &&& p.0 == self.revision_owner(revision)
                    &&& self.is_live(p.0)
                    &&& self.record_type(p.0) == entry_type@
                    &&& p.1 == self.revision_entry(revision)
                },
                Err(RecordError::NotFound) => !self.has_revision(revision) || !self.is_live(
                    self.revision_owner(revision),
                ),
                Err(RecordError::SerializationError) => {
                    &&& self.has_revision(revision)
                    &&& self.is_live(self.revision_owner(revision))
                    &&& self.record_type(self.revision_owner(revision)) != entry_type@
                },
                Err(_) => false,
            },
    {
        match self.find_revision_pos(revision) {
            None => Err(RecordError::NotFound),
            Some((i, k)) => {
                let id = self.records[i].identity;
                proof {
                    lemma_index_of_is(*self, id, i as int);
                }
                if self.records[i].deleted {
                    Err(RecordError::NotFound)
                } else if !(self.records[i].entry_type == *entry_type) {
                    Err(RecordError::SerializationError)
                } else {
                    let entry = self.records[i].revisions[k].entry.duplicate();
                    Ok((id, entry))
                }
            },
        }
    }
}

impl<T: Duplicable> Store<T> {
    /// Loads the entry stored at `revision`, merges `update` over it, and
    /// writes the result as a new revision of the same record; the new
    /// revision becomes current. Returns the new revision address, the
    /// identity, the new entry and the entry that was merged over. No
    /// conflict detection: a newer write always wins. Fails `NotFound` when
    /// the revision is unknown or the record is tombstoned,
    /// `SerializationError` on a type mismatch; edges are untouched either
    /// way.
    pub fn update<U>(&mut self, entry_type: &String, revision: RevisionAddress, update: &U) -> (r:
        Result<(RevisionAddress, IdentityAddress, T, T), RecordError>) where T: Updateable<U>
        requires
            old(self).wf(),
            old(self).can_allocate(1),
            T::update_allowed(*update),
        ensures
            final(self).wf(),
            final(self).graph() == old(self).graph(),
            final(self).edges@ == old(self).edges@,
            match r {
                Ok(q) => {
                    &&& old(self).has_revision(revision)
                    &&& q.1 == old(self).revision_owner(revision)
                    &&& old(self).is_live(q.1)
                    &&& old(self).record_type(q.1) == entry_type@
                    &&& q.3 == old(self).revision_entry(revision)
                    &&& q.2 == q.3.merged_with(*update)
                    &&& !old(self).has_revision(q.0)
                    &&& final(self).has_revision(q.0)
                    &&& final(self).revision_owner(q.0) == q.1
                    &&& final(self).revision_entry(q.0) == q.2
                    &&& final(self).has_record(q.1)
                    &&& final(self).is_live(q.1)
                    &&& final(self).record_type(q.1) == entry_type@
                    &&& final(self).chain(q.1) == old(self).chain(q.1).push((q.0, q.2))
                    &&& final(self).current_entry(q.1) == q.2
                    &&& final(self).current_revision(q.1) == q.0
                    &&& final(self).rec_ids() == old(self).rec_ids()
                    &&& (forall|id2: IdentityAddress|
                        id2 != q.1 ==> #[trigger] record_unchanged(
                            *old(self),
                            *final(self),
                            id2,
                        ))
                    &&& final(self).next_handle == old(self).next_handle + 1
                },
                Err(RecordError::NotFound) => {
                    &&& (!old(self).has_revision(revision) || !old(self).is_live(
                        old(self).revision_owner(revision),
                    ))
                    &&& store_unchanged(*old(self), *final(self))
                },
                Err(RecordError::SerializationError) => {
                    &&& old(self).has_revision(revision)
                    &&& old(self).is_live(old(self).revision_owner(revision))
                    &&& old(self).record_type(old(self).revision_owner(revision)) != entry_type@
                    &&& store_unchanged(*old(self), *final(self))
                },
                Err(_) => false,
            },
    {
        let found = self.find_revision_pos(revision);
        match found {
            None => Err(RecordError::NotFound),
            Some((i, k)) => {
                let id = self.records[i].identity;
                proof {
                    lemma_index_of_is(*self, id, i as int);
                }
                if self.records[i].deleted {
                    return Err(RecordError::NotFound);
                }
                if !(self.records[i].entry_type == *entry_type) {
                    return Err(RecordError::SerializationError);
                }
                let prev_copy = self.records[i].revisions[k].entry.duplicate();
                let new_entry = self.records[i].revisions[k].entry.update_with(update);
                let new_copy = new_entry.duplicate();
                let new_rv = RevisionAddress { raw: self.next_handle };
                self.next_handle = self.next_handle + 1;
                proof {
                    assert(!old(self).has_revision(new_rv)) by {
                        if old(self).has_revision(new_rv) {
                            let (j, l) = old(self).rev_pos(new_rv);
                            assert(old(self).rev_addr(j, l).raw < old(self).next_handle);
                        }
                    }
                }
                let mut slot = self.records.remove(i);
                slot.revisions.push(Revision { address: new_rv, entry: new_entry });
                self.records.insert(i, slot);
                proof {
                    let pre = *old(self);
                    let post = *self;
                    let ii = i as int;
                    let m = pre.records@[ii].revisions@.len() as int;
                    assert(post.records@ =~= pre.records@.update(ii, slot));
                    assert(forall|j: int|
                        0 <= j < pre.records@.len() && j != ii ==> post.records@[j]
                            == pre.records@[j]);
                    assert(slot.revisions@ == pre.records@[ii].revisions@.push(
                        Revision { address: new_rv, entry: new_entry },
                    ));
                    assert(slot.identity == id);
                    assert(slot.entry_type == pre.records@[ii].entry_type);
                    assert(slot.deleted == pre.records@[ii].deleted);
                    // record-side well-formedness carries over
                    assert forall|a: int, b: int| post.rev_in(a, b) implies (
                    #[trigger] post.rev_addr(a, b)).raw < post.next_handle by {
                        if a != ii {
                            assert(pre.rev_in(a, b));
                            assert(post.rev_addr(a, b) == pre.rev_addr(a, b));
                        } else if b < m {
                            assert(pre.rev_in(a, b));
                            assert(post.rev_addr(a, b) == pre.rev_addr(a, b));
                        } else {
                            assert(post.rev_addr(a, b) == new_rv);
                        }
                    }
                    assert forall|a: int, b: int, c: int, d: int|
                        post.rev_in(a, b) && post.rev_in(c, d) && (a != c || b != d) implies
                        #[trigger] post.rev_addr(a, b) != #[trigger] post.rev_addr(c, d) by {
                        let new_a = a == ii && b == m;
                        let new_c = c == ii && d == m;
                        if !new_a && !new_c {
                            assert(pre.rev_in(a, b) && pre.rev_in(c, d));
                            assert(post.rev_addr(a, b) == pre.rev_addr(a, b));
                            assert(post.rev_addr(c, d) == pre.rev_addr(c, d));
                        } else if new_a && !new_c {
                            assert(pre.rev_in(c, d));
                            assert(post.rev_addr(c, d) == pre.rev_addr(c, d));
                            assert(pre.rev_addr(c, d).raw < pre.next_handle);
                            assert(post.rev_addr(a, b) == new_rv);
                        } else if !new_a && new_c {
                            assert(pre.rev_in(a, b));
                            assert(post.rev_addr(a, b) == pre.rev_addr(a, b));
                            assert(pre.rev_addr(a, b).raw < pre.next_handle);
                            assert(post.rev_addr(c, d) == new_rv);
                        }
                    }
                    assert forall|a: int, b: int|
                        0 <= a < b < post.records@.len() implies (
                    #[trigger] post.records@[a]).identity != (
                    #[trigger] post.records@[b]).identity by {
                        assert(post.records@[a].identity == pre.records@[a].identity);
                        assert(post.records@[b].identity == pre.records@[b].identity);
                    }
                    assert forall|a: int| 0 <= a < post.records@.len() implies (
                    #[trigger] post.records@[a]).revisions@.len() > 0 by {
                        if a != ii {
                            assert(post.records@[a] == pre.records@[a]);
                        }
                    }
                    assert forall|a: int| 0 <= a < post.records@.len() implies (
                    #[trigger] post.records@[a]).identity.raw < post.next_handle by {
                        assert(post.records@[a].identity == pre.records@[a].identity);
                    }
                    assert(post.records_wf());
                    assert(post.graph() =~= pre.graph());
                    assert(post.wf());
                    // the updated record reads back as written
                    lemma_index_of_is(pre, id, ii);
                    lemma_index_of_is(post, id, ii);
                    assert(post.chain(id) =~= pre.chain(id).push((new_rv, new_entry)));
                    lemma_rev_pos_is(post, new_rv, ii, m);
                    lemma_rev_pos_is(pre, revision, ii, k as int);
                    assert(post.rec_ids() =~= pre.rec_ids());
                    // other records untouched
                    assert forall|id2: IdentityAddress| id2 != id implies
                    #[trigger] record_unchanged(pre, post, id2) by {
                        if pre.has_record(id2) {
                            let a = pre.index_of(id2);
                            lemma_index_of_is(pre, id2, a);
                            assert(a != ii);
                            lemma_index_of_is(post, id2, a);
                            assert(post.slot_of(id2) == pre.slot_of(id2));
                            assert(post.chain(id2) == pre.chain(id2));
                        } else {
                            if post.has_record(id2) {
                                let a = choose|a: int|
                                    0 <= a < post.records@.len() && (
                                    #[trigger] post.records@[a]).identity == id2;
                                assert(pre.records@[a].identity == id2);
                            }
                        }
                    }
                }
                Ok((new_rv, id, new_copy, prev_copy))
            },
        }
    }

    /// Tombstones the record that holds `revision`. The revision chain is
    /// kept, the record stops being readable, and its edges are deliberately
    /// left alone: cascading edge removal is the caller's responsibility.
    /// Fails `NotFound` when the revision is unknown or the record is already
    /// tombstoned.
    pub fn delete(&mut self, revision: RevisionAddress) -> (r: Result<bool, RecordError>)
        requires
            old(self).wf(),
        ensures
            final(self).wf(),
            final(self).graph() == old(self).graph(),
            final(self).edges@ == old(self).edges@,
            final(self).next_handle == old(self).next_handle,
            match r {
                Ok(b) => {
                    &&& b == true
                    &&& old(self).has_revision(revision)
                    &&& old(self).is_live(old(self).revision_owner(revision))
                    &&& final(self).has_record(old(self).revision_owner(revision))
                    &&& !final(self).is_live(old(self).revision_owner(revision))
                    &&& final(self).is_deleted(old(self).revision_owner(revision))
                    &&& final(self).chain(old(self).revision_owner(revision)) == old(self).chain(
                        old(self).revision_owner(revision),
                    )
                    &&& final(self).record_type(old(self).revision_owner(revision)) == old(
                        self,
                    ).record_type(old(self).revision_owner(revision))
                    &&& final(self).rec_ids() == old(self).rec_ids()
                    &&& (forall|id2: IdentityAddress|
                        id2 != old(self).revision_owner(revision) ==> #[trigger] record_unchanged(
                            *old(self),
                            *final(self),
                            id2,
                        ))
                },
                Err(RecordError::NotFound) => {
                    &&& (!old(self).has_revision(revision) || !old(self).is_live(
                        old(self).revision_owner(revision),
                    ))
                    &&& store_unchanged(*old(self), *final(self))
                },
                Err(_) => false,
            },
    {
        let found = self.find_revision_pos(revision);
        match found {
            None => Err(RecordError::NotFound),
            Some((i, k)) => {
                let id = self.records[i].identity;
                proof {
                    lemma_index_of_is(*self, id, i as int);
                }
                if self.records[i].deleted {
                    return Err(RecordError::NotFound);
                }
                let mut slot = self.records.remove(i);
                slot.deleted = true;
                self.records.insert(i, slot);
                proof {
                    let pre = *old(self);
                    let post = *self;
                    let ii = i as int;
                    assert(post.records@ =~= pre.records@.update(ii, slot));
                    assert(forall|j: int|
                        0 <= j < pre.records@.len() && j != ii ==> post.records@[j]
                            == pre.records@[j]);
                    assert(slot.revisions@ == pre.records@[ii].revisions@);
                    assert forall|a: int, b: int| post.rev_in(a, b) implies pre.rev_in(a, b) && (
                    #[trigger] post.rev_addr(a, b)) == pre.rev_addr(a, b) by {
                        if a == ii {
                            assert(post.records@[a].revisions@ == pre.records@[a].revisions@);
                        }
                    }
                    assert forall|a: int, b: int, c: int, d: int|
                        post.rev_in(a, b) && post.rev_in(c, d) && (a != c || b != d) implies
                        #[trigger] post.rev_addr(a, b) != #[trigger] post.rev_addr(c, d) by {
                        assert(pre.rev_in(a, b) && pre.rev_in(c, d));
                        assert(post.rev_addr(a, b) == pre.rev_addr(a, b));
                        assert(post.rev_addr(c, d) == pre.rev_addr(c, d));
                    }
                    assert forall|a: int, b: int|
                        0 <= a < b < post.records@.len() implies (
                    #[trigger] post.records@[a]).identity != (
                    #[trigger] post.records@[b]).identity by {
                        assert(post.records@[a].identity == pre.records@[a].identity);
                        assert(post.records@[b].identity == pre.records@[b].identity);
                    }
                    assert forall|a: int| 0 <= a < post.records@.len() implies (
                    #[trigger] post.records@[a]).revisions@.len() > 0 && (
                    #[trigger] post.records@[a]).identity.raw < post.next_handle by {
                        assert(post.records@[a].identity == pre.records@[a].identity);
                        assert(post.records@[a].revisions@.len()
                            == pre.records@[a].revisions@.len());
                    }
                    assert(post.records_wf());
                    assert(post.graph() =~= pre.graph());
                    assert(post.wf());
                    lemma_index_of_is(pre, id, ii);
                    lemma_index_of_is(post, id, ii);
                    lemma_rev_pos_is(pre, revision, ii, k as int);
                    assert(post.chain(id) =~= pre.chain(id));
                    assert(post.rec_ids() =~= pre.rec_ids());
                    assert forall|id2: IdentityAddress| id2 != id implies
                    #[trigger] record_unchanged(pre, post, id2) by {
                        if pre.has_record(id2) {
                            let a = pre.index_of(id2);
                            lemma_index_of_is(pre, id2, a);
                            assert(a != ii);
                            lemma_index_of_is(post, id2, a);
                            assert(post.slot_of(id2) == pre.slot_of(id2));
                            assert(post.chain(id2) == pre.chain(id2));
                        } else {
                            if post.has_record(id2) {
                                let a = choose|a: int|
                                    0 <= a < post.records@.len() && (
                                    #[trigger] post.records@[a]).identity == id2;
                                assert(pre.records@[a].identity == id2);
                            }
                        }
                    }
                }
                Ok(true)
            },
        }
    }
}

} // verus!
