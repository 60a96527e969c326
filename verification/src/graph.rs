//! Edges and the mathematical model of one storage domain's edge set.
//!
//! An edge is a named, directed, tagged link between two anchors. The model
//! of a domain's edge set is the sequence of edge values in creation order,
//! with no duplicate of the same (source, tag, target) triple. All index
//! contracts are stated over this model through the functions defined here.

use vstd::prelude::*;

use crate::identity::{AnchorAddress, AnchorModel, IdentityAddress};

verus! {

/// A named, directed, tagged link between two anchors.
#[derive(Debug)]
pub struct Edge {
    pub source: AnchorAddress,
    pub tag: String,
    pub target: AnchorAddress,
}

/// The mathematical value of an `Edge`.
pub struct EdgeModel {
    pub source: AnchorModel,
    pub tag: Seq<char>,
    pub target: AnchorModel,
}

impl View for Edge {
    type V = EdgeModel;

    open spec fn view(&self) -> EdgeModel {
        EdgeModel { source: self.source@, tag: self.tag@, target: self.target@ }
    }
}

impl Clone for Edge {
    fn clone(&self) -> (r: Self)
        ensures
            r == *self,
    {
        Edge { source: self.source.clone(), tag: self.tag.clone(), target: self.target.clone() }
    }
}

impl Edge {
    /// True when both edges link the same anchors under the same tag.
    pub fn matches(&self, other: &Edge) -> (r: bool)
        ensures
            r == (self@ == other@),
    {
        self.source.matches(&other.source) && self.tag == other.tag && self.target.matches(
            &other.target,
        )
    }
}

/// The model of the forward half of an edge pair: from the per-record anchor
/// of `source` to the per-record anchor of `dest`.
pub open spec fn edge_between(
    source_type: Seq<char>,
    source: IdentityAddress,
    tag: Seq<char>,
    dest_type: Seq<char>,
    dest: IdentityAddress,
) -> EdgeModel {
    EdgeModel {
        source: AnchorModel { entry_type: source_type, base: Some(source) },
        tag,
        target: AnchorModel { entry_type: dest_type, base: Some(dest) },
    }
}

/// Whether the edge set `g` holds the edge `e`.
pub open spec fn graph_has(g: Seq<EdgeModel>, e: EdgeModel) -> bool {
    exists|i: int| 0 <= i < g.len() && g[i] == e
}

/// `g` with `e` appended, unless `g` already holds it: edge creation is
/// idempotent.
pub open spec fn push_missing(g: Seq<EdgeModel>, e: EdgeModel) -> Seq<EdgeModel> {
    if graph_has(g, e) {
        g
    } else {
        g.push(e)
    }
}

/// `g` without every occurrence of the edge `e`.
pub open spec fn graph_remove(g: Seq<EdgeModel>, e: EdgeModel) -> Seq<EdgeModel>
    decreases g.len(),
{
    if g.len() == 0 {
        g
    } else if g.last() == e {
        graph_remove(g.drop_last(), e)
    } else {
        graph_remove(g.drop_last(), e).push(g.last())
    }
}

/// The targets of the edges leaving `source` under `tag`, in creation order.
pub open spec fn targets_from(g: Seq<EdgeModel>, source: AnchorModel, tag: Seq<char>) -> Seq<
    AnchorModel,
>
    decreases g.len(),
{
    if g.len() == 0 {
        Seq::empty()
    } else if g.last().source == source && g.last().tag == tag {
        targets_from(g.drop_last(), source, tag).push(g.last().target)
    } else {
        targets_from(g.drop_last(), source, tag)
    }
}

/// The edges leaving `source` under `tag`, in creation order.
pub open spec fn edges_from(g: Seq<EdgeModel>, source: AnchorModel, tag: Seq<char>) -> Seq<
    EdgeModel,
>
    decreases g.len(),
{
    if g.len() == 0 {
        Seq::empty()
    } else if g.last().source == source && g.last().tag == tag {
        edges_from(g.drop_last(), source, tag).push(g.last())
    } else {
        edges_from(g.drop_last(), source, tag)
    }
}

/// `g` without any edge leaving `source` under `tag`.
pub open spec fn clear_tag(g: Seq<EdgeModel>, source: AnchorModel, tag: Seq<char>) -> Seq<
    EdgeModel,
>
    decreases g.len(),
{
    if g.len() == 0 {
        g
    } else if g.last().source == source && g.last().tag == tag {
        clear_tag(g.drop_last(), source, tag)
    } else {
        clear_tag(g.drop_last(), source, tag).push(g.last())
    }
}

/// Whether every anchor in `targets` resolves to a record identity.
pub open spec fn all_resolve(targets: Seq<AnchorModel>) -> bool {
    forall|i: int| 0 <= i < targets.len() ==> targets[i].base is Some
}

/// The identities the anchors in `targets` resolve to, in order.
pub open spec fn resolved_ids(targets: Seq<AnchorModel>) -> Seq<IdentityAddress> {
    Seq::new(targets.len(), |i: int| targets[i].base.unwrap())
}

/// The identities reachable from `source` under `tag`: the destination set of
/// that index.
pub open spec fn dest_ids(g: Seq<EdgeModel>, source: AnchorModel, tag: Seq<char>) -> Seq<
    IdentityAddress,
> {
    resolved_ids(targets_from(g, source, tag))
}

/// Whether `g` holds an edge from `source` under `tag` whose target resolves
/// to `id`.
pub open spec fn has_dest(
    g: Seq<EdgeModel>,
    source: AnchorModel,
    tag: Seq<char>,
    id: IdentityAddress,
) -> bool {
    exists|t: AnchorModel|
        #[trigger] graph_has(g, EdgeModel { source, tag, target: t }) && t.base == Some(id)
}

/// The elements of `s` that also occur in `other`, in order.
pub open spec fn retained_in(s: Seq<IdentityAddress>, other: Seq<IdentityAddress>) -> Seq<
    IdentityAddress,
>
    decreases s.len(),
{
    if s.len() == 0 {
        s
    } else if other.contains(s.last()) {
        retained_in(s.drop_last(), other).push(s.last())
    } else {
        retained_in(s.drop_last(), other)
    }
}

/// The elements of `s` that do not occur in `other`, in order.
pub open spec fn without(s: Seq<IdentityAddress>, other: Seq<IdentityAddress>) -> Seq<
    IdentityAddress,
>
    decreases s.len(),
{
    if s.len() == 0 {
        s
    } else if other.contains(s.last()) {
        without(s.drop_last(), other)
    } else {
        without(s.drop_last(), other).push(s.last())
    }
}

/// The reciprocal half of an edge pair: from the destination's anchor back to
/// the source's anchor.
pub open spec fn edge_back(
    source_type: Seq<char>,
    source: IdentityAddress,
    tag_reciprocal: Seq<char>,
    dest_type: Seq<char>,
    dest: IdentityAddress,
) -> EdgeModel {
    edge_between(dest_type, dest, tag_reciprocal, source_type, source)
}

/// `g` after removing, for each identity in `ids` in order, both halves of
/// the edge pair between `source` and that identity.
pub open spec fn remove_pair_edges(
    g: Seq<EdgeModel>,
    source_type: Seq<char>,
    source: IdentityAddress,
    tag: Seq<char>,
    dest_type: Seq<char>,
    tag_reciprocal: Seq<char>,
    ids: Seq<IdentityAddress>,
) -> Seq<EdgeModel>
    decreases ids.len(),
{
    if ids.len() == 0 {
        g
    } else {
        let prev = remove_pair_edges(
            g,
            source_type,
            source,
            tag,
            dest_type,
            tag_reciprocal,
            ids.drop_last(),
        );
        let d = ids.last();
        graph_remove(
            graph_remove(prev, edge_between(source_type, source, tag, dest_type, d)),
            edge_back(source_type, source, tag_reciprocal, dest_type, d),
        )
    }
}

/// `g` after creating, for each identity in `ids` in order, both halves of
/// the edge pair between `source` and that identity (each half only where it
/// is not already present).
pub open spec fn add_pair_edges(
    g: Seq<EdgeModel>,
    source_type: Seq<char>,
    source: IdentityAddress,
    tag: Seq<char>,
    dest_type: Seq<char>,
    tag_reciprocal: Seq<char>,
    ids: Seq<IdentityAddress>,
) -> Seq<EdgeModel>
    decreases ids.len(),
{
    if ids.len() == 0 {
        g
    } else {
        let prev = add_pair_edges(
            g,
            source_type,
            source,
            tag,
            dest_type,
            tag_reciprocal,
            ids.drop_last(),
        );
        let d = ids.last();
        push_missing(
            push_missing(prev, edge_between(source_type, source, tag, dest_type, d)),
            edge_back(source_type, source, tag_reciprocal, dest_type, d),
        )
    }
}

/// Whether `f` is one half of a pair between `source` and an identity in
/// `ids`.
pub open spec fn is_pair_edge(
    f: EdgeModel,
    source_type: Seq<char>,
    source: IdentityAddress,
    tag: Seq<char>,
    dest_type: Seq<char>,
    tag_reciprocal: Seq<char>,
    ids: Seq<IdentityAddress>,
) -> bool {
    exists|d: IdentityAddress|
        #[trigger] ids.contains(d) && (f == edge_between(source_type, source, tag, dest_type, d)
            || f == edge_back(source_type, source, tag_reciprocal, dest_type, d))
}

// ---------------------------------------------------------------- lemmas

/// Membership in a sequence extended by one edge.
pub proof fn lemma_graph_has_push(g: Seq<EdgeModel>, e: EdgeModel, f: EdgeModel)
    ensures
        graph_has(g.push(e), f) == (graph_has(g, f) || f == e),
{
    if graph_has(g, f) {
        let i = choose|i: int| 0 <= i < g.len() && g[i] == f;
        assert(g.push(e)[i] == f);
    }
    if f == e {
        assert(g.push(e)[g.len() as int] == f);
    }
    if graph_has(g.push(e), f) {
        let i = choose|i: int| 0 <= i < g.push(e).len() && g.push(e)[i] == f;
        if i < g.len() {
            assert(g[i] == f);
        }
    }
}

/// Membership in a sequence after `push_missing`.
pub proof fn lemma_graph_has_push_missing(g: Seq<EdgeModel>, e: EdgeModel, f: EdgeModel)
    ensures
        graph_has(push_missing(g, e), f) == (graph_has(g, f) || f == e),
{
    if graph_has(g, e) {
        if f == e {
            assert(graph_has(g, f));
        }
    } else {
        lemma_graph_has_push(g, e, f);
    }
}

/// `push_missing` neither duplicates an edge nor loses one.
pub proof fn lemma_push_missing_no_duplicates(g: Seq<EdgeModel>, e: EdgeModel)
    requires
        g.no_duplicates(),
    ensures
        push_missing(g, e).no_duplicates(),
{
    if !graph_has(g, e) {
        let p = g.push(e);
        assert forall|i: int, j: int| 0 <= i < j < p.len() implies p[i] != p[j] by {
            if j == g.len() {
                assert(p[i] == g[i]);
                assert(!(g[i] == e)) by {
                    if g[i] == e {
                        assert(graph_has(g, e));
                    }
                }
            }
        }
    }
}

/// Dropping the last element preserves distinctness.
pub proof fn lemma_drop_last_no_duplicates(g: Seq<EdgeModel>)
    requires
        g.no_duplicates(),
        g.len() > 0,
    ensures
        g.drop_last().no_duplicates(),
{
    assert forall|i: int, j: int|
        0 <= i < j < g.drop_last().len() implies g.drop_last()[i] != g.drop_last()[j] by {
        assert(g.drop_last()[i] == g[i]);
        assert(g.drop_last()[j] == g[j]);
    }
}

/// What `graph_remove` keeps: everything but the removed edge, still without
/// duplicates.
pub proof fn lemma_graph_remove_props(g: Seq<EdgeModel>, e: EdgeModel)
    requires
        g.no_duplicates(),
    ensures
        graph_remove(g, e).no_duplicates(),
        forall|f: EdgeModel|
            #[trigger] graph_has(graph_remove(g, e), f) == (graph_has(g, f) && f != e),
    decreases g.len(),
{
    if g.len() == 0 {
        assert forall|f: EdgeModel| !graph_has(graph_remove(g, e), f) && !graph_has(g, f) by {
        }
    } else {
        let dl = g.drop_last();
        let last = g.last();
        lemma_drop_last_no_duplicates(g);
        lemma_graph_remove_props(dl, e);
        assert(g =~= dl.push(last));
        assert forall|f: EdgeModel| graph_has(g, f) == (graph_has(dl, f) || f == last) by {
            lemma_graph_has_push(dl, last, f);
        }
        if last == e {
            assert(graph_remove(g, e) == graph_remove(dl, e));
        } else {
            let r = graph_remove(dl, e);
            assert(graph_remove(g, e) == r.push(last));
            assert(!graph_has(dl, last)) by {
                if graph_has(dl, last) {
                    let i = choose|i: int| 0 <= i < dl.len() && dl[i] == last;
                    assert(g[i] == g[g.len() - 1]);
                }
            }
            assert(!graph_has(r, last));
            assert forall|i: int, j: int|
                0 <= i < j < r.push(last).len() implies r.push(last)[i] != r.push(last)[j] by {
                if j == r.len() {
                    assert(r.push(last)[i] == r[i]);
                    if r[i] == last {
                        assert(graph_has(r, last));
                    }
                }
            }
            assert forall|f: EdgeModel|
                graph_has(r.push(last), f) == (graph_has(g, f) && f != e) by {
                lemma_graph_has_push(r, last, f);
            }
        }
    }
}

/// A target is listed under (source, tag) exactly when the connecting edge is
/// in the graph.
pub proof fn lemma_targets_iff_graph_has(
    g: Seq<EdgeModel>,
    source: AnchorModel,
    tag: Seq<char>,
    t: AnchorModel,
)
    ensures
        targets_from(g, source, tag).contains(t) == graph_has(
            g,
            EdgeModel { source, tag, target: t },
        ),
    decreases g.len(),
{
    let e = EdgeModel { source, tag, target: t };
    if g.len() == 0 {
    } else {
        let dl = g.drop_last();
        let last = g.last();
        lemma_targets_iff_graph_has(dl, source, tag, t);
        assert(g =~= dl.push(last));
        lemma_graph_has_push(dl, last, e);
        let ts = targets_from(g, source, tag);
        let tsdl = targets_from(dl, source, tag);
        if last.source == source && last.tag == tag {
            assert(ts == tsdl.push(last.target));
            if tsdl.contains(t) {
                let i = choose|i: int| 0 <= i < tsdl.len() && tsdl[i] == t;
                assert(ts[i] == t);
            }
            if t == last.target {
                assert(ts[ts.len() - 1] == t);
                assert(last == e);
            }
            if ts.contains(t) {
                let i = choose|i: int| 0 <= i < ts.len() && ts[i] == t;
                if i < tsdl.len() {
                    assert(tsdl[i] == t);
                }
            }
        } else {
            assert(ts == tsdl);
            if last == e {
                assert(false);
            }
        }
    }
}

/// An identity is in the destination set exactly when some resolving target
/// anchor for it is linked.
pub proof fn lemma_dest_ids_iff_has_dest(
    g: Seq<EdgeModel>,
    source: AnchorModel,
    tag: Seq<char>,
    id: IdentityAddress,
)
    requires
        all_resolve(targets_from(g, source, tag)),
    ensures
        dest_ids(g, source, tag).contains(id) == has_dest(g, source, tag, id),
{
    let ts = targets_from(g, source, tag);
    let ids = dest_ids(g, source, tag);
    if ids.contains(id) {
        let i = choose|i: int| 0 <= i < ids.len() && ids[i] == id;
        let t = ts[i];
        assert(t.base == Some(id));
        lemma_targets_iff_graph_has(g, source, tag, t);
        assert(ts.contains(t)) by {
            assert(ts[i] == t);
        }
        assert(graph_has(g, EdgeModel { source, tag, target: t }));
    }
    if has_dest(g, source, tag, id) {
        let t = choose|t: AnchorModel|
            #[trigger] graph_has(g, EdgeModel { source, tag, target: t }) && t.base == Some(id);
        lemma_targets_iff_graph_has(g, source, tag, t);
        let i = choose|i: int| 0 <= i < ts.len() && ts[i] == t;
        assert(ids[i] == id);
    }
}

/// A prefix of the graph lists a prefix of the targets.
pub proof fn lemma_targets_from_prefix(
    g: Seq<EdgeModel>,
    source: AnchorModel,
    tag: Seq<char>,
    j: int,
)
    requires
        0 <= j <= g.len(),
    ensures
        targets_from(g.subrange(0, j), source, tag).len() <= targets_from(g, source, tag).len(),
        forall|x: int|
            0 <= x < targets_from(g.subrange(0, j), source, tag).len() ==> targets_from(
                g,
                source,
                tag,
            )[x] == targets_from(g.subrange(0, j), source, tag)[x],
    decreases g.len() - j,
{
    if j == g.len() {
        assert(g.subrange(0, j) =~= g);
    } else {
        lemma_targets_from_prefix(g, source, tag, j + 1);
        let a = g.subrange(0, j);
        let b = g.subrange(0, j + 1);
        assert(b.drop_last() =~= a);
        assert(b.last() == g[j]);
    }
}

/// Clearing a tag keeps the edge set duplicate-free, keeps exactly the edges
/// outside that (source, tag) pair, and leaves no edge under it.
pub proof fn lemma_clear_tag_no_duplicates(g: Seq<EdgeModel>, source: AnchorModel, tag: Seq<char>)
    requires
        g.no_duplicates(),
    ensures
        clear_tag(g, source, tag).no_duplicates(),
        forall|f: EdgeModel|
            #[trigger] graph_has(clear_tag(g, source, tag), f) == (graph_has(g, f) && !(f.source
                == source && f.tag == tag)),
    decreases g.len(),
{
    if g.len() == 0 {
    } else {
        let dl = g.drop_last();
        let last = g.last();
        lemma_drop_last_no_duplicates(g);
        lemma_clear_tag_no_duplicates(dl, source, tag);
        assert(g =~= dl.push(last));
        assert forall|f: EdgeModel| graph_has(g, f) == (graph_has(dl, f) || f == last) by {
            lemma_graph_has_push(dl, last, f);
        }
        if last.source == source && last.tag == tag {
        } else {
            let r = clear_tag(dl, source, tag);
            assert(clear_tag(g, source, tag) == r.push(last));
            assert(!graph_has(dl, last)) by {
                if graph_has(dl, last) {
                    let i = choose|i: int| 0 <= i < dl.len() && dl[i] == last;
                    assert(g[i] == g[g.len() - 1]);
                }
            }
            assert(!graph_has(r, last));
            assert forall|i: int, j: int|
                0 <= i < j < r.push(last).len() implies r.push(last)[i] != r.push(last)[j] by {
                if j == r.len() {
                    assert(r.push(last)[i] == r[i]);
                    if r[i] == last {
                        assert(graph_has(r, last));
                    }
                }
            }
            assert forall|f: EdgeModel|
                graph_has(r.push(last), f) == (graph_has(g, f) && !(f.source == source && f.tag
                    == tag)) by {
                lemma_graph_has_push(r, last, f);
            }
        }
    }
}


/// `g` after removing the forward half of the pair for each identity in
/// `ids`, in order.
pub open spec fn remove_forward_edges(
    g: Seq<EdgeModel>,
    source_type: Seq<char>,
    source: IdentityAddress,
    tag: Seq<char>,
    dest_type: Seq<char>,
    ids: Seq<IdentityAddress>,
) -> Seq<EdgeModel>
    decreases ids.len(),
{
    if ids.len() == 0 {
        g
    } else {
        graph_remove(
            remove_forward_edges(g, source_type, source, tag, dest_type, ids.drop_last()),
            edge_between(source_type, source, tag, dest_type, ids.last()),
        )
    }
}

/// `g` after creating the forward half of the pair for each identity in
/// `ids`, in order, each only where it is missing.
pub open spec fn add_forward_edges(
    g: Seq<EdgeModel>,
    source_type: Seq<char>,
    source: IdentityAddress,
    tag: Seq<char>,
    dest_type: Seq<char>,
    ids: Seq<IdentityAddress>,
) -> Seq<EdgeModel>
    decreases ids.len(),
{
    if ids.len() == 0 {
        g
    } else {
        push_missing(
            add_forward_edges(g, source_type, source, tag, dest_type, ids.drop_last()),
            edge_between(source_type, source, tag, dest_type, ids.last()),
        )
    }
}

/// `g` after removing the reciprocal half of the pair for each identity in
/// `ids`, in order.
pub open spec fn remove_reciprocal_edges(
    g: Seq<EdgeModel>,
    source_type: Seq<char>,
    source: IdentityAddress,
    tag_reciprocal: Seq<char>,
    dest_type: Seq<char>,
    ids: Seq<IdentityAddress>,
) -> Seq<EdgeModel>
    decreases ids.len(),
{
    if ids.len() == 0 {
        g
    } else {
        graph_remove(
            remove_reciprocal_edges(
                g,
                source_type,
                source,
                tag_reciprocal,
                dest_type,
                ids.drop_last(),
            ),
            edge_back(source_type, source, tag_reciprocal, dest_type, ids.last()),
        )
    }
}

/// `g` after creating the reciprocal half of the pair for each identity in
/// `ids`, in order, each only where it is missing.
pub open spec fn add_reciprocal_edges(
    g: Seq<EdgeModel>,
    source_type: Seq<char>,
    source: IdentityAddress,
    tag_reciprocal: Seq<char>,
    dest_type: Seq<char>,
    ids: Seq<IdentityAddress>,
) -> Seq<EdgeModel>
    decreases ids.len(),
{
    if ids.len() == 0 {
        g
    } else {
        push_missing(
            add_reciprocal_edges(g, source_type, source, tag_reciprocal, dest_type, ids.drop_last()),
            edge_back(source_type, source, tag_reciprocal, dest_type, ids.last()),
        )
    }
}

/// Membership in a sequence extended by one element.
pub proof fn lemma_contains_push<A>(s: Seq<A>, x: A, y: A)
    ensures
        s.push(x).contains(y) == (s.contains(y) || y == x),
{
    if s.contains(y) {
        let i = choose|i: int| 0 <= i < s.len() && s[i] == y;
        assert(s.push(x)[i] == y);
    }
    if y == x {
        assert(s.push(x)[s.len() as int] == y);
    }
    if s.push(x).contains(y) {
        let i = choose|i: int| 0 <= i < s.push(x).len() && s.push(x)[i] == y;
        if i < s.len() {
            assert(s[i] == y);
        }
    }
}

/// What `retained_in` keeps: exactly the elements present in both sequences.
pub proof fn lemma_retained_in_contains(
    s: Seq<IdentityAddress>,
    other: Seq<IdentityAddress>,
    x: IdentityAddress,
)
    ensures
        retained_in(s, other).contains(x) == (s.contains(x) && other.contains(x)),
    decreases s.len(),
{
    if s.len() == 0 {
        if s.contains(x) {
            let i = choose|i: int| 0 <= i < s.len() && s[i] == x;
        }
        if retained_in(s, other).contains(x) {
            let i = choose|i: int|
                0 <= i < retained_in(s, other).len() && retained_in(s, other)[i] == x;
        }
    } else {
        let dl = s.drop_last();
        lemma_retained_in_contains(dl, other, x);
        assert(s =~= dl.push(s.last()));
        lemma_contains_push(dl, s.last(), x);
        if other.contains(s.last()) {
            lemma_contains_push(retained_in(dl, other), s.last(), x);
        }
    }
}

/// What `without` keeps: exactly the elements absent from the second
/// sequence.
pub proof fn lemma_without_contains(
    s: Seq<IdentityAddress>,
    other: Seq<IdentityAddress>,
    x: IdentityAddress,
)
    ensures
        without(s, other).contains(x) == (s.contains(x) && !other.contains(x)),
    decreases s.len(),
{
    if s.len() == 0 {
        if s.contains(x) {
            let i = choose|i: int| 0 <= i < s.len() && s[i] == x;
        }
        if without(s, other).contains(x) {
            let i = choose|i: int| 0 <= i < without(s, other).len() && without(s, other)[i] == x;
        }
    } else {
        let dl = s.drop_last();
        lemma_without_contains(dl, other, x);
        assert(s =~= dl.push(s.last()));
        lemma_contains_push(dl, s.last(), x);
        if !other.contains(s.last()) {
            lemma_contains_push(without(dl, other), s.last(), x);
        }
    }
}

/// What the removal phase leaves: everything but the named pairs, still
/// duplicate-free.
pub proof fn lemma_remove_pairs_graph_has(
    g: Seq<EdgeModel>,
    source_type: Seq<char>,
    source: IdentityAddress,
    tag: Seq<char>,
    dest_type: Seq<char>,
    tag_reciprocal: Seq<char>,
    ids: Seq<IdentityAddress>,
)
    requires
        g.no_duplicates(),
    ensures
        remove_pair_edges(
            g,
            source_type,
            source,
            tag,
            dest_type,
            tag_reciprocal,
            ids,
        ).no_duplicates(),
        forall|f: EdgeModel|
            #[trigger] graph_has(
                remove_pair_edges(g, source_type, source, tag, dest_type, tag_reciprocal, ids),
                f,
            ) == (graph_has(g, f) && !is_pair_edge(
                f,
                source_type,
                source,
                tag,
                dest_type,
                tag_reciprocal,
                ids,
            )),
    decreases ids.len(),
{
    if ids.len() == 0 {
        assert forall|f: EdgeModel|
            !is_pair_edge(f, source_type, source, tag, dest_type, tag_reciprocal, ids) by {
            if is_pair_edge(f, source_type, source, tag, dest_type, tag_reciprocal, ids) {
                let d = choose|d: IdentityAddress|
                    #[trigger] ids.contains(d) && (f == edge_between(
                        source_type,
                        source,
                        tag,
                        dest_type,
                        d,
                    ) || f == edge_back(source_type, source, tag_reciprocal, dest_type, d));
                let i = choose|i: int| 0 <= i < ids.len() && ids[i] == d;
            }
        }
    } else {
        let dl = ids.drop_last();
        let d = ids.last();
        lemma_remove_pairs_graph_has(g, source_type, source, tag, dest_type, tag_reciprocal, dl);
        let prev = remove_pair_edges(g, source_type, source, tag, dest_type, tag_reciprocal, dl);
        let fwd = edge_between(source_type, source, tag, dest_type, d);
        let back = edge_back(source_type, source, tag_reciprocal, dest_type, d);
        lemma_graph_remove_props(prev, fwd);
        lemma_graph_remove_props(graph_remove(prev, fwd), back);
        assert(ids =~= dl.push(d));
        assert forall|f: EdgeModel|
            is_pair_edge(f, source_type, source, tag, dest_type, tag_reciprocal, ids) == (
            is_pair_edge(f, source_type, source, tag, dest_type, tag_reciprocal, dl) || f == fwd
                || f == back) by {
            lemma_contains_push(dl, d, d);
            if is_pair_edge(f, source_type, source, tag, dest_type, tag_reciprocal, dl) {
                let d2 = choose|d2: IdentityAddress|
                    #[trigger] dl.contains(d2) && (f == edge_between(
                        source_type,
                        source,
                        tag,
                        dest_type,
                        d2,
                    ) || f == edge_back(source_type, source, tag_reciprocal, dest_type, d2));
                lemma_contains_push(dl, d, d2);
                assert(ids.contains(d2));
            }
            if f == fwd || f == back {
                assert(ids.contains(d));
            }
            if is_pair_edge(f, source_type, source, tag, dest_type, tag_reciprocal, ids) {
                let d2 = choose|d2: IdentityAddress|
                    #[trigger] ids.contains(d2) && (f == edge_between(
                        source_type,
                        source,
                        tag,
                        dest_type,
                        d2,
                    ) || f == edge_back(source_type, source, tag_reciprocal, dest_type, d2));
                lemma_contains_push(dl, d, d2);
                if d2 != d {
                    assert(dl.contains(d2));
                }
            }
        }
    }
}

/// What the addition phase adds: exactly the named pairs, still
/// duplicate-free.
pub proof fn lemma_add_pairs_graph_has(
    g: Seq<EdgeModel>,
    source_type: Seq<char>,
    source: IdentityAddress,
    tag: Seq<char>,
    dest_type: Seq<char>,
    tag_reciprocal: Seq<char>,
    ids: Seq<IdentityAddress>,
)
    requires
        g.no_duplicates(),
    ensures
        add_pair_edges(g, source_type, source, tag, dest_type, tag_reciprocal, ids).no_duplicates(),
        forall|f: EdgeModel|
            #[trigger] graph_has(
                add_pair_edges(g, source_type, source, tag, dest_type, tag_reciprocal, ids),
                f,
            ) == (graph_has(g, f) || is_pair_edge(
                f,
                source_type,
                source,
                tag,
                dest_type,
                tag_reciprocal,
                ids,
            )),
    decreases ids.len(),
{
    if ids.len() == 0 {
        assert forall|f: EdgeModel|
            !is_pair_edge(f, source_type, source, tag, dest_type, tag_reciprocal, ids) by {
            if is_pair_edge(f, source_type, source, tag, dest_type, tag_reciprocal, ids) {
                let d = choose|d: IdentityAddress|
                    #[trigger] ids.contains(d) && (f == edge_between(
                        source_type,
                        source,
                        tag,
                        dest_type,
                        d,
                    ) || f == edge_back(source_type, source, tag_reciprocal, dest_type, d));
                let i = choose|i: int| 0 <= i < ids.len() && ids[i] == d;
            }
        }
    } else {
        let dl = ids.drop_last();
        let d = ids.last();
        lemma_add_pairs_graph_has(g, source_type, source, tag, dest_type, tag_reciprocal, dl);
        let prev = add_pair_edges(g, source_type, source, tag, dest_type, tag_reciprocal, dl);
        let fwd = edge_between(source_type, source, tag, dest_type, d);
        let back = edge_back(source_type, source, tag_reciprocal, dest_type, d);
        lemma_push_missing_no_duplicates(prev, fwd);
        lemma_push_missing_no_duplicates(push_missing(prev, fwd), back);
        assert(add_pair_edges(g, source_type, source, tag, dest_type, tag_reciprocal, ids)
            == push_missing(push_missing(prev, fwd), back));
        assert(ids =~= dl.push(d));
        assert forall|f: EdgeModel|
            #[trigger] graph_has(
                add_pair_edges(g, source_type, source, tag, dest_type, tag_reciprocal, ids),
                f,
            ) == (graph_has(g, f) || is_pair_edge(
                f,
                source_type,
                source,
                tag,
                dest_type,
                tag_reciprocal,
                ids,
            )) by {
            lemma_graph_has_push_missing(prev, fwd, f);
            lemma_graph_has_push_missing(push_missing(prev, fwd), back, f);
            assert(graph_has(prev, f) == (graph_has(g, f) || is_pair_edge(
                f,
                source_type,
                source,
                tag,
                dest_type,
                tag_reciprocal,
                dl,
            )));
            assert(is_pair_edge(f, source_type, source, tag, dest_type, tag_reciprocal, ids) == (
            is_pair_edge(f, source_type, source, tag, dest_type, tag_reciprocal, dl) || f == fwd
                || f == back)) by {
            lemma_contains_push(dl, d, d);
            if is_pair_edge(f, source_type, source, tag, dest_type, tag_reciprocal, dl) {
                let d2 = choose|d2: IdentityAddress|
                    #[trigger] dl.contains(d2) && (f == edge_between(
                        source_type,
                        source,
                        tag,
                        dest_type,
                        d2,
                    ) || f == edge_back(source_type, source, tag_reciprocal, dest_type, d2));
                lemma_contains_push(dl, d, d2);
                assert(ids.contains(d2));
            }
            if f == fwd || f == back {
                assert(ids.contains(d));
            }
            if is_pair_edge(f, source_type, source, tag, dest_type, tag_reciprocal, ids) {
                let d2 = choose|d2: IdentityAddress|
                    #[trigger] ids.contains(d2) && (f == edge_between(
                        source_type,
                        source,
                        tag,
                        dest_type,
                        d2,
                    ) || f == edge_back(source_type, source, tag_reciprocal, dest_type, d2));
                lemma_contains_push(dl, d, d2);
                if d2 != d {
                    assert(dl.contains(d2));
                }
            }
            }
        }
    }
}

} // verus!
