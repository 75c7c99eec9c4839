//! Mathematical model of a workflow graph: nodes are numbered, edges are
//! numbered and carry their endpoints. Paths, reachability and cycles are
//! defined over the edge map, with the lemmas the workflow operations need.
use vstd::prelude::*;

verus! {

/// What an edge's flow does: whether it transforms the data it carries and
/// into what, and whether it is guarded by a condition and which outputs pass
/// it (the identity and "always" when there is none).
pub struct FlowView {
    pub has_transform: bool,
    pub has_condition: bool,
    pub transform_fn: spec_fn(Seq<char>) -> Seq<char>,
    pub condition_fn: spec_fn(Seq<char>) -> bool,
}

/// An edge of the workflow graph: its endpoints (node indices) and its flow.
pub struct EdgeView {
    pub source: nat,
    pub target: nat,
    pub flow: FlowView,
}

/// The graph without nodes.
pub open spec fn no_nodes() -> Map<nat, Seq<char>> {
    Map::empty()
}

/// The graph without edges.
pub open spec fn no_edges() -> Map<nat, EdgeView> {
    Map::empty()
}

/// There is an edge from `a` to `b`.
pub open spec fn is_step(edges: Map<nat, EdgeView>, a: nat, b: nat) -> bool {
    exists|e: nat|
        #![trigger edges[e]]
        edges.contains_key(e) && edges[e].source == a && edges[e].target == b
}

/// `p` is a non-empty walk along edges.
pub open spec fn is_path(edges: Map<nat, EdgeView>, p: Seq<nat>) -> bool {
    &&& p.len() >= 1
    &&& forall|i: int| 0 <= i < p.len() - 1 ==> #[trigger] is_step(edges, p[i], p[i + 1])
}

/// There is a walk (possibly of length zero) from `a` to `b`.
pub open spec fn reaches(edges: Map<nat, EdgeView>, a: nat, b: nat) -> bool {
    exists|p: Seq<nat>| #[trigger] is_path(edges, p) && p[0] == a && p.last() == b
}

/// Some non-trivial walk returns to where it started.
pub open spec fn has_cycle(edges: Map<nat, EdgeView>) -> bool {
    exists|p: Seq<nat>| #[trigger] is_path(edges, p) && p.len() >= 2 && p[0] == p.last()
}

pub proof fn lemma_no_edges_acyclic()
    ensures
        !has_cycle(no_edges()),
{
    if has_cycle(no_edges()) {
        let p = choose|p: Seq<nat>| #[trigger] is_path(no_edges(), p) && p.len() >= 2 && p[0] == p.last();
        let i = 0int;
        assert(is_step(no_edges(), p[i], p[i + 1]));
    }
}

/// Every edge of `small` is an edge of `big` with the same endpoints.
pub open spec fn edges_within(small: Map<nat, EdgeView>, big: Map<nat, EdgeView>) -> bool {
    forall|e: nat|
        #![trigger small[e]]
        small.contains_key(e) ==> big.contains_key(e) && big[e].source == small[e].source
            && big[e].target == small[e].target
}

pub proof fn lemma_path_within(small: Map<nat, EdgeView>, big: Map<nat, EdgeView>, p: Seq<nat>)
    requires
        edges_within(small, big),
        is_path(small, p),
    ensures
        is_path(big, p),
{
    assert forall|i: int| 0 <= i < p.len() - 1 implies #[trigger] is_step(big, p[i], p[i + 1]) by {
        assert(is_step(small, p[i], p[i + 1]));
        let e = choose|e: nat|
            #![trigger small[e]]
            small.contains_key(e) && small[e].source == p[i] && small[e].target == p[i + 1];
        assert(big.contains_key(e) && big[e].source == p[i] && big[e].target == p[i + 1]);
    }
}

/// Removing edges cannot create a cycle.
pub proof fn lemma_acyclic_within(small: Map<nat, EdgeView>, big: Map<nat, EdgeView>)
    requires
        edges_within(small, big),
        !has_cycle(big),
    ensures
        !has_cycle(small),
{
    if has_cycle(small) {
        let p = choose|p: Seq<nat>| #[trigger] is_path(small, p) && p.len() >= 2 && p[0] == p.last();
        lemma_path_within(small, big, p);
        assert(is_path(big, p) && p.len() >= 2 && p[0] == p.last());
    }
}

pub proof fn lemma_reaches_within(small: Map<nat, EdgeView>, big: Map<nat, EdgeView>, a: nat, b: nat)
    requires
        edges_within(small, big),
        reaches(small, a, b),
    ensures
        reaches(big, a, b),
{
    let p = choose|p: Seq<nat>| #[trigger] is_path(small, p) && p[0] == a && p.last() == b;
    lemma_path_within(small, big, p);
}

pub proof fn lemma_reaches_self(edges: Map<nat, EdgeView>, a: nat)
    ensures
        reaches(edges, a, a),
{
    let p = seq![a];
    assert(is_path(edges, p));
}

/// Extending a walk by one edge.
pub proof fn lemma_reaches_step(edges: Map<nat, EdgeView>, a: nat, b: nat, c: nat)
    requires
        reaches(edges, a, b),
        is_step(edges, b, c),
    ensures
        reaches(edges, a, c),
{
    let p = choose|p: Seq<nat>| #[trigger] is_path(edges, p) && p[0] == a && p.last() == b;
    let q = p.push(c);
    assert forall|i: int| 0 <= i < q.len() - 1 implies #[trigger] is_step(edges, q[i], q[i + 1]) by {
        if i < p.len() - 1 {
            assert(q[i] == p[i] && q[i + 1] == p[i + 1]);
            assert(is_step(edges, p[i], p[i + 1]));
        } else {
            assert(q[i] == b && q[i + 1] == c);
        }
    }
    assert(is_path(edges, q) && q[0] == a && q.last() == c);
}

/// Joining two walks end to start.
pub proof fn lemma_path_concat(edges: Map<nat, EdgeView>, p: Seq<nat>, q: Seq<nat>)
    requires
        is_path(edges, p),
        is_path(edges, q),
        p.last() == q[0],
    ensures
        is_path(edges, p + q.drop_first()),
        (p + q.drop_first())[0] == p[0],
        (p + q.drop_first()).last() == q.last(),
        (p + q.drop_first()).len() == p.len() + q.len() - 1,
{
    let r = p + q.drop_first();
    assert forall|i: int| 0 <= i < r.len() - 1 implies #[trigger] is_step(edges, r[i], r[i + 1]) by {
        if i < p.len() - 1 {
            assert(r[i] == p[i] && r[i + 1] == p[i + 1]);
            assert(is_step(edges, p[i], p[i + 1]));
        } else {
            let j = i - (p.len() - 1);
            assert(r[i] == q[j]);
            assert(r[i + 1] == q[j + 1]);
            assert(is_step(edges, q[j], q[j + 1]));
        }
    }
    if q.len() > 1 {
        assert(r.last() == q.drop_first().last());
    }
}

pub proof fn lemma_reaches_trans(edges: Map<nat, EdgeView>, a: nat, b: nat, c: nat)
    requires
        reaches(edges, a, b),
        reaches(edges, b, c),
    ensures
        reaches(edges, a, c),
{
    let p = choose|p: Seq<nat>| #[trigger] is_path(edges, p) && p[0] == a && p.last() == b;
    let q = choose|q: Seq<nat>| #[trigger] is_path(edges, q) && q[0] == b && q.last() == c;
    lemma_path_concat(edges, p, q);
    let r = p + q.drop_first();
    assert(is_path(edges, r) && r[0] == a && r.last() == c);
}

/// The edge map after adding edge `e` from `f` to `t`.
pub open spec fn with_edge(edges: Map<nat, EdgeView>, e: nat, f: nat, t: nat, flow: FlowView) -> Map<
    nat,
    EdgeView,
> {
    edges.insert(e, EdgeView { source: f, target: t, flow })
}

/// A walk in the graph with one more edge either is a walk of the old graph, or it
/// goes from its start to `f` and from `t` to its end in the old graph.
proof fn lemma_path_with_edge(
    edges: Map<nat, EdgeView>,
    e: nat,
    f: nat,
    t: nat,
    flow: FlowView,
    p: Seq<nat>,
)
    requires
        !edges.contains_key(e),
        is_path(with_edge(edges, e, f, t, flow), p),
    ensures
        is_path(edges, p) || (reaches(edges, p[0], f) && reaches(edges, t, p.last())),
    decreases p.len(),
{
    let big = with_edge(edges, e, f, t, flow);
    if p.len() == 1 {
        lemma_reaches_self(edges, p[0]);
        assert(is_path(edges, p));
    } else {
        let q = p.drop_last();
        assert(is_path(big, q)) by {
            assert forall|i: int| 0 <= i < q.len() - 1 implies #[trigger] is_step(big, q[i], q[i + 1]) by {
                assert(q[i] == p[i] && q[i + 1] == p[i + 1]);
                assert(is_step(big, p[i], p[i + 1]));
            }
        }
        lemma_path_with_edge(edges, e, f, t, flow, q);
        let c = q.last();
        let b = p.last();
        let i = p.len() - 2;
        assert(c == p[i]);
        assert(is_step(big, p[i], p[i + 1]));
        assert(p[i + 1] == b);
        let k = choose|k: nat|
            #![trigger big[k]]
            big.contains_key(k) && big[k].source == c && big[k].target == b;
        let old_step = k != e;
        if old_step {
            assert(edges.contains_key(k) && edges[k] == big[k]);
            assert(is_step(edges, c, b));
        }
        if is_path(edges, q) {
            if old_step {
                assert forall|i: int| 0 <= i < p.len() - 1 implies #[trigger] is_step(edges, p[i], p[i + 1]) by {
                    if i < p.len() - 2 {
                        assert(q[i] == p[i] && q[i + 1] == p[i + 1]);
                        assert(is_step(edges, q[i], q[i + 1]));
                    }
                }
            } else {
                assert(c == f && b == t);
                assert(reaches(edges, p[0], f)) by {
                    assert(is_path(edges, q) && q[0] == p[0] && q.last() == f);
                }
                lemma_reaches_self(edges, t);
            }
        } else {
            assert(reaches(edges, p[0], f));
            assert(reaches(edges, t, c));
            if old_step {
                lemma_reaches_step(edges, t, c, b);
            } else {
                assert(b == t);
                lemma_reaches_self(edges, t);
            }
        }
    }
}

/// Adding an edge from `f` to `t` to an acyclic graph closes a cycle exactly
/// when `t` already reaches `f`.
pub proof fn lemma_add_edge_cycle(edges: Map<nat, EdgeView>, e: nat, f: nat, t: nat, flow: FlowView)
    requires
        !edges.contains_key(e),
        !has_cycle(edges),
    ensures
        has_cycle(with_edge(edges, e, f, t, flow)) <==> reaches(edges, t, f),
{
    let big = with_edge(edges, e, f, t, flow);
    assert(edges_within(edges, big));
    if reaches(edges, t, f) {
        lemma_reaches_within(edges, big, t, f);
        let q = choose|q: Seq<nat>| #[trigger] is_path(big, q) && q[0] == t && q.last() == f;
        let p = seq![f, t];
        assert(is_step(big, f, t)) by {
            assert(big.contains_key(e) && big[e].source == f && big[e].target == t);
        }
        assert(is_path(big, p)) by {
            assert forall|i: int| 0 <= i < p.len() - 1 implies #[trigger] is_step(big, p[i], p[i + 1]) by {
                assert(i == 0);
            }
        }
        lemma_path_concat(big, p, q);
        let r = p + q.drop_first();
        assert(is_path(big, r) && r.len() >= 2 && r[0] == r.last());
    }
    if has_cycle(big) {
        let p = choose|p: Seq<nat>| #[trigger] is_path(big, p) && p.len() >= 2 && p[0] == p.last();
        lemma_path_with_edge(edges, e, f, t, flow, p);
        if is_path(edges, p) {
            assert(has_cycle(edges));
        } else {
            lemma_reaches_trans(edges, t, p.last(), f);
        }
    }
}

/// In an acyclic graph no two distinct nodes reach each other.
pub proof fn lemma_acyclic_no_mutual_reach(edges: Map<nat, EdgeView>, a: nat, b: nat)
    requires
        !has_cycle(edges),
        a != b,
        reaches(edges, a, b),
    ensures
        !reaches(edges, b, a),
{
    if reaches(edges, b, a) {
        let p = choose|p: Seq<nat>| #[trigger] is_path(edges, p) && p[0] == a && p.last() == b;
        let q = choose|q: Seq<nat>| #[trigger] is_path(edges, q) && q[0] == b && q.last() == a;
        assert(p.len() >= 2);
        lemma_path_concat(edges, p, q);
        let r = p + q.drop_first();
        assert(is_path(edges, r) && r.len() >= 2 && r[0] == r.last());
    }
}

/// Every walk of an acyclic graph visits distinct nodes.
pub proof fn lemma_acyclic_path_distinct(edges: Map<nat, EdgeView>, p: Seq<nat>)
    requires
        !has_cycle(edges),
        is_path(edges, p),
    ensures
        p.no_duplicates(),
{
    assert forall|i: int, j: int| 0 <= i < p.len() && 0 <= j < p.len() && i != j implies p[i] != p[j] by {
        if p[i] == p[j] {
            let (lo, hi) = if i < j { (i, j) } else { (j, i) };
            let q = p.subrange(lo, hi + 1);
            assert forall|k: int| 0 <= k < q.len() - 1 implies #[trigger] is_step(edges, q[k], q[k + 1]) by {
                assert(q[k] == p[lo + k] && q[k + 1] == p[lo + k + 1]);
                assert(is_step(edges, p[lo + k], p[lo + k + 1]));
            }
            assert(is_path(edges, q) && q.len() >= 2 && q[0] == q.last());
        }
    }
}

/// Disconnecting undoes connecting: when `f` had no flow to `t`, removing
/// the (only) flow from `f` to `t` after adding one gives back the edges as
/// they were.
pub proof fn lemma_disconnect_undoes_connect(
    edges: Map<nat, EdgeView>,
    e: nat,
    f: nat,
    t: nat,
    flow: FlowView,
    removed: nat,
)
    requires
        !edges.contains_key(e),
        !is_step(edges, f, t),
        with_edge(edges, e, f, t, flow).contains_key(removed),
        with_edge(edges, e, f, t, flow)[removed].source == f,
        with_edge(edges, e, f, t, flow)[removed].target == t,
    ensures
        removed == e,
        with_edge(edges, e, f, t, flow).remove(removed) == edges,
{
    if removed != e {
        assert(edges.contains_key(removed) && edges[removed].source == f && edges[removed].target == t);
        assert(is_step(edges, f, t));
    }
    assert(with_edge(edges, e, f, t, flow).remove(removed) =~= edges);
}
} // verus!
