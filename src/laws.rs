//! Laws of the graph's operations, stated over `GraphView`: the value that
//! `Graph`'s methods are specified against.
use crate::graph::{first_to, GraphView};
use vstd::multiset::Multiset;
use vstd::prelude::*;
use vstd::seq_lib::{group_to_multiset_ensures, lemma_multiset_commutative};

verus! {

/// `g` after `push_vertex` of each (id, payload) of `pushes`, in order.
pub open spec fn push_vertices<VId, E, V>(g: GraphView<VId, E, V>, pushes: Seq<(VId, V)>) -> GraphView<VId, E, V>
    decreases pushes.len(),
{
    if pushes.len() == 0 {
        g
    } else {
        push_vertices(g, pushes.drop_last()).add_vertex(pushes.last().0, pushes.last().1)
    }
}

/// `g` after `push_edge` of each (from, to, payload) of `pushes`, in order.
pub open spec fn push_edges<VId, E, V>(g: GraphView<VId, E, V>, pushes: Seq<(VId, VId, E)>) -> GraphView<VId, E, V>
    decreases pushes.len(),
{
    if pushes.len() == 0 {
        g
    } else {
        push_edges(g, pushes.drop_last()).add_edge(pushes.last().0, pushes.last().1, pushes.last().2)
    }
}

/// The ids of a list of vertex pushes.
pub open spec fn pushed_ids<VId, V>(pushes: Seq<(VId, V)>) -> Seq<VId> {
    pushes.map_values(|p: (VId, V)| p.0)
}

/// Starting from an empty graph, the vertices after any sequence of
/// `push_vertex` calls are exactly the distinct ids pushed: pushing an id
/// again replaces its payload and does not add a vertex.
pub proof fn lemma_vertex_count<VId, E, V>(pushes: Seq<(VId, V)>)
    ensures
        push_vertices(GraphView::<VId, E, V>::empty(), pushes).vertices.dom()
            == pushed_ids(pushes).to_set(),
        push_vertices(GraphView::<VId, E, V>::empty(), pushes).vertices.len()
            == pushed_ids(pushes).to_set().len(),
    decreases pushes.len(),
{
    let g = push_vertices(GraphView::<VId, E, V>::empty(), pushes);
    if pushes.len() == 0 {
        assert(pushed_ids(pushes).to_set() =~= Set::empty());
        assert(g.vertices.dom() =~= Set::empty());
    } else {
        let rest = pushes.drop_last();
        lemma_vertex_count::<VId, E, V>(rest);
        let ids = pushed_ids(pushes);
        assert(pushed_ids(rest) =~= ids.drop_last());
        assert(ids =~= ids.drop_last().push(pushes.last().0));
        assert forall|k: VId| ids.to_set().contains(k) <==> g.vertices.dom().contains(k) by {
            if ids.to_set().contains(k) {
                let i = choose|i: int| 0 <= i < ids.len() && ids[i] == k;
                if i < ids.len() - 1 {
                    assert(pushed_ids(rest)[i] == k);
                }
            }
            if g.vertices.dom().contains(k) && k != pushes.last().0 {
                assert(pushed_ids(rest).to_set().contains(k));
                let i = choose|i: int| 0 <= i < rest.len() && pushed_ids(rest)[i] == k;
                assert(ids[i] == k);
            }
            if k == pushes.last().0 {
                assert(ids[ids.len() - 1] == k);
            }
        }
        assert(g.vertices.dom() =~= ids.to_set());
    }
}

/// `push_edge(from, to, edge)` makes `(to, edge)` the last outgoing edge of
/// `from`, lengthens that list by exactly one, and leaves every other
/// source's list as it was.
pub proof fn lemma_push_edge_appends<VId, E, V>(g: GraphView<VId, E, V>, from: VId, to: VId, edge: E)
    ensures
        g.add_edge(from, to, edge).out_edges(from).last() == (to, edge),
        g.add_edge(from, to, edge).out_edges(from).len() == g.out_edges(from).len() + 1,
        forall|k: VId| k != from ==> #[trigger] g.add_edge(from, to, edge).out_edges(k) == g.out_edges(k),
{
}

/// An undirected edge between `a` and `b` leaves `(b, e1)` among the
/// outgoing edges of `a` and `(a, e2)` among those of `b`, where `e1` and
/// `e2` are the two copies of its payload; for `a == b` both stay.
pub proof fn lemma_undirected_entries<VId, E, V>(g: GraphView<VId, E, V>, a: VId, b: VId, e1: E, e2: E)
    ensures
        g.add_edge(a, b, e1).add_edge(b, a, e2).out_edges(a).contains((b, e1)),
        g.add_edge(a, b, e1).add_edge(b, a, e2).out_edges(b).contains((a, e2)),
{
    let h1 = g.add_edge(a, b, e1);
    let h2 = h1.add_edge(b, a, e2);
    let la = h1.out_edges(a);
    assert(la[la.len() - 1] == (b, e1));
    assert(h2.out_edges(b)[h2.out_edges(b).len() - 1] == (a, e2));
    if a == b {
        assert(h2.out_edges(a)[la.len() - 1] == (b, e1));
    } else {
        assert(h2.out_edges(a) == la);
    }
}

/// The first edge to `to` in `s` followed by `x`.
proof fn lemma_first_to_push<VId, E>(s: Seq<(VId, E)>, x: (VId, E), to: VId)
    ensures
        first_to(s.push(x), to) == (if first_to(s, to) is Some {
            first_to(s, to)
        } else if x.0 == to {
            Some(x.1)
        } else {
            None
        }),
    decreases s.len(),
{
    if s.len() == 0 {
        assert(s.push(x).drop_first() =~= Seq::<(VId, E)>::empty());
        assert(first_to(Seq::<(VId, E)>::empty(), to) is None);
        assert(s.push(x)[0] == x);
    } else {
        assert(s.push(x).drop_first() =~= s.drop_first().push(x));
        assert(s.push(x)[0] == s[0]);
        lemma_first_to_push(s.drop_first(), x, to);
    }
}

/// Parallel edges: once an edge from `from` to `to` exists, pushing more
/// edges out of `from` does not change which payload `get_edge` returns;
/// with none yet, the pushed edge's payload becomes the one returned.
pub proof fn lemma_first_edge_kept<VId, E, V>(g: GraphView<VId, E, V>, from: VId, to: VId, to2: VId, edge: E)
    ensures
        g.edge_between(from, to) is Some ==> g.add_edge(from, to2, edge).edge_between(from, to)
            == g.edge_between(from, to),
        g.edge_between(from, to) is None ==> g.add_edge(from, to, edge).edge_between(from, to)
            == Some(edge),
{
    lemma_first_to_push(g.out_edges(from), (to2, edge), to);
    lemma_first_to_push(g.out_edges(from), (to, edge), to);
}

/// In a graph built by the graph's own operations, an id with no outgoing
/// edges has no edge list at all: `incident_edges` reports it absent and
/// `map_adjacent` maps nothing.
pub proof fn lemma_no_out_edges<VId, E, V>(g: GraphView<VId, E, V>, id: VId)
    requires
        g.wf(),
        g.out_edges(id).len() == 0,
    ensures
        !g.adjacency.contains_key(id),
{
}

/// Each push keeps a graph well formed.
pub proof fn lemma_push_edges_wf<VId, E, V>(g: GraphView<VId, E, V>, pushes: Seq<(VId, VId, E)>)
    requires
        g.wf(),
    ensures
        push_edges(g, pushes).wf(),
    decreases pushes.len(),
{
    if pushes.len() > 0 {
        lemma_push_edges_wf(g, pushes.drop_last());
    }
}

/// The triples of sources other than `from` do not see an edge pushed out of `from`.
proof fn lemma_triples_other<VId, E, V>(g: GraphView<VId, E, V>, keys: Seq<VId>, from: VId, to: VId, edge: E)
    requires
        !keys.contains(from),
    ensures
        g.add_edge(from, to, edge).triples(keys) == g.triples(keys),
    decreases keys.len(),
{
    if keys.len() > 0 {
        let rest = keys.drop_last();
        assert(!rest.contains(from)) by {
            if rest.contains(from) {
                let i = choose|i: int| 0 <= i < rest.len() && rest[i] == from;
                assert(keys[i] == from);
            }
        }
        assert(keys[keys.len() - 1] != from);
        lemma_triples_other(g, rest, from, to, edge);
    }
}

/// A pushed edge adds its triple, once, to the triples of any sources that
/// list its source once.
proof fn lemma_triples_add<VId, E, V>(g: GraphView<VId, E, V>, keys: Seq<VId>, from: VId, to: VId, edge: E)
    requires
        keys.no_duplicates(),
        keys.contains(from),
    ensures
        g.add_edge(from, to, edge).triples(keys).to_multiset()
            == g.triples(keys).to_multiset().insert((from, to, edge)),
    decreases keys.len(),
{
    broadcast use group_to_multiset_ensures, lemma_multiset_commutative;

    let h = g.add_edge(from, to, edge);
    let rest = keys.drop_last();
    let k = keys.last();
    let x = (from, to, edge);
    if k == from {
        assert(!rest.contains(from)) by {
            if rest.contains(from) {
                let i = choose|i: int| 0 <= i < rest.len() && rest[i] == from;
                assert(keys[i] == keys[keys.len() - 1]);
            }
        }
        lemma_triples_other(g, rest, from, to, edge);
        assert(h.out_triples(from) =~= g.out_triples(from).push(x));
        assert(h.triples(keys) =~= (g.triples(rest) + g.out_triples(from)).push(x));
    } else {
        assert(rest.contains(from)) by {
            let i = choose|i: int| 0 <= i < keys.len() && keys[i] == from;
            assert(rest[i] == from);
        }
        assert(rest.no_duplicates());
        lemma_triples_add(g, rest, from, to, edge);
        assert(h.out_triples(k) == g.out_triples(k));
        assert(h.triples(keys).to_multiset() =~= g.triples(keys).to_multiset().insert(x));
    }
}

/// A graph with no edge lists has no triples.
proof fn lemma_triples_none<VId, E, V>(g: GraphView<VId, E, V>, keys: Seq<VId>)
    requires
        g.adjacency.dom() == Set::<VId>::empty(),
    ensures
        g.triples(keys) == Seq::<(VId, VId, E)>::empty(),
    decreases keys.len(),
{
    if keys.len() > 0 {
        lemma_triples_none(g, keys.drop_last());
        assert(!g.adjacency.dom().contains(keys.last()));
        assert(g.out_triples(keys.last()) =~= Seq::<(VId, VId, E)>::empty());
        assert(g.triples(keys) =~= Seq::<(VId, VId, E)>::empty());
    }
}

proof fn lemma_triples_of_pushes<VId, E, V>(pushes: Seq<(VId, VId, E)>, keys: Seq<VId>)
    requires
        keys.no_duplicates(),
        push_edges(GraphView::<VId, E, V>::empty(), pushes).adjacency.dom().subset_of(keys.to_set()),
    ensures
        push_edges(GraphView::<VId, E, V>::empty(), pushes).triples(keys).to_multiset()
            == pushes.to_multiset(),
    decreases pushes.len(),
{
    broadcast use group_to_multiset_ensures;

    let g0 = GraphView::<VId, E, V>::empty();
    if pushes.len() == 0 {
        lemma_triples_none(g0, keys);
        assert(pushes.to_multiset() =~= Multiset::empty());
        assert(Seq::<(VId, VId, E)>::empty().to_multiset() =~= Multiset::empty());
    } else {
        let rest = pushes.drop_last();
        let x = pushes.last();
        let g = push_edges(g0, rest);
        assert(g.adjacency.dom().subset_of(keys.to_set())) by {
            assert forall|k: VId| g.adjacency.dom().contains(k) implies keys.to_set().contains(k) by {
                assert(push_edges(g0, pushes).adjacency.dom().contains(k));
            }
        }
        lemma_triples_of_pushes::<VId, E, V>(rest, keys);
        assert(push_edges(g0, pushes).adjacency.dom().contains(x.0));
        assert(keys.to_set().contains(x.0));
        lemma_triples_add(g, keys, x.0, x.1, x.2);
        assert(pushes =~= rest.push(x));
    }
}

/// Starting from an empty graph, the triples that `iter_complete_edges`
/// lists, whatever order of sources it takes, are exactly the edges pushed,
/// one triple per `push_edge` call, duplicates included.
pub proof fn lemma_complete_edges_round_trip<VId, E, V>(pushes: Seq<(VId, VId, E)>, keys: Seq<VId>)
    requires
        keys.no_duplicates(),
        keys.to_set() == push_edges(GraphView::<VId, E, V>::empty(), pushes).adjacency.dom(),
    ensures
        push_edges(GraphView::<VId, E, V>::empty(), pushes).triples(keys).to_multiset()
            == pushes.to_multiset(),
{
    lemma_triples_of_pushes::<VId, E, V>(pushes, keys);
}

} // verus!
