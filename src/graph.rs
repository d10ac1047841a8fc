//! The graph container: a vertex map and a map from each source vertex to its
//! outgoing edges in insertion order.
use crate::hashing::{entry_keys, map_entries, map_get, map_insert, map_len, map_new, map_remove};
use fnv::FnvHashMap;
use std::hash::Hash;
use vstd::prelude::*;
use vstd::std_specs::cmp::PartialEqSpec;
use vstd::std_specs::hash::obeys_key_model;

verus! {

/// Whether the vertex identifiers behave as keys: hashing is deterministic
/// and the executable `==` is the mathematical equality.
pub open spec fn key_model<K: PartialEq>() -> bool {
    &&& obeys_key_model::<K>()
    &&& <K as PartialEqSpec>::obeys_eq_spec()
    &&& forall|a: K, b: K| #[trigger] a.eq_spec(&b) <==> a == b
}

/// The payload of the first edge of `edges` whose destination is `to`.
pub open spec fn first_to<VId, E>(edges: Seq<(VId, E)>, to: VId) -> Option<E>
    decreases edges.len(),
{
    if edges.len() == 0 {
        None
    } else if edges[0].0 == to {
        Some(edges[0].1)
    } else {
        first_to(edges.drop_first(), to)
    }
}

/// The mathematical content of a graph: each vertex's payload, and each
/// source's outgoing edges, oldest first.
#[verifier::reject_recursive_types(VId)]
pub struct GraphView<VId, E, V> {
    pub vertices: Map<VId, V>,
    pub adjacency: Map<VId, Seq<(VId, E)>>,
}

impl<VId, E, V> GraphView<VId, E, V> {
    pub open spec fn empty() -> Self {
        GraphView { vertices: Map::empty(), adjacency: Map::empty() }
    }

    /// A source's list is created by its first edge, so none is empty.
    pub open spec fn wf(self) -> bool {
        forall|k: VId| #[trigger] self.adjacency.contains_key(k) ==> self.adjacency[k].len() > 0
    }

    /// The outgoing edges of `id`; none if it has no list.
    pub open spec fn out_edges(self, id: VId) -> Seq<(VId, E)> {
        if self.adjacency.contains_key(id) {
            self.adjacency[id]
        } else {
            Seq::empty()
        }
    }

    pub open spec fn add_vertex(self, id: VId, payload: V) -> Self {
        GraphView { vertices: self.vertices.insert(id, payload), adjacency: self.adjacency }
    }

    pub open spec fn add_edge(self, from: VId, to: VId, edge: E) -> Self {
        GraphView {
            vertices: self.vertices,
            adjacency: self.adjacency.insert(from, self.out_edges(from).push((to, edge))),
        }
    }

    /// The payload of the oldest edge from `from` to `to`.
    pub open spec fn edge_between(self, from: VId, to: VId) -> Option<E> {
        first_to(self.out_edges(from), to)
    }

    /// The edges out of `from` as (source, destination, payload) triples.
    pub open spec fn out_triples(self, from: VId) -> Seq<(VId, VId, E)> {
        self.out_edges(from).map_values(|p: (VId, E)| (from, p.0, p.1))
    }

    /// The triples of the sources in `keys`, source by source in that order.
    pub open spec fn triples(self, keys: Seq<VId>) -> Seq<(VId, VId, E)>
        decreases keys.len(),
    {
        if keys.len() == 0 {
            Seq::empty()
        } else {
            self.triples(keys.drop_last()) + self.out_triples(keys.last())
        }
    }
}

/// The values behind a list of borrowed triples.
pub open spec fn deref_triples<VId, E>(s: Seq<(&VId, &VId, &E)>) -> Seq<(VId, VId, E)> {
    s.map_values(|t: (&VId, &VId, &E)| (*t.0, *t.1, *t.2))
}

/// A directed graph with vertex ids `VId`, edge payloads `E` and vertex
/// payloads `V`. Edges may name ids that were never pushed as vertices.
///
/// What the methods promise of the maps holds for id types that behave as
/// keys (`key_model`), as integers and other primitive types do.
#[verifier::reject_recursive_types(VId)]
#[verifier::reject_recursive_types(V)]
pub struct Graph<VId, E = (), V = ()> {
    pub(crate) vertices: FnvHashMap<VId, V>,
    pub(crate) adjacency: FnvHashMap<VId, Vec<(VId, E)>>,
}

impl<VId, E, V> View for Graph<VId, E, V> {
    type V = GraphView<VId, E, V>;

    closed spec fn view(&self) -> GraphView<VId, E, V> {
        GraphView {
            vertices: self.vertices@,
            adjacency: self.adjacency@.map_values(|l: Vec<(VId, E)>| l@),
        }
    }
}

impl<VId: Eq + Hash, E, V: Hash> Graph<VId, E, V> {
    pub fn new() -> (g: Graph<VId, E, V>)
        ensures
            g@ == GraphView::<VId, E, V>::empty(),
            g@.wf(),
    {
        let g = Graph { vertices: map_new(), adjacency: map_new() };
        assert(g@.adjacency =~= Map::<VId, Seq<(VId, E)>>::empty());
        g
    }

    /// Inserts the vertex `vid`, replacing its payload if it is already there.
    pub fn push_vertex(&mut self, vid: VId, vertex: V)
        ensures
            final(self)@.adjacency == old(self)@.adjacency,
            key_model::<VId>() ==> final(self)@ == old(self)@.add_vertex(vid, vertex),
    {
        map_insert(&mut self.vertices, vid, vertex);
    }

    /// Appends an edge from `from` to `to` to the outgoing edges of `from`.
    pub fn push_edge(&mut self, from: VId, to: VId, edge: E)
        ensures
            final(self)@.vertices == old(self)@.vertices,
            key_model::<VId>() ==> final(self)@ == old(self)@.add_edge(from, to, edge),
            key_model::<VId>() && old(self)@.wf() ==> final(self)@.wf(),
    {
        let ghost before = self@;
        let mut list = match map_remove(&mut self.adjacency, &from) {
            Some(l) => l,
            None => Vec::new(),
        };
        proof {
            if key_model::<VId>() {
                assert(list@ == before.out_edges(from));
            }
        }
        list.push((to, edge));
        map_insert(&mut self.adjacency, from, list);
        proof {
            if key_model::<VId>() {
                assert(self@.adjacency =~= before.add_edge(from, to, edge).adjacency);
            }
        }
    }

    /// The payload of the vertex `vid`, if it has been pushed.
    pub fn get_vertex(&self, vid: &VId) -> (r: Option<&V>)
        ensures
            key_model::<VId>() ==> match r {
                Some(v) => self@.vertices.contains_key(*vid) && *v == self@.vertices[*vid],
                None => !self@.vertices.contains_key(*vid),
            },
    {
        map_get(&self.vertices, vid)
    }

    /// The number of distinct vertices pushed.
    pub fn vertex_count(&self) -> (r: usize)
        ensures
            key_model::<VId>() ==> r == self@.vertices.len(),
    {
        map_len(&self.vertices)
    }

    /// Every vertex with its payload, each once, in no particular order.
    pub fn iter_vertices(&self) -> (r: Vec<(&VId, &V)>)
        ensures
            key_model::<VId>() ==> {
                &&& entry_keys(r@).no_duplicates()
                &&& entry_keys(r@).to_set() == self@.vertices.dom()
                &&& forall|i: int|
                    0 <= i < r@.len() ==> #[trigger] self@.vertices[*r@[i].0] == *r@[i].1
            },
    {
        let r = map_entries(&self.vertices);
        proof {
            if key_model::<VId>() {
                assert forall|k: VId| entry_keys(r@).to_set().contains(k)
                    <==> self@.vertices.dom().contains(k) by {
                    if self@.vertices.dom().contains(k) {
                        let i = choose|i: int| 0 <= i < r@.len() && *r@[i].0 == k;
                        assert(entry_keys(r@)[i] == k);
                    }
                }
                assert(entry_keys(r@).to_set() =~= self@.vertices.dom());
            }
        }
        r
    }

    /// The payload of the oldest edge from `from` to `to`, if there is one.
    pub fn get_edge(&self, from_vid: VId, to_vid: VId) -> (r: Option<&E>)
        ensures
            key_model::<VId>() ==> match r {
                Some(e) => self@.edge_between(from_vid, to_vid) == Some(*e),
                None => self@.edge_between(from_vid, to_vid) is None,
            },
    {
        match map_get(&self.adjacency, &from_vid) {
            None => None,
            Some(list) => {
                let ghost out = list@;
                assert(out.subrange(0, out.len() as int) =~= out);
                let mut i: usize = 0;
                while i < list.len()
                    invariant
                        0 <= i <= out.len(),
                        out == list@,
                        key_model::<VId>() ==> out == self@.out_edges(from_vid),
                        first_to(out, to_vid) == first_to(out.subrange(i as int, out.len() as int), to_vid)
                            || !key_model::<VId>(),
                    decreases list.len() - i,
                {
                    let ghost rest = out.subrange(i as int, out.len() as int);
                    assert(rest.drop_first() =~= out.subrange(i + 1, out.len() as int));
                    let found = list[i].0 == to_vid;
                    if found {
                        proof {
                            if key_model::<VId>() {
                                assert(list[i as int].0.eq_spec(&to_vid));
                                assert(rest[0] == out[i as int]);
                                assert(first_to(rest, to_vid) == Some(out[i as int].1));
                                assert(out == self@.out_edges(from_vid));
                            }
                        }
                        return Some(&list[i].1);
                    }
                    proof {
                        if key_model::<VId>() {
                            assert(list[i as int].0.eq_spec(&to_vid) == found);
                        }
                    }
                    i += 1;
                }
                assert(out.subrange(i as int, out.len() as int) =~= Seq::<(VId, E)>::empty());
                None
            },
        }
    }

    /// Each source with its outgoing edges, each source once, in no
    /// particular order.
    pub fn iter_edges(&self) -> (r: Vec<(&VId, &Vec<(VId, E)>)>)
        ensures
            key_model::<VId>() ==> {
                &&& entry_keys(r@).no_duplicates()
                &&& entry_keys(r@).to_set() == self@.adjacency.dom()
                &&& forall|i: int|
                    0 <= i < r@.len() ==> #[trigger] self@.adjacency[*r@[i].0] == r@[i].1@
            },
    {
        let r = map_entries(&self.adjacency);
        proof {
            if key_model::<VId>() {
                assert forall|k: VId| entry_keys(r@).to_set().contains(k)
                    <==> self@.adjacency.dom().contains(k) by {
                    if self@.adjacency.dom().contains(k) {
                        let i = choose|i: int| 0 <= i < r@.len() && *r@[i].0 == k;
                        assert(entry_keys(r@)[i] == k);
                    }
                }
                assert(entry_keys(r@).to_set() =~= self@.adjacency.dom());
            }
        }
        r
    }

    /// Every edge as a (source, destination, payload) triple: the sources
    /// in some order, each source's edges oldest first.
    pub fn iter_complete_edges(&self) -> (r: Vec<(&VId, &VId, &E)>)
        ensures
            key_model::<VId>() ==> exists|keys: Seq<VId>|
                {
                    &&& keys.no_duplicates()
                    &&& keys.to_set() == self@.adjacency.dom()
                    &&& deref_triples(r@) == #[trigger] self@.triples(keys)
                },
    {
        let entries = self.iter_edges();
        let ghost keys = entry_keys(entries@);
        let mut r: Vec<(&VId, &VId, &E)> = Vec::new();
        let mut i: usize = 0;
        while i < entries.len()
            invariant
                0 <= i <= entries@.len(),
                keys == entry_keys(entries@),
                key_model::<VId>() ==> forall|k: int|
                    0 <= k < entries@.len() ==> #[trigger] self@.adjacency[*entries@[k].0]
                        == entries@[k].1@,
                key_model::<VId>() ==> forall|k: int|
                    0 <= k < entries@.len() ==> self@.adjacency.contains_key(#[trigger] keys[k]),
                key_model::<VId>() ==> deref_triples(r@) == self@.triples(keys.subrange(0, i as int)),
            decreases entries.len() - i,
        {
            let from: &VId = entries[i].0;
            let list: &Vec<(VId, E)> = entries[i].1;
            let ghost before = deref_triples(r@);
            let mut j: usize = 0;
            while j < list.len()
                invariant
                    0 <= j <= list@.len(),
                    deref_triples(r@) == before + list@.subrange(0, j as int).map_values(
                        |p: (VId, E)| (*from, p.0, p.1),
                    ),
                decreases list.len() - j,
            {
                let p: &(VId, E) = &list[j];
                let ghost r0 = r@;
                r.push((from, &p.0, &p.1));
                proof {
                    let tail0 = list@.subrange(0, j as int).map_values(|p: (VId, E)| (*from, p.0, p.1));
                    let tail1 = list@.subrange(0, j + 1).map_values(|p: (VId, E)| (*from, p.0, p.1));
                    assert(deref_triples(r@) =~= deref_triples(r0).push((*from, p.0, p.1)));
                    assert(tail1 =~= tail0.push((*from, p.0, p.1)));
                    assert(deref_triples(r@) =~= before + tail1);
                }
                j += 1;
            }
            proof {
                if key_model::<VId>() {
                    let ks = keys.subrange(0, i + 1);
                    assert(ks.len() == i + 1);
                    assert(ks.drop_last() =~= keys.subrange(0, i as int));
                    assert(keys[i as int] == *from);
                    assert(list@.subrange(0, list@.len() as int) =~= list@);
                    assert(self@.out_edges(*from) == list@);
                    assert(deref_triples(r@) =~= self@.triples(ks));
                }
            }
            i += 1;
        }
        proof {
            if key_model::<VId>() {
                assert(keys.subrange(0, entries@.len() as int) =~= keys);
                assert(deref_triples(r@) == self@.triples(keys));
            }
        }
        r
    }

    /// The outgoing edges of `vid`, oldest first; none if no edge leaves it.
    pub fn incident_edges(&self, vid: &VId) -> (r: Option<&Vec<(VId, E)>>)
        ensures
            key_model::<VId>() ==> match r {
                Some(l) => self@.adjacency.contains_key(*vid) && l@ == self@.adjacency[*vid],
                None => !self@.adjacency.contains_key(*vid),
            },
    {
        map_get(&self.adjacency, vid)
    }

    /// `f` applied to each outgoing edge of `vid`, oldest first.
    pub fn map_adjacent<F, R>(&self, vid: VId, f: F) -> (r: Vec<R>)
        where
            F: Fn(&(VId, E)) -> R,
        requires
            forall|x: &(VId, E)| #[trigger] f.requires((x,)),
        ensures
            key_model::<VId>() ==> {
                &&& r@.len() == self@.out_edges(vid).len()
                &&& forall|i: int|
                    0 <= i < r@.len() ==> f.ensures((&self@.out_edges(vid)[i],), #[trigger] r@[i])
            },
    {
        let mut r: Vec<R> = Vec::new();
        match map_get(&self.adjacency, &vid) {
            None => {},
            Some(list) => {
                let mut i: usize = 0;
                while i < list.len()
                    invariant
                        0 <= i <= list@.len(),
                        r@.len() == i,
                        forall|x: &(VId, E)| #[trigger] f.requires((x,)),
                        forall|k: int| 0 <= k < i ==> f.ensures((&list@[k],), #[trigger] r@[k]),
                    decreases list.len() - i,
                {
                    let y = f(&list[i]);
                    r.push(y);
                    i += 1;
                }
            },
        }
        r
    }
}

impl<VId: Eq + Hash, E> Graph<VId, E, ()> {
    /// Inserts the vertex `vid` with no payload.
    pub fn push_vid(&mut self, vid: VId)
        ensures
            final(self)@.adjacency == old(self)@.adjacency,
            key_model::<VId>() ==> final(self)@ == old(self)@.add_vertex(vid, ()),
    {
        self.push_vertex(vid, ());
    }
}

impl<VId: Eq + Hash + Clone, E: Clone, V: Hash> Graph<VId, E, V> {
    /// Pushes the edge `from -> to` with a copy of `edge`, then `to -> from`.
    pub fn push_undirected_edge(&mut self, from: VId, to: VId, edge: E)
        ensures
            final(self)@.vertices == old(self)@.vertices,
            key_model::<VId>() ==> exists|from2: VId, to2: VId, edge2: E|
                {
                    &&& cloned(from, from2)
                    &&& cloned(to, to2)
                    &&& cloned(edge, edge2)
                    &&& final(self)@ == #[trigger] old(self)@.add_edge(from2, to2, edge2).add_edge(
                        to,
                        from,
                        edge,
                    )
                },
    {
        let from2 = from.clone();
        let to2 = to.clone();
        let edge2 = edge.clone();
        self.push_edge(from2, to2, edge2);
        self.push_edge(to, from, edge);
    }
}

} // verus!
