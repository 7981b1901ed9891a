//! The graph engine: lazily created vertices and edges, canonical edge
//! naming, multiplicity counting and adjacency maintenance.

use std::collections::HashMap;

use vstd::prelude::*;

use crate::naming::lemma_pair_name_injective;
use crate::naming::pair_name;
use crate::naming::pair_name_string;

verus! {

broadcast use vstd::std_specs::hash::group_hash_axioms;

/// The two edge-identity disciplines a graph can follow.
#[derive(Debug, Clone, Copy, PartialEq, Eq, Structural)]
pub enum GraphType {
    Undirected,
    Directed,
}

/// The canonical ordering of an endpoint pair: as given for a directed
/// graph, smaller endpoint first for an undirected one.
pub open spec fn ordered_pair(kind: GraphType, v1: u32, v2: u32) -> (u32, u32) {
    if kind == GraphType::Directed || v1 <= v2 {
        (v1, v2)
    } else {
        (v2, v1)
    }
}

/// The canonical name of the edge between `v1` and `v2`, such as `1_2`.
pub open spec fn edge_name_spec(kind: GraphType, v1: u32, v2: u32) -> Seq<char> {
    pair_name(ordered_pair(kind, v1, v2).0 as nat, ordered_pair(kind, v1, v2).1 as nat)
}

/// An ordered pair packed into a single map key; injective because both
/// halves are below two to the thirty-second.
pub open spec fn pair_key(a: u32, b: u32) -> u64 {
    ((a as int) * 0x1_0000_0000 + (b as int)) as u64
}

/// The canonical lookup key of the edge between `v1` and `v2`.
pub open spec fn edge_key(kind: GraphType, v1: u32, v2: u32) -> u64 {
    pair_key(ordered_pair(kind, v1, v2).0, ordered_pair(kind, v1, v2).1)
}

/// Equal packed keys come from equal pairs.
pub proof fn lemma_pair_key_injective(a1: u32, b1: u32, a2: u32, b2: u32)
    requires
        pair_key(a1, b1) == pair_key(a2, b2),
    ensures
        a1 == a2,
        b1 == b2,
{
}

/// Two endpoint pairs get the same canonical key exactly when they get the
/// same canonical name.
pub proof fn lemma_edge_key_matches_name(kind: GraphType, a1: u32, b1: u32, a2: u32, b2: u32)
    ensures
        (edge_key(kind, a1, b1) == edge_key(kind, a2, b2)) <==> (edge_name_spec(kind, a1, b1)
            == edge_name_spec(kind, a2, b2)),
{
    let p1 = ordered_pair(kind, a1, b1);
    let p2 = ordered_pair(kind, a2, b2);
    if edge_key(kind, a1, b1) == edge_key(kind, a2, b2) {
        lemma_pair_key_injective(p1.0, p1.1, p2.0, p2.1);
    }
    if edge_name_spec(kind, a1, b1) == edge_name_spec(kind, a2, b2) {
        lemma_pair_name_injective(p1.0 as nat, p1.1 as nat, p2.0 as nat, p2.1 as nat);
    }
}

/// An edge record: its name, its two endpoints in the order they were first
/// given, and how many times it has been added.
#[derive(Debug)]
pub struct Edge {
    edge_id: String,
    vertex1: u32,
    vertex2: u32,
    count: u32,
}

impl Edge {
    /// The name of the edge.
    pub closed spec fn spec_id(self) -> Seq<char> {
        self.edge_id@
    }

    /// The first endpoint as given at creation.
    pub closed spec fn spec_v1(self) -> u32 {
        self.vertex1
    }

    /// The second endpoint as given at creation.
    pub closed spec fn spec_v2(self) -> u32 {
        self.vertex2
    }

    /// The multiplicity counter.
    pub closed spec fn spec_count(self) -> u32 {
        self.count
    }

    /// A fresh edge record carries multiplicity one.
    pub fn new(id: &String, v1: u32, v2: u32) -> (e: Edge)
        ensures
            e.spec_id() == id@,
            e.spec_v1() == v1,
            e.spec_v2() == v2,
            e.spec_count() == 1,
    {
        Edge { edge_id: id.clone(), vertex1: v1, vertex2: v2, count: 1 }
    }

    /// Adds one to the multiplicity counter; everything else is kept.
    pub fn incr_cnt(&mut self)
        requires
            old(self).spec_count() < u32::MAX,
        ensures
            final (self).spec_count() == old(self).spec_count() + 1,
            final (self).spec_id() == old(self).spec_id(),
            final (self).spec_v1() == old(self).spec_v1(),
            final (self).spec_v2() == old(self).spec_v2(),
    {
        self.count = self.count + 1;
    }

    /// The multiplicity counter.
    pub fn count(&self) -> (c: u32)
        ensures
            c == self.spec_count(),
    {
        self.count
    }

    /// The name of the edge.
    pub fn id(&self) -> (r: &String)
        ensures
            r@ == self.spec_id(),
    {
        &self.edge_id
    }

    /// The first endpoint as given at creation.
    pub fn vertex1(&self) -> (r: u32)
        ensures
            r == self.spec_v1(),
    {
        self.vertex1
    }

    /// The second endpoint as given at creation.
    pub fn vertex2(&self) -> (r: u32)
        ensures
            r == self.spec_v2(),
    {
        self.vertex2
    }
}

/// A vertex record: its identifier and the ordered adjacency sequence, one
/// entry per endpoint touch of an edge creation.
#[derive(Debug, Clone)]
pub struct Vertex {
    vertex_id: u32,
    adjacent: Vec<u32>,
}

impl Vertex {
    /// The vertex identifier.
    pub closed spec fn spec_id(self) -> u32 {
        self.vertex_id
    }

    /// The adjacency sequence, in insertion order.
    pub closed spec fn spec_adjacent(self) -> Seq<u32> {
        self.adjacent@
    }

    /// A fresh vertex record with an empty adjacency sequence.
    pub fn new(id: &u32) -> (v: Vertex)
        ensures
            v.spec_id() == *id,
            v.spec_adjacent() == Seq::<u32>::empty(),
    {
        Vertex { vertex_id: *id, adjacent: Vec::new() }
    }

    /// Appends a neighbour to the adjacency sequence.
    pub fn add_adjacent(&mut self, vertex_id: u32)
        ensures
            final (self).spec_id() == old(self).spec_id(),
            final (self).spec_adjacent() == old(self).spec_adjacent().push(vertex_id),
    {
        self.adjacent.push(vertex_id);
    }

    /// The vertex identifier.
    pub fn id(&self) -> (r: u32)
        ensures
            r == self.spec_id(),
    {
        self.vertex_id
    }

    /// The adjacency sequence, in insertion order.
    pub fn adjacent(&self) -> (r: &Vec<u32>)
        ensures
            r@ == self.spec_adjacent(),
    {
        &self.adjacent
    }
}

/// The graph: discovery-ordered vertex and edge identifier sequences, and
/// the records they identify, keyed for duplicate detection.
#[derive(Debug)]
pub struct Graph {
    graph_type: GraphType,
    /// Vertex identifiers in discovery order, each exactly once.
    pub vertex_list: Vec<u32>,
    /// Edge names in creation order, each exactly once.
    pub edge_list: Vec<String>,
    vertex_map: HashMap<u32, Vertex>,
    edge_map: HashMap<u64, Edge>,
    edge_ends: Vec<(u32, u32)>,
}

impl Graph {
    /// The graph's edge-identity discipline, fixed at creation.
    pub closed spec fn spec_kind(self) -> GraphType {
        self.graph_type
    }

    /// The vertex identifiers in discovery order.
    pub closed spec fn spec_vertices(self) -> Seq<u32> {
        self.vertex_list@
    }

    /// The edge names in creation order.
    pub closed spec fn spec_edge_names(self) -> Seq<Seq<char>> {
        self.edge_list@.map_values(|s: String| s@)
    }

    /// The endpoint pairs of the edges, in creation order, as first given.
    pub closed spec fn spec_ends(self) -> Seq<(u32, u32)> {
        self.edge_ends@
    }

    /// Whether the vertex exists.
    pub closed spec fn spec_has_vertex(self, id: u32) -> bool {
        self.vertex_map@.contains_key(id)
    }

    /// The adjacency sequence of an existing vertex.
    pub closed spec fn spec_adjacent(self, id: u32) -> Seq<u32> {
        self.vertex_map@[id].spec_adjacent()
    }

    /// Whether the edge between the two endpoints exists, under the graph's
    /// canonicalization.
    pub closed spec fn spec_has_edge(self, v1: u32, v2: u32) -> bool {
        self.edge_map@.contains_key(edge_key(self.graph_type, v1, v2))
    }

    /// The record of an existing edge.
    pub closed spec fn spec_edge(self, v1: u32, v2: u32) -> Edge {
        self.edge_map@[edge_key(self.graph_type, v1, v2)]
    }

    /// The canonical key of the endpoint pair first given for edge `i`.
    spec fn ends_key(self, i: int) -> u64 {
        edge_key(self.graph_type, self.edge_ends@[i].0, self.edge_ends@[i].1)
    }

    /// The vertex sequence and the vertex map key the same identifiers,
    /// each exactly once, and every record carries its own key.
    spec fn vertices_wf(self) -> bool {
        &&& self.vertex_list@.no_duplicates()
        &&& forall|id: u32|
            (#[trigger] self.vertex_map@.contains_key(id)) <==> self.vertex_list@.contains(id)
        &&& forall|id: u32| #[trigger]
            self.vertex_map@.contains_key(id) ==> self.vertex_map@[id].spec_id() == id
    }

    /// Each edge stands once in the name sequence, once in the endpoint
    /// sequence and once in the map, under one canonical key and name.
    spec fn edges_wf(self) -> bool {
        &&& self.edge_ends@.len() == self.edge_list@.len()
        &&& forall|i: int|
            #![trigger self.edge_ends@[i]]
            0 <= i < self.edge_ends@.len() ==> {
                &&& self.edge_map@.contains_key(self.ends_key(i))
                &&& self.edge_map@[self.ends_key(i)].spec_v1() == self.edge_ends@[i].0
                &&& self.edge_map@[self.ends_key(i)].spec_v2() == self.edge_ends@[i].1
                &&& self.edge_list@[i]@ == edge_name_spec(
                    self.graph_type,
                    self.edge_ends@[i].0,
                    self.edge_ends@[i].1,
                )
            }
        &&& forall|i: int, j: int|
            #![trigger self.ends_key(i), self.ends_key(j)]
            0 <= i < self.edge_ends@.len() && 0 <= j < self.edge_ends@.len() && i != j
                ==> self.ends_key(i) != self.ends_key(j)
        &&& forall|k: u64| #[trigger]
            self.edge_map@.contains_key(k) ==> exists|i: int|
                0 <= i < self.edge_ends@.len() && #[trigger] self.ends_key(i) == k
        &&& forall|k: u64| #[trigger]
            self.edge_map@.contains_key(k) ==> {
                &&& k == edge_key(
                    self.graph_type,
                    self.edge_map@[k].spec_v1(),
                    self.edge_map@[k].spec_v2(),
                )
                &&& self.edge_map@[k].spec_id() == edge_name_spec(
                    self.graph_type,
                    self.edge_map@[k].spec_v1(),
                    self.edge_map@[k].spec_v2(),
                )
            }
    }

    /// Every edge endpoint exists as a vertex.
    spec fn edge_endpoints_wf(self) -> bool {
        forall|k: u64| #[trigger]
            self.edge_map@.contains_key(k) ==> self.vertex_map@.contains_key(
                self.edge_map@[k].spec_v1(),
            ) && self.vertex_map@.contains_key(self.edge_map@[k].spec_v2())
    }

    /// The internal consistency of the graph: the vertex sequence and map
    /// key the same identifiers, with no duplicates; each edge stands once
    /// in the name sequence, once in the endpoint sequence and once in the
    /// map, under one canonical key and name; edge endpoints are vertices.
    pub closed spec fn wf(self) -> bool {
        &&& self.vertices_wf()
        &&& self.edges_wf()
        &&& self.edge_endpoints_wf()
    }

    /// Carries the edge-side consistency over to a state whose edge fields
    /// and kind are untouched.
    proof fn lemma_edges_wf_unchanged(pre: Graph, post: Graph)
        requires
            pre.edges_wf(),
            post.graph_type == pre.graph_type,
            post.edge_list == pre.edge_list,
            post.edge_map == pre.edge_map,
            post.edge_ends == pre.edge_ends,
        ensures
            post.edges_wf(),
    {
        assert forall|i: int|
            #![trigger post.edge_ends@[i]]
            0 <= i < post.edge_ends@.len() implies {
            &&& post.edge_map@.contains_key(post.ends_key(i))
            &&& post.edge_map@[post.ends_key(i)].spec_v1() == post.edge_ends@[i].0
            &&& post.edge_map@[post.ends_key(i)].spec_v2() == post.edge_ends@[i].1
            &&& post.edge_list@[i]@ == edge_name_spec(
                post.graph_type,
                post.edge_ends@[i].0,
                post.edge_ends@[i].1,
            )
        } by {
            assert(pre.edge_ends@[i] == post.edge_ends@[i]);
            assert(pre.ends_key(i) == post.ends_key(i));
        }
        assert forall|i: int, j: int|
            #![trigger post.ends_key(i), post.ends_key(j)]
            0 <= i < post.edge_ends@.len() && 0 <= j < post.edge_ends@.len() && i
                != j implies post.ends_key(i) != post.ends_key(j) by {
            assert(pre.ends_key(i) == post.ends_key(i));
            assert(pre.ends_key(j) == post.ends_key(j));
        }
        assert forall|k: u64| #[trigger] post.edge_map@.contains_key(k) implies exists|i: int|
            0 <= i < post.edge_ends@.len() && #[trigger] post.ends_key(i) == k by {
            assert(pre.edge_map@.contains_key(k));
            let i0 = choose|i: int|
                0 <= i < pre.edge_ends@.len() && #[trigger] pre.ends_key(i) == k;
            assert(post.ends_key(i0) == k);
        }
        assert forall|k: u64| #[trigger] post.edge_map@.contains_key(k) implies {
            &&& k == edge_key(
                post.graph_type,
                post.edge_map@[k].spec_v1(),
                post.edge_map@[k].spec_v2(),
            )
            &&& post.edge_map@[k].spec_id() == edge_name_spec(
                post.graph_type,
                post.edge_map@[k].spec_v1(),
                post.edge_map@[k].spec_v2(),
            )
        } by {
            assert(pre.edge_map@.contains_key(k));
        }
    }

    /// Carries the vertex-side consistency over to a state whose vertex
    /// fields are untouched.
    proof fn lemma_vertices_wf_unchanged(pre: Graph, post: Graph)
        requires
            pre.vertices_wf(),
            post.vertex_list == pre.vertex_list,
            post.vertex_map == pre.vertex_map,
        ensures
            post.vertices_wf(),
    {
        assert forall|id: u32|
            (#[trigger] post.vertex_map@.contains_key(id)) <==> post.vertex_list@.contains(
                id,
            ) by {
            assert(pre.vertex_map@.contains_key(id) <==> pre.vertex_list@.contains(id));
        }
        assert forall|id: u32| #[trigger]
            post.vertex_map@.contains_key(id) implies post.vertex_map@[id].spec_id() == id by {
            assert(pre.vertex_map@.contains_key(id));
        }
    }

    /// A fresh graph of the given kind holds no vertex and no edge.
    pub fn new(gtype: GraphType) -> (g: Graph)
        ensures
            g.wf(),
            g.spec_kind() == gtype,
            g.spec_vertices() == Seq::<u32>::empty(),
            g.spec_edge_names() == Seq::<Seq<char>>::empty(),
            g.spec_ends() == Seq::<(u32, u32)>::empty(),
            forall|id: u32| !g.spec_has_vertex(id),
            forall|a: u32, b: u32| !g.spec_has_edge(a, b),
    {
        let g = Graph {
            graph_type: gtype,
            vertex_list: Vec::new(),
            edge_list: Vec::new(),
            vertex_map: HashMap::new(),
            edge_map: HashMap::new(),
            edge_ends: Vec::new(),
        };
        proof {
            assert(g.spec_edge_names() =~= Seq::<Seq<char>>::empty());
        }
        g
    }

    /// The canonical name of the edge between `v1` and `v2`: the two
    /// endpoints joined by an underscore, the smaller one first when the
    /// graph is undirected.
    pub fn edgename(&self, v1: u32, v2: u32) -> (r: String)
        ensures
            r@ == edge_name_spec(self.spec_kind(), v1, v2),
    {
        if self.graph_type == GraphType::Directed {
            pair_name_string(v1, v2)
        } else {
            let a = if v1 <= v2 {
                v1
            } else {
                v2
            };
            let b = if v1 <= v2 {
                v2
            } else {
                v1
            };
            pair_name_string(a, b)
        }
    }

    /// The canonical lookup key of the edge between `v1` and `v2`.
    fn key_of(&self, v1: u32, v2: u32) -> (k: u64)
        ensures
            k == edge_key(self.spec_kind(), v1, v2),
    {
        let a = if self.graph_type == GraphType::Directed || v1 <= v2 {
            v1
        } else {
            v2
        };
        let b = if self.graph_type == GraphType::Directed || v1 <= v2 {
            v2
        } else {
            v1
        };
        (a as u64) * 0x1_0000_0000u64 + (b as u64)
    }

    /// Inserts the vertex if it is absent and appends it to the vertex
    /// sequence, answering the new sequence length; answers the no-op
    /// signal, changing nothing, if the vertex already exists.
    pub fn create_vertex(&mut self, id: &u32) -> (r: Option<usize>)
        requires
            old(self).wf(),
        ensures
            final (self).wf(),
            final (self).spec_kind() == old(self).spec_kind(),
            edges_unchanged(*old(self), *final (self)),
            match r {
                None => old(self).spec_has_vertex(*id) && *final (self) == *old(self),
                Some(n) => {
                    &&& !old(self).spec_has_vertex(*id)
                    &&& n == old(self).spec_vertices().len() + 1
                    &&& final (self).spec_vertices() == old(self).spec_vertices().push(*id)
                    &&& forall|v: u32|
                        #[trigger] final (self).spec_has_vertex(v) <==> (old(self).spec_has_vertex(
                            v,
                        ) || v == *id)
                    &&& final (self).spec_adjacent(*id) == Seq::<u32>::empty()
                    &&& forall|v: u32|
                        v != *id && #[trigger] old(self).spec_has_vertex(v)
                            ==> final (self).spec_adjacent(v) == old(self).spec_adjacent(v)
                },
            },
    {
        if self.vertex_map.contains_key(id) {
            None
        } else {
            let v = Vertex::new(id);
            self.vertex_map.insert(*id, v);
            self.vertex_list.push(*id);
            proof {
                assert(!old(self).vertex_list@.contains(*id));
                assert forall|v: u32| #[trigger]
                    self.vertex_map@.contains_key(v) <==> self.vertex_list@.contains(v) by {
                    assert(self.vertex_list@.last() == *id);
                    if old(self).vertex_list@.contains(v) {
                        let j = choose|j: int|
                            0 <= j < old(self).vertex_list@.len() && old(self).vertex_list@[j]
                                == v;
                        assert(self.vertex_list@[j] == v);
                    }
                    if self.vertex_list@.contains(v) && v != *id {
                        let j = choose|j: int|
                            0 <= j < self.vertex_list@.len() && self.vertex_list@[j] == v;
                        assert(old(self).vertex_list@[j] == v);
                    }
                }
                assert(self.vertex_list@.no_duplicates()) by {
                    assert forall|i: int, j: int|
                        0 <= i < self.vertex_list@.len() && 0 <= j < self.vertex_list@.len() && i
                            != j implies self.vertex_list@[i] != self.vertex_list@[j] by {
                        if i < old(self).vertex_list@.len() && j < old(self).vertex_list@.len() {
                            assert(old(self).vertex_list@[i] != old(self).vertex_list@[j]);
                        } else if i < old(self).vertex_list@.len() {
                            assert(old(self).vertex_list@.contains(old(self).vertex_list@[i]));
                        } else {
                            assert(old(self).vertex_list@.contains(old(self).vertex_list@[j]));
                        }
                    }
                }
                assert(self.spec_edge_names() =~= old(self).spec_edge_names());
                assert(self.vertices_wf());
                Self::lemma_edges_wf_unchanged(*old(self), *self);
                assert forall|k: u64| #[trigger]
                    self.edge_map@.contains_key(k) implies self.vertex_map@.contains_key(
                    self.edge_map@[k].spec_v1(),
                ) && self.vertex_map@.contains_key(self.edge_map@[k].spec_v2()) by {
                    assert(old(self).edge_map@.contains_key(k));
                }
            }
            Some(self.vertex_list.len())
        }
    }

    /// Looks the edge between `v1` and `v2` up under the graph's
    /// canonicalization; never creates it.
    pub fn get_edge(&self, v1: u32, v2: u32) -> (r: Option<&Edge>)
        requires
            self.wf(),
        ensures
            match r {
                Some(e) => self.spec_has_edge(v1, v2) && *e == self.spec_edge(v1, v2),
                None => !self.spec_has_edge(v1, v2),
            },
    {
        let key = self.key_of(v1, v2);
        self.edge_map.get(&key)
    }

    /// Whether an edge of the given name exists: a membership test on the
    /// edge records, equivalently on the edge name sequence.
    pub fn edge_exists(&self, edge_name: &String) -> (r: bool)
        requires
            self.wf(),
        ensures
            r == (exists|i: int|
                0 <= i < self.spec_edge_names().len() && self.spec_edge_names()[i]
                    == edge_name@),
            r == (exists|a: u32, b: u32|
                #[trigger] self.spec_has_edge(a, b) && self.spec_edge(a, b).spec_id()
                    == edge_name@),
    {
        let n = self.edge_list.len();
        let mut i: usize = 0;
        let mut found = false;
        while i < n
            invariant
                self.wf(),
                n == self.edge_list.len(),
                0 <= i <= n,
                found == (exists|j: int| 0 <= j < i && self.edge_list@[j]@ == edge_name@),
            decreases n - i,
        {
            if self.edge_list[i].eq(edge_name) {
                found = true;
                assert(self.edge_list@[i as int]@ == edge_name@);
            }
            i = i + 1;
        }
        proof {
            assert forall|j: int| 0 <= j < self.spec_edge_names().len() implies #[trigger] self
                .spec_edge_names()[j] == self.edge_list@[j]@ by {}
            if found {
                let j = choose|j: int|
                    0 <= j < self.edge_list@.len() && self.edge_list@[j]@ == edge_name@;
                assert(self.spec_edge_names()[j] == edge_name@);
                let a = self.edge_ends@[j].0;
                let b = self.edge_ends@[j].1;
                assert(self.edge_map@.contains_key(self.ends_key(j)));
                assert(self.spec_has_edge(a, b) && self.spec_edge(a, b).spec_id() == edge_name@);
            } else {
                assert forall|a: u32, b: u32| #[trigger]
                    self.spec_has_edge(a, b) implies self.spec_edge(a, b).spec_id()
                    != edge_name@ by {
                    let k = edge_key(self.graph_type, a, b);
                    assert(self.edge_map@.contains_key(k));
                    let j = choose|j: int|
                        0 <= j < self.edge_ends@.len() && #[trigger] self.ends_key(j) == k;
                    assert(self.edge_list@[j]@ == edge_name_spec(
                        self.graph_type,
                        self.edge_ends@[j].0,
                        self.edge_ends@[j].1,
                    ));
                    assert(self.edge_list@[j]@ != edge_name@);
                }
            }
        }
        found
    }

    /// Adds the edge between `v1` and `v2`, creating both endpoints first
    /// if absent. A new edge is recorded with multiplicity one and the new
    /// edge-sequence length is answered; a repeated edge only has its
    /// multiplicity raised, signalled by the no-op variant. A repeated
    /// edge's counter must have room for one more.
    pub fn add_edge(&mut self, v1: u32, v2: u32) -> (r: Option<usize>)
        requires
            old(self).wf(),
            old(self).spec_has_edge(v1, v2) ==> old(self).spec_edge(v1, v2).spec_count()
                < u32::MAX,
        ensures
            final (self).wf(),
            match r {
                None => old(self).spec_has_edge(v1, v2) && increments_edge(
                    *old(self),
                    *final (self),
                    v1,
                    v2,
                ),
                Some(n) => {
                    &&& !old(self).spec_has_edge(v1, v2)
                    &&& n == old(self).spec_edge_names().len() + 1
                    &&& adds_new_edge(*old(self), *final (self), v1, v2)
                },
            },
    {
        let ghost pre = *old(self);
        let ghost kind = self.graph_type;
        let edge_name = self.edgename(v1, v2);
        let key = self.key_of(v1, v2);
        self.create_vertex(&v1);
        let ghost m1 = *self;
        self.create_vertex(&v2);
        let ghost mid = *self;
        proof {
            assert(m1.spec_has_edge(v1, v2) == pre.spec_has_edge(v1, v2));
            assert(mid.spec_has_edge(v1, v2) == m1.spec_has_edge(v1, v2));
            if pre.spec_has_edge(v1, v2) {
                assert(m1.spec_edge(v1, v2) == pre.spec_edge(v1, v2));
                assert(mid.spec_edge(v1, v2) == m1.spec_edge(v1, v2));
            }
            assert(mid.spec_vertices() == vertices_after_add(pre, v1, v2));
            assert(mid.spec_has_vertex(v1) && mid.spec_has_vertex(v2));
            assert(mid.spec_adjacent(v1) == base_adjacent(pre, v1));
            assert(mid.spec_adjacent(v2) == base_adjacent(pre, v2));
            assert(forall|v: u32|
                #[trigger] mid.spec_has_vertex(v) <==> (pre.spec_has_vertex(v) || v == v1 || v
                    == v2));
            assert forall|v: u32|
                v != v1 && v != v2 && #[trigger] pre.spec_has_vertex(
                    v,
                ) implies mid.spec_adjacent(v) == pre.spec_adjacent(v) by {
                assert(m1.spec_has_vertex(v));
                assert(m1.spec_adjacent(v) == pre.spec_adjacent(v));
                assert(mid.spec_adjacent(v) == m1.spec_adjacent(v));
            }
        }
        if self.edge_map.contains_key(&key) {
            let ghost e0 = mid.edge_map@[key];
            let mut e = self.edge_map.remove(&key).unwrap();
            proof {
                assert(e == e0);
                assert(pre.spec_edge(v1, v2) == e0);
            }
            e.incr_cnt();
            self.edge_map.insert(key, e);
            proof {
                let post = *self;
                assert(post.edge_map@ =~= mid.edge_map@.insert(key, post.edge_map@[key]));
                assert forall|k2: u64| #[trigger]
                    post.edge_map@.contains_key(k2) == mid.edge_map@.contains_key(k2) by {}
                Self::lemma_vertices_wf_unchanged(mid, post);
                assert(post.edges_wf()) by {
                    assert forall|i: int|
                        #![trigger post.edge_ends@[i]]
                        0 <= i < post.edge_ends@.len() implies {
                        &&& post.edge_map@.contains_key(post.ends_key(i))
                        &&& post.edge_map@[post.ends_key(i)].spec_v1() == post.edge_ends@[i].0
                        &&& post.edge_map@[post.ends_key(i)].spec_v2() == post.edge_ends@[i].1
                        &&& post.edge_list@[i]@ == edge_name_spec(
                            post.graph_type,
                            post.edge_ends@[i].0,
                            post.edge_ends@[i].1,
                        )
                    } by {
                        assert(mid.edge_ends@[i] == post.edge_ends@[i]);
                        assert(mid.ends_key(i) == post.ends_key(i));
                        assert(mid.edge_map@.contains_key(mid.ends_key(i)));
                    }
                    assert forall|i: int, j: int|
                        #![trigger post.ends_key(i), post.ends_key(j)]
                        0 <= i < post.edge_ends@.len() && 0 <= j < post.edge_ends@.len() && i
                            != j implies post.ends_key(i) != post.ends_key(j) by {
                        assert(mid.ends_key(i) == post.ends_key(i));
                        assert(mid.ends_key(j) == post.ends_key(j));
                    }
                    assert forall|k2: u64| #[trigger]
                        post.edge_map@.contains_key(k2) implies exists|i: int|
                        0 <= i < post.edge_ends@.len() && #[trigger] post.ends_key(i) == k2 by {
                        assert(mid.edge_map@.contains_key(k2));
                        let i0 = choose|i: int|
                            0 <= i < mid.edge_ends@.len() && #[trigger] mid.ends_key(i) == k2;
                        assert(post.ends_key(i0) == k2);
                    }
                    assert forall|k2: u64| #[trigger] post.edge_map@.contains_key(k2) implies {
                        &&& k2 == edge_key(
                            post.graph_type,
                            post.edge_map@[k2].spec_v1(),
                            post.edge_map@[k2].spec_v2(),
                        )
                        &&& post.edge_map@[k2].spec_id() == edge_name_spec(
                            post.graph_type,
                            post.edge_map@[k2].spec_v1(),
                            post.edge_map@[k2].spec_v2(),
                        )
                    } by {
                        assert(mid.edge_map@.contains_key(k2));
                        if k2 != key {
                            assert(post.edge_map@[k2] == mid.edge_map@[k2]);
                        }
                    }
                }
                assert(post.edge_endpoints_wf()) by {
                    assert forall|k2: u64| #[trigger]
                        post.edge_map@.contains_key(k2) implies post.vertex_map@.contains_key(
                        post.edge_map@[k2].spec_v1(),
                    ) && post.vertex_map@.contains_key(post.edge_map@[k2].spec_v2()) by {
                        assert(mid.edge_map@.contains_key(k2));
                        if k2 != key {
                            assert(post.edge_map@[k2] == mid.edge_map@[k2]);
                        }
                    }
                }
                assert(increments_edge(pre, post, v1, v2)) by {
                    assert(mid == pre) by {
                        assert(pre.edge_map@.contains_key(key));
                        assert(pre.spec_has_vertex(pre.spec_edge(v1, v2).spec_v1()));
                        assert(pre.spec_has_vertex(pre.spec_edge(v1, v2).spec_v2()));
                        assert(key == edge_key(
                            kind,
                            pre.spec_edge(v1, v2).spec_v1(),
                            pre.spec_edge(v1, v2).spec_v2(),
                        ));
                        lemma_pair_key_injective(
                            ordered_pair(
                                kind,
                                pre.spec_edge(v1, v2).spec_v1(),
                                pre.spec_edge(v1, v2).spec_v2(),
                            ).0,
                            ordered_pair(
                                kind,
                                pre.spec_edge(v1, v2).spec_v1(),
                                pre.spec_edge(v1, v2).spec_v2(),
                            ).1,
                            ordered_pair(kind, v1, v2).0,
                            ordered_pair(kind, v1, v2).1,
                        );
                        assert(pre.spec_has_vertex(v1) && pre.spec_has_vertex(v2));
                    }
                    assert(post.spec_edge_names() =~= pre.spec_edge_names());
                    assert(post.spec_edge(v1, v2) == post.edge_map@[key]);
                    assert(post.spec_edge(v1, v2).spec_count() == e0.spec_count() + 1);
                    assert forall|a: u32, b: u32| #[trigger]
                        post.spec_has_edge(a, b) == pre.spec_has_edge(a, b) by {
                        assert(post.edge_map@.contains_key(edge_key(kind, a, b))
                            == mid.edge_map@.contains_key(edge_key(kind, a, b)));
                    }
                    assert forall|a: u32, b: u32|
                        pre.spec_has_edge(a, b) && edge_key(kind, a, b) != edge_key(
                            kind,
                            v1,
                            v2,
                        ) implies #[trigger] post.spec_edge(a, b) == pre.spec_edge(a, b) by {
                        assert(post.edge_map@[edge_key(kind, a, b)] == mid.edge_map@[edge_key(
                            kind,
                            a,
                            b,
                        )]);
                    }
                }
            }
            None
        } else {
            let e = Edge::new(&edge_name, v1, v2);
            self.edge_map.insert(key, e);
            self.edge_list.push(edge_name);
            self.edge_ends.push((v1, v2));
            let ghost g3 = *self;
            let mut vx = self.vertex_map.remove(&v1).unwrap();
            vx.add_adjacent(v2);
            self.vertex_map.insert(v1, vx);
            let mut vy = self.vertex_map.remove(&v2).unwrap();
            vy.add_adjacent(v1);
            self.vertex_map.insert(v2, vy);
            proof {
                let post = *self;
                let n = g3.edge_ends@.len() - 1;
                assert(!mid.edge_map@.contains_key(key));
                assert forall|v: u32| #[trigger]
                    post.vertex_map@.contains_key(v) == mid.vertex_map@.contains_key(v) by {}
                assert forall|v: u32|
                    v != v1 && v != v2 && #[trigger] mid.vertex_map@.contains_key(
                        v,
                    ) implies post.vertex_map@[v] == mid.vertex_map@[v] by {}
                if v1 == v2 {
                    assert(post.vertex_map@[v1].spec_adjacent() == mid.vertex_map@[v1]
                        .spec_adjacent().push(v1).push(v1));
                    assert(post.vertex_map@[v1].spec_id() == mid.vertex_map@[v1].spec_id());
                } else {
                    assert(post.vertex_map@[v1].spec_adjacent() == mid.vertex_map@[v1]
                        .spec_adjacent().push(v2));
                    assert(post.vertex_map@[v2].spec_adjacent() == mid.vertex_map@[v2]
                        .spec_adjacent().push(v1));
                    assert(post.vertex_map@[v1].spec_id() == mid.vertex_map@[v1].spec_id());
                    assert(post.vertex_map@[v2].spec_id() == mid.vertex_map@[v2].spec_id());
                }
                assert(post.vertices_wf()) by {
                    assert forall|id: u32|
                        (#[trigger] post.vertex_map@.contains_key(id))
                            <==> post.vertex_list@.contains(id) by {
                        assert(mid.vertex_map@.contains_key(id) <==> mid.vertex_list@.contains(
                            id,
                        ));
                    }
                    assert forall|id: u32| #[trigger]
                        post.vertex_map@.contains_key(id) implies post.vertex_map@[id].spec_id()
                        == id by {
                        assert(mid.vertex_map@.contains_key(id));
                        if id != v1 && id != v2 {
                            assert(post.vertex_map@[id] == mid.vertex_map@[id]);
                        }
                    }
                }
                assert(post.edges_wf()) by {
                    assert(post.edge_ends@ == mid.edge_ends@.push((v1, v2)));
                    assert(post.edge_list@.len() == mid.edge_list@.len() + 1);
                    assert(post.ends_key(n) == key);
                    assert(post.edge_list@[n]@ == edge_name_spec(kind, v1, v2));
                    assert forall|i: int|
                        #![trigger post.edge_ends@[i]]
                        0 <= i < post.edge_ends@.len() implies {
                        &&& post.edge_map@.contains_key(post.ends_key(i))
                        &&& post.edge_map@[post.ends_key(i)].spec_v1() == post.edge_ends@[i].0
                        &&& post.edge_map@[post.ends_key(i)].spec_v2() == post.edge_ends@[i].1
                        &&& post.edge_list@[i]@ == edge_name_spec(
                            post.graph_type,
                            post.edge_ends@[i].0,
                            post.edge_ends@[i].1,
                        )
                    } by {
                        if i < n {
                            assert(mid.edge_ends@[i] == post.edge_ends@[i]);
                            assert(mid.ends_key(i) == post.ends_key(i));
                            assert(mid.edge_map@.contains_key(mid.ends_key(i)));
                            assert(mid.ends_key(i) != key);
                            assert(post.edge_map@[post.ends_key(i)] == mid.edge_map@[mid.ends_key(
                                i,
                            )]);
                            assert(post.edge_list@[i] == mid.edge_list@[i]);
                        } else {
                            assert(post.edge_ends@[i] == (v1, v2));
                        }
                    }
                    assert forall|i: int, j: int|
                        #![trigger post.ends_key(i), post.ends_key(j)]
                        0 <= i < post.edge_ends@.len() && 0 <= j < post.edge_ends@.len() && i
                            != j implies post.ends_key(i) != post.ends_key(j) by {
                        if i < n && j < n {
                            assert(mid.ends_key(i) == post.ends_key(i));
                            assert(mid.ends_key(j) == post.ends_key(j));
                        } else if i < n {
                            assert(mid.ends_key(i) == post.ends_key(i));
                            assert(mid.edge_map@.contains_key(mid.ends_key(i)));
                            assert(post.ends_key(j) == key);
                        } else {
                            assert(mid.ends_key(j) == post.ends_key(j));
                            assert(mid.edge_map@.contains_key(mid.ends_key(j)));
                            assert(post.ends_key(i) == key);
                        }
                    }
                    assert forall|k2: u64| #[trigger]
                        post.edge_map@.contains_key(k2) implies exists|i: int|
                        0 <= i < post.edge_ends@.len() && #[trigger] post.ends_key(i) == k2 by {
                        if k2 == key {
                            assert(post.ends_key(n) == k2);
                        } else {
                            assert(mid.edge_map@.contains_key(k2));
                            let i0 = choose|i: int|
                                0 <= i < mid.edge_ends@.len() && #[trigger] mid.ends_key(i)
                                    == k2;
                            assert(post.ends_key(i0) == k2);
                        }
                    }
                    assert forall|k2: u64| #[trigger] post.edge_map@.contains_key(k2) implies {
                        &&& k2 == edge_key(
                            post.graph_type,
                            post.edge_map@[k2].spec_v1(),
                            post.edge_map@[k2].spec_v2(),
                        )
                        &&& post.edge_map@[k2].spec_id() == edge_name_spec(
                            post.graph_type,
                            post.edge_map@[k2].spec_v1(),
                            post.edge_map@[k2].spec_v2(),
                        )
                    } by {
                        if k2 != key {
                            assert(mid.edge_map@.contains_key(k2));
                            assert(post.edge_map@[k2] == mid.edge_map@[k2]);
                        }
                    }
                }
                assert(post.edge_endpoints_wf()) by {
                    assert forall|k2: u64| #[trigger]
                        post.edge_map@.contains_key(k2) implies post.vertex_map@.contains_key(
                        post.edge_map@[k2].spec_v1(),
                    ) && post.vertex_map@.contains_key(post.edge_map@[k2].spec_v2()) by {
                        if k2 != key {
                            assert(mid.edge_map@.contains_key(k2));
                            assert(post.edge_map@[k2] == mid.edge_map@[k2]);
                            assert(mid.vertex_map@.contains_key(mid.edge_map@[k2].spec_v1()));
                            assert(mid.vertex_map@.contains_key(mid.edge_map@[k2].spec_v2()));
                        }
                    }
                }
                assert(adds_new_edge(pre, post, v1, v2)) by {
                    assert(post.spec_vertices() == mid.spec_vertices());
                    assert(post.spec_edge_names() =~= pre.spec_edge_names().push(edge_name_spec(
                        kind,
                        v1,
                        v2,
                    )));
                    assert(post.spec_ends() == pre.spec_ends().push((v1, v2)));
                    assert forall|v: u32|
                        #[trigger] post.spec_has_vertex(v) <==> (pre.spec_has_vertex(v) || v
                            == v1 || v == v2) by {
                        assert(post.vertex_map@.contains_key(v) == mid.vertex_map@.contains_key(
                            v,
                        ));
                        assert(mid.spec_has_vertex(v) <==> (pre.spec_has_vertex(v) || v == v1
                            || v == v2));
                    }
                    assert(post.spec_edge(v1, v2) == post.edge_map@[key]);
                    assert forall|a: u32, b: u32|
                        #[trigger] post.spec_has_edge(a, b) <==> (pre.spec_has_edge(a, b)
                            || edge_key(kind, a, b) == edge_key(kind, v1, v2)) by {
                        assert(mid.edge_map@.contains_key(edge_key(kind, a, b))
                            == pre.spec_has_edge(a, b));
                    }
                    assert forall|a: u32, b: u32| #[trigger]
                        pre.spec_has_edge(a, b) implies post.spec_edge(a, b) == pre.spec_edge(
                        a,
                        b,
                    ) by {
                        assert(mid.edge_map@.contains_key(edge_key(kind, a, b)));
                        assert(edge_key(kind, a, b) != key);
                        assert(post.edge_map@[edge_key(kind, a, b)] == mid.edge_map@[edge_key(
                            kind,
                            a,
                            b,
                        )]);
                        assert(mid.spec_edge(a, b) == pre.spec_edge(a, b));
                    }
                    assert forall|v: u32|
                        v != v1 && v != v2 && #[trigger] pre.spec_has_vertex(
                            v,
                        ) implies post.spec_adjacent(v) == pre.spec_adjacent(v) by {
                        assert(mid.spec_has_vertex(v));
                        assert(mid.vertex_map@.contains_key(v));
                        assert(post.vertex_map@[v] == mid.vertex_map@[v]);
                        assert(mid.spec_adjacent(v) == pre.spec_adjacent(v));
                    }
                }
            }
            Some(self.edge_list.len())
        }
    }

    /// Creates the edge between `v1` and `v2` only if it does not exist
    /// yet, delegating to the add path; a repeated edge is answered with
    /// the no-op signal and nothing changes, not even its multiplicity.
    pub fn create_edge(&mut self, v1: u32, v2: u32) -> (r: Option<usize>)
        requires
            old(self).wf(),
        ensures
            final (self).wf(),
            match r {
                None => old(self).spec_has_edge(v1, v2) && *final (self) == *old(self),
                Some(n) => {
                    &&& !old(self).spec_has_edge(v1, v2)
                    &&& n == old(self).spec_edge_names().len() + 1
                    &&& adds_new_edge(*old(self), *final (self), v1, v2)
                },
            },
    {
        let key = self.key_of(v1, v2);
        if self.edge_map.contains_key(&key) {
            None
        } else {
            self.add_edge(v1, v2)
        }
    }

    /// Looks a vertex up by its identifier; never creates it.
    pub fn get_vertex(&self, id: &u32) -> (r: Option<&Vertex>)
        requires
            self.wf(),
        ensures
            match r {
                Some(v) => self.spec_has_vertex(*id) && v.spec_id() == *id && v.spec_adjacent()
                    == self.spec_adjacent(*id),
                None => !self.spec_has_vertex(*id),
            },
    {
        self.vertex_map.get(id)
    }

    /// The endpoint pair of the edge at a creation-order position, as it
    /// was first given; absent past the end of the edge sequence.
    pub fn edge_endpoints(&self, i: usize) -> (r: Option<(u32, u32)>)
        ensures
            match r {
                Some(p) => i < self.spec_ends().len() && p == self.spec_ends()[i as int],
                None => i >= self.spec_ends().len(),
            },
    {
        if i < self.edge_ends.len() {
            Some(self.edge_ends[i])
        } else {
            None
        }
    }
}

/// Law: for an undirected graph the canonical edge name does not depend on
/// the order of the endpoints; for a directed graph the two orders name
/// different edges whenever the endpoints differ.
pub proof fn lemma_edge_name_symmetry(v1: u32, v2: u32)
    ensures
        edge_name_spec(GraphType::Undirected, v1, v2) == edge_name_spec(
            GraphType::Undirected,
            v2,
            v1,
        ),
        v1 != v2 ==> edge_name_spec(GraphType::Directed, v1, v2) != edge_name_spec(
            GraphType::Directed,
            v2,
            v1,
        ),
{
    if v1 != v2 && edge_name_spec(GraphType::Directed, v1, v2) == edge_name_spec(
        GraphType::Directed,
        v2,
        v1,
    ) {
        lemma_pair_name_injective(v1 as nat, v2 as nat, v2 as nat, v1 as nat);
    }
}

/// Law: a self-loop has one well-defined canonical name, the same under
/// both disciplines: the vertex joined with itself.
pub proof fn lemma_edge_name_self_loop(kind: GraphType, v: u32)
    ensures
        edge_name_spec(kind, v, v) == pair_name(v as nat, v as nat),
{
}

/// Law: recording a new edge between two distinct endpoints puts each
/// endpoint into the other's adjacency exactly once more than before.
pub proof fn lemma_adjacency_symmetry(pre: Graph, post: Graph, v1: u32, v2: u32)
    requires
        adds_new_edge(pre, post, v1, v2),
        v1 != v2,
    ensures
        post.spec_adjacent(v1).to_multiset().count(v2) == base_adjacent(pre, v1).to_multiset()
            .count(v2) + 1,
        post.spec_adjacent(v2).to_multiset().count(v1) == base_adjacent(pre, v2).to_multiset()
            .count(v1) + 1,
{
    broadcast use vstd::seq_lib::group_to_multiset_ensures;

    assert(post.spec_adjacent(v1).to_multiset() =~= base_adjacent(pre, v1).to_multiset().insert(
        v2,
    ));
    assert(post.spec_adjacent(v2).to_multiset() =~= base_adjacent(pre, v2).to_multiset().insert(
        v1,
    ));
}

/// Law: in a consistent graph every vertex identifier stands at most once
/// in the vertex sequence, and every edge name at most once in the edge
/// name sequence.
pub proof fn lemma_unique_identifiers(g: Graph)
    requires
        g.wf(),
    ensures
        g.spec_vertices().no_duplicates(),
        forall|i: int, j: int|
            0 <= i < g.spec_edge_names().len() && 0 <= j < g.spec_edge_names().len() && i != j
                ==> g.spec_edge_names()[i] != g.spec_edge_names()[j],
{
    assert forall|i: int, j: int|
        0 <= i < g.spec_edge_names().len() && 0 <= j < g.spec_edge_names().len() && i
            != j implies g.spec_edge_names()[i] != g.spec_edge_names()[j] by {
        assert(g.spec_edge_names()[i] == g.edge_list@[i]@);
        assert(g.spec_edge_names()[j] == g.edge_list@[j]@);
        let pi = g.edge_ends@[i];
        let pj = g.edge_ends@[j];
        assert(g.edge_list@[i]@ == edge_name_spec(g.graph_type, pi.0, pi.1));
        assert(g.edge_list@[j]@ == edge_name_spec(g.graph_type, pj.0, pj.1));
        assert(g.ends_key(i) != g.ends_key(j));
        lemma_edge_key_matches_name(g.graph_type, pi.0, pi.1, pj.0, pj.1);
    }
}

/// The adjacency a vertex enters an edge creation with: its sequence if it
/// exists, the empty sequence if it is about to be created.
pub open spec fn base_adjacent(g: Graph, id: u32) -> Seq<u32> {
    if g.spec_has_vertex(id) {
        g.spec_adjacent(id)
    } else {
        Seq::<u32>::empty()
    }
}

/// The vertex sequence after the two endpoints of a new edge are created
/// if absent, the first one first.
pub open spec fn vertices_after_add(g: Graph, v1: u32, v2: u32) -> Seq<u32> {
    let s1 = if g.spec_has_vertex(v1) {
        g.spec_vertices()
    } else {
        g.spec_vertices().push(v1)
    };
    if g.spec_has_vertex(v2) || v2 == v1 {
        s1
    } else {
        s1.push(v2)
    }
}

/// What adding a new edge does: both endpoints exist afterwards, created
/// in order if absent; the canonical name and the endpoint pair are
/// appended; the new record carries multiplicity one; each endpoint's
/// adjacency gains the counterpart, the self-loop gaining it twice;
/// nothing else changes.
pub open spec fn adds_new_edge(pre: Graph, post: Graph, v1: u32, v2: u32) -> bool {
    let kind = pre.spec_kind();
    &&& post.spec_kind() == kind
    &&& post.spec_vertices() == vertices_after_add(pre, v1, v2)
    &&& forall|v: u32|
        #[trigger] post.spec_has_vertex(v) <==> (pre.spec_has_vertex(v) || v == v1 || v == v2)
    &&& post.spec_edge_names() == pre.spec_edge_names().push(edge_name_spec(kind, v1, v2))
    &&& post.spec_ends() == pre.spec_ends().push((v1, v2))
    &&& post.spec_has_edge(v1, v2)
    &&& forall|a: u32, b: u32|
        #[trigger] post.spec_has_edge(a, b) <==> (pre.spec_has_edge(a, b) || edge_key(kind, a, b)
            == edge_key(kind, v1, v2))
    &&& post.spec_edge(v1, v2).spec_count() == 1
    &&& post.spec_edge(v1, v2).spec_v1() == v1
    &&& post.spec_edge(v1, v2).spec_v2() == v2
    &&& post.spec_edge(v1, v2).spec_id() == edge_name_spec(kind, v1, v2)
    &&& forall|a: u32, b: u32|
        #[trigger] pre.spec_has_edge(a, b) ==> post.spec_edge(a, b) == pre.spec_edge(a, b)
    &&& (if v1 == v2 {
        post.spec_adjacent(v1) == base_adjacent(pre, v1).push(v1).push(v1)
    } else {
        post.spec_adjacent(v1) == base_adjacent(pre, v1).push(v2) && post.spec_adjacent(v2)
            == base_adjacent(pre, v2).push(v1)
    })
    &&& forall|v: u32|
        v != v1 && v != v2 && #[trigger] pre.spec_has_vertex(v) ==> post.spec_adjacent(v)
            == pre.spec_adjacent(v)
}

/// What a repeated add does: one more count on the existing record, and
/// nothing else — no vertex, no adjacency entry, no name, no new record.
pub open spec fn increments_edge(pre: Graph, post: Graph, v1: u32, v2: u32) -> bool {
    let kind = pre.spec_kind();
    &&& post.spec_kind() == kind
    &&& post.spec_vertices() == pre.spec_vertices()
    &&& forall|v: u32| #[trigger] post.spec_has_vertex(v) == pre.spec_has_vertex(v)
    &&& forall|v: u32|
        #[trigger] pre.spec_has_vertex(v) ==> post.spec_adjacent(v) == pre.spec_adjacent(v)
    &&& post.spec_edge_names() == pre.spec_edge_names()
    &&& post.spec_ends() == pre.spec_ends()
    &&& forall|a: u32, b: u32| #[trigger] post.spec_has_edge(a, b) == pre.spec_has_edge(a, b)
    &&& post.spec_edge(v1, v2).spec_count() == pre.spec_edge(v1, v2).spec_count() + 1
    &&& post.spec_edge(v1, v2).spec_v1() == pre.spec_edge(v1, v2).spec_v1()
    &&& post.spec_edge(v1, v2).spec_v2() == pre.spec_edge(v1, v2).spec_v2()
    &&& post.spec_edge(v1, v2).spec_id() == pre.spec_edge(v1, v2).spec_id()
    &&& forall|a: u32, b: u32|
        pre.spec_has_edge(a, b) && edge_key(kind, a, b) != edge_key(kind, v1, v2)
            ==> #[trigger] post.spec_edge(a, b) == pre.spec_edge(a, b)
}

/// The edge side of two graph states is the same: same names, same
/// endpoint pairs, same records.
pub open spec fn edges_unchanged(pre: Graph, post: Graph) -> bool {
    &&& post.spec_edge_names() == pre.spec_edge_names()
    &&& post.spec_ends() == pre.spec_ends()
    &&& forall|a: u32, b: u32| #[trigger] post.spec_has_edge(a, b) == pre.spec_has_edge(a, b)
    &&& forall|a: u32, b: u32|
        pre.spec_has_edge(a, b) ==> #[trigger] post.spec_edge(a, b) == pre.spec_edge(a, b)
}

} // verus!

