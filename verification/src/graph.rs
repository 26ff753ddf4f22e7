//! A graph of points in the plane whose edges run along the four cardinal
//! directions.
//!
//! Each vertex stores four booleans, one per direction, telling whether an
//! edge leaves it that way. An edge between `a` and `b` exists when `a`'s
//! flag towards `b` is set and `b` is the first vertex of the graph on the
//! straight line from `a` in that direction; the graph keeps the flags
//! consistent, so that every edge is recorded at both of its endpoints.

use vstd::prelude::*;
use crate::coord::Vec2;
use crate::direc::{DirecMap, Direction};
use crate::set::SpatialSet;
use crate::map::{
    SpatialMap, row_order, spec_first_neighbour, is_first_neighbour, has_neighbour,
    lemma_first_neighbour_is, lemma_first_neighbour_absent, lemma_first_neighbour_same_dom,
    lemma_first_neighbour_insert, lemma_first_neighbour_remove, lemma_min_on_ray_exists,
    lemma_first_neighbour_unique,
};

verus! {

/// The edge flags of a vertex: in which directions is it connected?
pub type VertexEdges = DirecMap<bool>;

/// Whether the vertex `p` of the graph map `m` has its edge flag towards
/// `d` set.
pub open spec fn edge_flag(m: Map<Vec2<i64>, VertexEdges>, p: Vec2<i64>, d: Direction) -> bool {
    m.contains_key(p) && m[p].spec_get(d)
}

/// The consistency invariant of the graph: whenever a vertex records an
/// edge in some direction, the first vertex on the straight line that way
/// exists and records the edge back, and the vertex set is finite.
pub open spec fn consistent(m: Map<Vec2<i64>, VertexEdges>) -> bool {
    &&& m.dom().finite()
    &&& forall|p: Vec2<i64>, d: Direction| #[trigger] edge_flag(m, p, d) ==> rejoin_flag(m, p, d)
}

/// Whether `a` and `b` are both vertices and `b` is the first vertex on a
/// straight line from `a`: the precondition of connecting or
/// disconnecting them.
pub open spec fn spec_neighbouring(
    m: Map<Vec2<i64>, VertexEdges>,
    a: Vec2<i64>,
    b: Vec2<i64>,
) -> bool {
    match a.spec_direction_to(b) {
        Some(d) => m.contains_key(a) && m.contains_key(b)
            && spec_first_neighbour(m, a, d) == Some(b),
        None => false,
    }
}

/// Whether the graph map `m` has an edge between `a` and `b`.
pub open spec fn spec_are_connected(
    m: Map<Vec2<i64>, VertexEdges>,
    a: Vec2<i64>,
    b: Vec2<i64>,
) -> bool {
    match a.spec_direction_to(b) {
        Some(d) => edge_flag(m, a, d) && spec_first_neighbour(m, a, d) == Some(b),
        None => false,
    }
}

/// The vertex an edge of `p` towards `d` leads to, if that edge exists.
pub open spec fn spec_connected_at(
    m: Map<Vec2<i64>, VertexEdges>,
    p: Vec2<i64>,
    d: Direction,
) -> Option<Vec2<i64>> {
    if edge_flag(m, p, d) {
        spec_first_neighbour(m, p, d)
    } else {
        None
    }
}

/// The graph map with the edge between the neighbouring vertices `a` and
/// `b` set or cleared on both sides.
pub open spec fn spec_with_edge(
    m: Map<Vec2<i64>, VertexEdges>,
    a: Vec2<i64>,
    b: Vec2<i64>,
    on: bool,
) -> Map<Vec2<i64>, VertexEdges> {
    match a.spec_direction_to(b) {
        Some(d) => m.insert(a, m[a].spec_set(d, on)).insert(
            b,
            m[b].spec_set(d.spec_opposite(), on),
        ),
        None => m,
    }
}

/// Whether the first vertex on the straight line from `p` in direction
/// `d` exists and records an edge back towards `p`'s position.
///
/// This is both the flag a newly created vertex picks up for `d`
/// (re-joining an edge line the vertex lands on) and, for a vertex whose
/// own flag towards `d` is set, the consistency condition of that flag.
/// The function is opaque so that the quantified consistency invariant
/// stays well-behaved; [`lemma_rejoin_flag`] gives its meaning.
#[verifier::opaque]
pub open spec fn rejoin_flag(
    m: Map<Vec2<i64>, VertexEdges>,
    p: Vec2<i64>,
    d: Direction,
) -> bool {
    match spec_first_neighbour(m, p, d) {
        Some(q) => edge_flag(m, q, d.spec_opposite()),
        None => false,
    }
}

/// The meaning of [`rejoin_flag`]: the first neighbour towards `d` exists
/// and records an edge back.
pub proof fn lemma_rejoin_flag(m: Map<Vec2<i64>, VertexEdges>, p: Vec2<i64>, d: Direction)
    ensures
        rejoin_flag(m, p, d) == match spec_first_neighbour(m, p, d) {
            Some(q) => edge_flag(m, q, d.spec_opposite()),
            None => false,
        },
{
    reveal(crate::graph::rejoin_flag);
}

/// All four re-join flags of a newly created vertex.
pub open spec fn rejoin_edges(m: Map<Vec2<i64>, VertexEdges>, p: Vec2<i64>) -> VertexEdges {
    DirecMap {
        up: rejoin_flag(m, p, Direction::Up),
        left: rejoin_flag(m, p, Direction::Left),
        down: rejoin_flag(m, p, Direction::Down),
        right: rejoin_flag(m, p, Direction::Right),
    }
}

/// Whether a graph holds at least one vertex.
pub open spec fn graph_nonempty(g: Graph) -> bool {
    exists|v: Vec2<i64>| #[trigger] g@.contains_key(v)
}

/// Whether every edge flag of a component graph stands for an edge of the
/// parent graph, with the same partner vertex.
pub open spec fn subgraph_edges(
    g: Map<Vec2<i64>, VertexEdges>,
    m: Map<Vec2<i64>, VertexEdges>,
) -> bool {
    forall|v: Vec2<i64>, dd: Direction| #[trigger] edge_flag(g, v, dd)
        ==> edge_flag(m, v, dd)
            && spec_first_neighbour(g, v, dd) == spec_first_neighbour(m, v, dd)
}

/// Whether every parent edge at a vertex of the component graph is
/// recorded in the component graph as well.
pub open spec fn full_edges_on(
    g: Map<Vec2<i64>, VertexEdges>,
    m: Map<Vec2<i64>, VertexEdges>,
) -> bool {
    forall|v: Vec2<i64>, dd: Direction| g.contains_key(v) && #[trigger] edge_flag(m, v, dd)
        ==> edge_flag(g, v, dd)
}

/// Creating a vertex of the parent graph in a component graph whose edges
/// all mirror parent edges picks up no re-join flags and leaves every
/// first neighbour of a flagged vertex in place.
proof fn lemma_component_create(
    g: Map<Vec2<i64>, VertexEdges>,
    m: Map<Vec2<i64>, VertexEdges>,
    nb: Vec2<i64>,
)
    requires
        consistent(m),
        g.dom().finite(),
        subgraph_edges(g, m),
        forall|v: Vec2<i64>| #[trigger] g.contains_key(v) ==> m.contains_key(v),
        m.contains_key(nb),
        !g.contains_key(nb),
    ensures
        rejoin_edges(g, nb) == no_edges(),
        subgraph_edges(g.insert(nb, rejoin_edges(g, nb)), m),
{
    assert forall|dd: Direction| !#[trigger] rejoin_flag(g, nb, dd) by {
        lemma_rejoin_flag(g, nb, dd);
        match spec_first_neighbour(g, nb, dd) {
            Some(q) => {
                if edge_flag(g, q, dd.spec_opposite()) {
                    lemma_first_neighbour_some(g, nb, dd, q);
                    // the parent has an edge through the new vertex's
                    // position whose near end would lie inside the gap
                    assert(edge_flag(m, q, dd.spec_opposite()));
                    lemma_rejoin_flag(m, q, dd.spec_opposite());
                    let w = spec_first_neighbour(m, q, dd.spec_opposite()).unwrap();
                    lemma_first_neighbour_some(m, q, dd.spec_opposite(), w);
                    assert(spec_first_neighbour(g, q, dd.spec_opposite()) == Some(w));
                    lemma_first_neighbour_some(g, q, dd.spec_opposite(), w);
                    assert(g.contains_key(w));
                    assert(w != nb);
                    assert(q.on_ray(dd.spec_opposite(), nb));
                    assert(q.ray_dist(dd.spec_opposite(), w)
                        < q.ray_dist(dd.spec_opposite(), nb));
                    assert(nb.on_ray(dd, w));
                    assert(nb.ray_dist(dd, w) < nb.ray_dist(dd, q));
                    assert(false);
                }
            },
            None => {},
        }
    }
    assert(!rejoin_flag(g, nb, Direction::Up));
    assert(!rejoin_flag(g, nb, Direction::Left));
    assert(!rejoin_flag(g, nb, Direction::Down));
    assert(!rejoin_flag(g, nb, Direction::Right));
    let g2 = g.insert(nb, rejoin_edges(g, nb));
    assert forall|v: Vec2<i64>, dd: Direction| #[trigger] edge_flag(g2, v, dd)
        implies edge_flag(m, v, dd)
            && spec_first_neighbour(g2, v, dd) == spec_first_neighbour(m, v, dd) by {
        assert(v != nb);
        assert(edge_flag(g, v, dd));
        lemma_first_neighbour_insert(g, nb, rejoin_edges(g, nb), v, dd);
        assert(edge_flag(m, v, dd));
        lemma_rejoin_flag(m, v, dd);
        let w = spec_first_neighbour(m, v, dd).unwrap();
        lemma_first_neighbour_some(m, v, dd, w);
        assert(spec_first_neighbour(g, v, dd) == Some(w));
        if v.on_ray(dd, nb) && v.ray_dist(dd, nb) <= v.ray_dist(dd, w) {
            // impossible: the new vertex is a parent point strictly nearer
            // than the parent's own first neighbour
            lemma_first_neighbour_some(g, v, dd, w);
            assert(g.contains_key(w));
            assert(nb != w);
            assert(false);
        }
        assert(spec_first_neighbour(g2, v, dd) == Some(w));
    }
}

/// Whether one of the first `n` listed entries is keyed by the given
/// point.
pub open spec fn among_entries(
    entries: Seq<(Vec2<i64>, VertexEdges)>,
    n: int,
    p: Vec2<i64>,
) -> bool {
    exists|j: int| 0 <= j < n && (#[trigger] entries[j]).0 == p
}

/// A simple graph of points in a plane. Two points can be connected only
/// along a straight cardinal line, and only when no third vertex lies
/// between them; no pair is connected more than once.
///
/// The underlying map stores its entries canonically, so the derived
/// equality compares graphs by their vertices and edge flags.
#[derive(Debug, PartialEq, Eq)]
pub struct Graph {
    vertices_edges: SpatialMap<VertexEdges>,
}

impl View for Graph {
    type V = Map<Vec2<i64>, VertexEdges>;

    /// The finite map from vertices to their edge flags this graph stands
    /// for.
    closed spec fn view(&self) -> Map<Vec2<i64>, VertexEdges> {
        self.vertices_edges@
    }
}

impl Default for Graph {
    /// Creates a new empty graph.
    fn default() -> (r: Self)
        ensures
            r@ == Map::<Vec2<i64>, VertexEdges>::empty(),
    {
        Graph::new()
    }
}

impl Graph {
    #[verifier::type_invariant]
    pub(crate) open spec fn wf(self) -> bool {
        consistent(self@)
    }

    /// Creates a new empty graph.
    pub fn new() -> (r: Graph)
        ensures
            r@ == Map::<Vec2<i64>, VertexEdges>::empty(),
    {
        Graph { vertices_edges: SpatialMap::new() }
    }

    /// Returns the underlying map of vertices to edge flags. The result
    /// also witnesses the graph's standing invariant: each recorded edge
    /// leads to a first neighbour that records it back.
    pub fn vertices_edges(&self) -> (r: &SpatialMap<VertexEdges>)
        ensures
            r@ == self@,
            consistent(self@),
    {
        proof {
            use_type_invariant(self);
        }
        &self.vertices_edges
    }

    /// Gets the edge flags of the given vertex, if the vertex is in the
    /// graph in the first place.
    pub fn vertex_edges(&self, vertex: &Vec2<i64>) -> (r: Option<VertexEdges>)
        ensures
            r == if self@.contains_key(*vertex) {
                Some(self@[*vertex])
            } else {
                None::<VertexEdges>
            },
    {
        self.vertices_edges.get(vertex)
    }

    /// Tests whether the given two vertices are connected by an edge.
    pub fn are_connected(&self, vertex_a: &Vec2<i64>, vertex_b: &Vec2<i64>) -> (r: bool)
        ensures
            r == spec_are_connected(self@, *vertex_a, *vertex_b),
    {
        let direction = match vertex_a.direction_to(vertex_b) {
            Some(direction) => direction,
            None => {
                return false;
            },
        };
        let edges = match self.vertex_edges(vertex_a) {
            Some(edges) => edges,
            None => {
                return false;
            },
        };
        if !*edges.get(direction) {
            return false;
        }
        match self.vertices_edges.first_neighbour(vertex_a, direction) {
            Some(q) => q.x == vertex_b.x && q.y == vertex_b.y,
            None => false,
        }
    }

    /// Gets the vertex connected with the given vertex in the given
    /// direction, if there is an edge that way.
    pub fn connected_at(&self, vertex: &Vec2<i64>, direction: Direction)
        -> (r: Option<Vec2<i64>>)
        ensures
            r == spec_connected_at(self@, *vertex, direction),
            r is Some ==> spec_are_connected(self@, *vertex, r.unwrap())
                && self@.contains_key(r.unwrap()),
    {
        let edges = match self.vertex_edges(vertex) {
            Some(edges) => edges,
            None => {
                return None;
            },
        };
        if !*edges.get(direction) {
            return None;
        }
        let r = self.vertices_edges.first_neighbour(vertex, direction);
        proof {
            if r is Some {
                let q = r.unwrap();
                assert(vertex.spec_direction_to(q) == Some(direction));
            }
        }
        r
    }

    /// Connects the given two neighbouring vertices and returns whether
    /// they were newly connected, i.e. previously disconnected.
    pub fn connect(&mut self, vertex_a: &Vec2<i64>, vertex_b: &Vec2<i64>) -> (r: bool)
        requires
            spec_neighbouring(old(self)@, *vertex_a, *vertex_b),
        ensures
            r == !spec_are_connected(old(self)@, *vertex_a, *vertex_b),
            final(self)@ == if r {
                spec_with_edge(old(self)@, *vertex_a, *vertex_b, true)
            } else {
                old(self)@
            },
    {
        proof {
            use_type_invariant(&*self);
        }
        let ghost m = self@;
        let direction = match vertex_a.direction_to(vertex_b) {
            Some(direction) => direction,
            None => {
                proof {
                    assert(false);
                }
                return false;
            },
        };
        let mut edges_a = match self.vertex_edges(vertex_a) {
            Some(edges) => edges,
            None => {
                proof {
                    assert(false);
                }
                return false;
            },
        };
        if *edges_a.get(direction) {
            proof {
                assert(spec_are_connected(m, *vertex_a, *vertex_b));
            }
            false
        } else {
            let mut inner = SpatialMap::new();
            std::mem::swap(&mut inner, &mut self.vertices_edges);
            edges_a.set(direction, true);
            inner.insert(*vertex_a, edges_a);
            let mut edges_b = match inner.get(vertex_b) {
                Some(edges) => edges,
                None => {
                    proof {
                        assert(false);
                    }
                    DirecMap { up: false, left: false, down: false, right: false }
                },
            };
            edges_b.set(direction.opposite(), true);
            inner.insert(*vertex_b, edges_b);
            proof {
                let m2 = inner@;
                assert(m2 == spec_with_edge(m, *vertex_a, *vertex_b, true));
                lemma_with_edge_consistent(m, *vertex_a, *vertex_b, direction);
            }
            self.vertices_edges = inner;
            true
        }
    }

    /// Disconnects the given two neighbouring vertices and returns
    /// whether they were really disconnected, i.e. previously connected.
    pub fn disconnect(&mut self, vertex_a: &Vec2<i64>, vertex_b: &Vec2<i64>) -> (r: bool)
        requires
            spec_neighbouring(old(self)@, *vertex_a, *vertex_b),
        ensures
            r == spec_are_connected(old(self)@, *vertex_a, *vertex_b),
            final(self)@ == if r {
                spec_with_edge(old(self)@, *vertex_a, *vertex_b, false)
            } else {
                old(self)@
            },
    {
        proof {
            use_type_invariant(&*self);
        }
        let ghost m = self@;
        let direction = match vertex_a.direction_to(vertex_b) {
            Some(direction) => direction,
            None => {
                proof {
                    assert(false);
                }
                return false;
            },
        };
        let mut edges_a = match self.vertex_edges(vertex_a) {
            Some(edges) => edges,
            None => {
                proof {
                    assert(false);
                }
                return false;
            },
        };
        if !*edges_a.get(direction) {
            false
        } else {
            let mut inner = SpatialMap::new();
            std::mem::swap(&mut inner, &mut self.vertices_edges);
            edges_a.set(direction, false);
            inner.insert(*vertex_a, edges_a);
            let mut edges_b = match inner.get(vertex_b) {
                Some(edges) => edges,
                None => {
                    proof {
                        assert(false);
                    }
                    DirecMap { up: false, left: false, down: false, right: false }
                },
            };
            edges_b.set(direction.opposite(), false);
            inner.insert(*vertex_b, edges_b);
            proof {
                let m2 = inner@;
                assert(m2 == spec_with_edge(m, *vertex_a, *vertex_b, false));
                lemma_without_edge_consistent(m, *vertex_a, *vertex_b, direction);
            }
            self.vertices_edges = inner;
            true
        }
    }

    /// Creates a new vertex in the graph (without connecting it to
    /// anything new). When the vertex lands on the line of an existing
    /// edge, it picks up the flags that re-join it into that edge; see
    /// [`rejoin_edges`]. Returns whether the vertex was really created,
    /// i.e. was not already there.
    pub fn create_vertex(&mut self, vertex: Vec2<i64>) -> (r: bool)
        ensures
            r == !old(self)@.contains_key(vertex),
            final(self)@ == if r {
                old(self)@.insert(vertex, rejoin_edges(old(self)@, vertex))
            } else {
                old(self)@
            },
    {
        proof {
            use_type_invariant(&*self);
        }
        let ghost m = self@;
        if self.vertices_edges.contains(&vertex) {
            return false;
        }
        let mut inner = SpatialMap::new();
        std::mem::swap(&mut inner, &mut self.vertices_edges);
        let edges = DirecMap {
            up: probe_rejoin(&inner, &vertex, Direction::Up),
            left: probe_rejoin(&inner, &vertex, Direction::Left),
            down: probe_rejoin(&inner, &vertex, Direction::Down),
            right: probe_rejoin(&inner, &vertex, Direction::Right),
        };
        inner.insert(vertex, edges);
        proof {
            assert(edges == rejoin_edges(m, vertex));
            lemma_create_vertex_consistent(m, vertex);
        }
        self.vertices_edges = inner;
        true
    }

    /// Collects the connections of this graph: every edge appears exactly
    /// once, as a pair of its endpoints, seen from the endpoint whose
    /// partner lies in a positive direction (`Down` or `Right`). The
    /// pairs come in row order of their first endpoint, and the downward
    /// edge of a vertex comes before its rightward one.
    pub fn connections(&self) -> (r: Vec<(Vec2<i64>, Vec2<i64>)>)
        ensures
            forall|a: int| 0 <= a < r@.len()
                ==> spec_connected_at(self@, (#[trigger] r@[a]).0, Direction::Down) == Some(r@[a].1)
                    || spec_connected_at(self@, r@[a].0, Direction::Right) == Some(r@[a].1),
            forall|p: Vec2<i64>| (#[trigger] spec_connected_at(self@, p, Direction::Down)) is Some
                ==> exists|a: int| 0 <= a < r@.len()
                    && (#[trigger] r@[a]) == (p, spec_connected_at(self@, p, Direction::Down).unwrap()),
            forall|p: Vec2<i64>| (#[trigger] spec_connected_at(self@, p, Direction::Right)) is Some
                ==> exists|a: int| 0 <= a < r@.len()
                    && (#[trigger] r@[a]) == (p, spec_connected_at(self@, p, Direction::Right).unwrap()),
            forall|a: int, b: int| 0 <= a < b < r@.len()
                ==> row_order((#[trigger] r@[a]).0, (#[trigger] r@[b]).0)
                    || (r@[a].0 == r@[b].0
                        && spec_connected_at(self@, r@[a].0, Direction::Down) == Some(r@[a].1)
                        && spec_connected_at(self@, r@[b].0, Direction::Right) == Some(r@[b].1)),
            forall|a: int, b: int| 0 <= a < b < r@.len()
                ==> (#[trigger] r@[a]) != (#[trigger] r@[b]),
    {
        proof {
            use_type_invariant(self);
        }
        let ghost m = self@;
        let entries = self.vertices_edges.row_entries();
        let mut r: Vec<(Vec2<i64>, Vec2<i64>)> = Vec::new();
        let mut i: usize = 0;
        while i < entries.len()
            invariant
                m == self@,
                consistent(m),
                crate::map::entries_ok(m, entries@, |p: Vec2<i64>, q: Vec2<i64>| row_order(p, q)),
                i <= entries@.len(),
                forall|a: int| 0 <= a < r@.len()
                    ==> spec_connected_at(m, (#[trigger] r@[a]).0, Direction::Down)
                        == Some(r@[a].1)
                        || spec_connected_at(m, r@[a].0, Direction::Right) == Some(r@[a].1),
                forall|a: int| 0 <= a < r@.len()
                    ==> among_entries(entries@, i as int, (#[trigger] r@[a]).0),
                forall|a: int, b: int| 0 <= a < b < r@.len()
                    ==> row_order((#[trigger] r@[a]).0, (#[trigger] r@[b]).0)
                        || (r@[a].0 == r@[b].0
                            && spec_connected_at(m, r@[a].0, Direction::Down) == Some(r@[a].1)
                            && spec_connected_at(m, r@[b].0, Direction::Right) == Some(r@[b].1)),
                forall|j: int| 0 <= j < i
                    && (#[trigger] spec_connected_at(m, entries@[j].0, Direction::Down)) is Some
                    ==> exists|a: int| 0 <= a < r@.len() && (#[trigger] r@[a])
                        == (entries@[j].0, spec_connected_at(m, entries@[j].0, Direction::Down).unwrap()),
                forall|j: int| 0 <= j < i
                    && (#[trigger] spec_connected_at(m, entries@[j].0, Direction::Right)) is Some
                    ==> exists|a: int| 0 <= a < r@.len() && (#[trigger] r@[a])
                        == (entries@[j].0, spec_connected_at(m, entries@[j].0, Direction::Right).unwrap()),
            decreases entries@.len() - i,
        {
            let v = entries[i].0;
            let ghost r_before = r@;
            proof {
                assert forall|a: int| 0 <= a < r@.len()
                    implies row_order((#[trigger] r@[a]).0, v) by {
                    assert(among_entries(entries@, i as int, r@[a].0));
                    let j = choose|j: int| 0 <= j < i && (#[trigger] entries@[j]).0 == r@[a].0;
                }
            }
            let down = self.connected_at(&v, Direction::Down);
            match down {
                Some(q) => {
                    r.push((v, q));
                },
                None => {},
            }
            let right = self.connected_at(&v, Direction::Right);
            match right {
                Some(q) => {
                    r.push((v, q));
                },
                None => {},
            }
            proof {
                if down is Some {
                    assert(r@[r_before.len() as int] == (v, down.unwrap()));
                }
                if right is Some {
                    assert(r@[r@.len() - 1] == (v, right.unwrap()));
                }
                assert forall|a: int| 0 <= a < r@.len()
                    implies among_entries(entries@, i + 1, (#[trigger] r@[a]).0) by {
                    if a < r_before.len() {
                        assert(r@[a] == r_before[a]);
                        assert(among_entries(entries@, i as int, r_before[a].0));
                        let j = choose|j: int| 0 <= j < i
                            && (#[trigger] entries@[j]).0 == r_before[a].0;
                        assert(0 <= j < i + 1 && entries@[j].0 == r@[a].0);
                    } else {
                        assert((#[trigger] entries@[i as int]).0 == r@[a].0);
                    }
                }
                assert forall|j: int| 0 <= j < i + 1
                    && (#[trigger] spec_connected_at(m, entries@[j].0, Direction::Down)) is Some
                    implies exists|a: int| 0 <= a < r@.len() && (#[trigger] r@[a])
                        == (entries@[j].0, spec_connected_at(m, entries@[j].0, Direction::Down).unwrap()) by {
                    if j < i {
                        let a = choose|a: int| 0 <= a < r_before.len() && (#[trigger] r_before[a])
                            == (entries@[j].0, spec_connected_at(m, entries@[j].0, Direction::Down).unwrap());
                        assert(r@[a] == r_before[a]);
                    }
                }
                assert forall|j: int| 0 <= j < i + 1
                    && (#[trigger] spec_connected_at(m, entries@[j].0, Direction::Right)) is Some
                    implies exists|a: int| 0 <= a < r@.len() && (#[trigger] r@[a])
                        == (entries@[j].0, spec_connected_at(m, entries@[j].0, Direction::Right).unwrap()) by {
                    if j < i {
                        let a = choose|a: int| 0 <= a < r_before.len() && (#[trigger] r_before[a])
                            == (entries@[j].0, spec_connected_at(m, entries@[j].0, Direction::Right).unwrap());
                        assert(r@[a] == r_before[a]);
                    }
                }
            }
            i = i + 1;
        }
        proof {
            assert forall|p: Vec2<i64>| (#[trigger] spec_connected_at(m, p, Direction::Down)) is Some
                implies exists|a: int| 0 <= a < r@.len()
                    && (#[trigger] r@[a]) == (p, spec_connected_at(m, p, Direction::Down).unwrap()) by {
                assert(m.contains_key(p));
                let j = choose|j: int| 0 <= j < entries@.len() && (#[trigger] entries@[j]).0 == p;
            }
            assert forall|p: Vec2<i64>| (#[trigger] spec_connected_at(m, p, Direction::Right)) is Some
                implies exists|a: int| 0 <= a < r@.len()
                    && (#[trigger] r@[a]) == (p, spec_connected_at(m, p, Direction::Right).unwrap()) by {
                assert(m.contains_key(p));
                let j = choose|j: int| 0 <= j < entries@.len() && (#[trigger] entries@[j]).0 == p;
            }
            assert forall|a: int, b: int| 0 <= a < b < r@.len()
                implies (#[trigger] r@[a]) != (#[trigger] r@[b]) by {
                if r@[a] == r@[b] {
                    let p = r@[a].0;
                    let q = r@[a].1;
                    assert(spec_connected_at(m, p, Direction::Down) == Some(q));
                    assert(spec_connected_at(m, p, Direction::Right) == Some(q));
                    lemma_first_neighbour_some(m, p, Direction::Down, q);
                    lemma_first_neighbour_some(m, p, Direction::Right, q);
                    lemma_rays_disjoint(p, Direction::Down, Direction::Right, q);
                    assert(false);
                }
            }
        }
        r
    }

    /// Splits the graph into its islands: the vertex sets of the returned
    /// graphs are disjoint and together cover exactly the vertices of
    /// this graph; each returned graph is grown by a depth-first search
    /// along the edges, so its vertices are connected to each other and
    /// carry the edges they had here.
    pub fn components(&self) -> (r: Vec<Graph>)
        ensures
            forall|i: int, j: int, v: Vec2<i64>|
                #![trigger r@[i]@.contains_key(v), r@[j]@.contains_key(v)]
                0 <= i < j < r@.len()
                ==> !(r@[i]@.contains_key(v) && r@[j]@.contains_key(v)),
            forall|v: Vec2<i64>| #[trigger] self@.contains_key(v)
                <==> exists|i: int| 0 <= i < r@.len() && #[trigger] r@[i]@.contains_key(v),
            forall|i: int| 0 <= i < r@.len() ==> graph_nonempty(#[trigger] r@[i]),
            forall|i: int, v: Vec2<i64>, dd: Direction|
                #![trigger r@[i]@.contains_key(v), spec_connected_at(self@, v, dd)]
                0 <= i < r@.len() && r@[i]@.contains_key(v)
                ==> spec_connected_at(r@[i]@, v, dd) == spec_connected_at(self@, v, dd),
    {
        proof {
            use_type_invariant(self);
        }
        let ghost m = self@;
        let entries = self.vertices_edges.row_entries();
        let mut unvisited = SpatialSet::new();
        let mut k: usize = 0;
        #[verifier::loop_isolation(false)]
        while k < entries.len()
            invariant
                k <= entries@.len(),
                forall|v: Vec2<i64>| unvisited@.contains(v)
                    <==> exists|j: int| 0 <= j < k && (#[trigger] entries@[j]).0 == v,
            decreases entries@.len() - k,
        {
            let ghost u_before = unvisited@;
            unvisited.insert(entries[k].0);
            proof {
                assert forall|v: Vec2<i64>| unvisited@.contains(v)
                    implies exists|j: int| 0 <= j < k + 1
                        && (#[trigger] entries@[j]).0 == v by {
                    if v == entries@[k as int].0 {
                        assert(entries@[k as int].0 == v);
                    } else {
                        let j = choose|j: int| 0 <= j < k && (#[trigger] entries@[j]).0 == v;
                    }
                }
            }
            k = k + 1;
        }
        proof {
            assert forall|v: Vec2<i64>| unvisited@.contains(v)
                implies m.contains_key(v) by {
                let j = choose|j: int| 0 <= j < entries@.len()
                    && (#[trigger] entries@[j]).0 == v;
            }
            assert forall|v: Vec2<i64>| #[trigger] m.contains_key(v)
                implies unvisited@.contains(v) by {
                let a = choose|a: int| 0 <= a < entries@.len()
                    && (#[trigger] entries@[a]).0 == v;
            }
            assert(unvisited@ =~= m.dom());
        }
        let mut result: Vec<Graph> = Vec::new();
        let mut empty = unvisited.is_empty();
        #[verifier::loop_isolation(false)]
        while !empty
            invariant
                empty == (unvisited@ == Set::<Vec2<i64>>::empty()),
                unvisited@.finite(),
                consistent(m),
                forall|v: Vec2<i64>| #[trigger] unvisited@.contains(v) ==> m.contains_key(v),
                forall|v: Vec2<i64>| #[trigger] m.contains_key(v)
                    ==> unvisited@.contains(v) || exists|i: int| 0 <= i < result@.len()
                        && #[trigger] result@[i]@.contains_key(v),
                forall|i: int, v: Vec2<i64>| 0 <= i < result@.len()
                    && #[trigger] result@[i]@.contains_key(v)
                    ==> m.contains_key(v) && !unvisited@.contains(v),
                forall|i: int, j: int, v: Vec2<i64>|
                    #![trigger result@[i]@.contains_key(v), result@[j]@.contains_key(v)]
                    0 <= i < j < result@.len()
                    ==> !(result@[i]@.contains_key(v) && result@[j]@.contains_key(v)),
                forall|i: int| 0 <= i < result@.len() ==> graph_nonempty(#[trigger] result@[i]),
                forall|i: int| 0 <= i < result@.len()
                    ==> subgraph_edges((#[trigger] result@[i])@, m)
                        && full_edges_on(result@[i]@, m),
                forall|v: Vec2<i64>, d: Direction| #[trigger] m.contains_key(v)
                    && !unvisited@.contains(v)
                    && (#[trigger] spec_connected_at(m, v, d)) is Some
                    ==> !unvisited@.contains(spec_connected_at(m, v, d).unwrap()),
            decreases unvisited@.len(),
        {
            let ghost u0 = unvisited@;
            let mut rows_it = unvisited.rows();
            let start = match rows_it.next() {
                Some(p) => p,
                None => {
                    proof {
                        if forall|w: Vec2<i64>| !u0.contains(w) {
                            assert(u0 =~= Set::<Vec2<i64>>::empty());
                        }
                        let w = choose|w: Vec2<i64>| u0.contains(w);
                        assert(false);
                    }
                    Vec2 { x: 0, y: 0 }
                },
            };
            let mut stack: Vec<Vec2<i64>> = Vec::new();
            let mut g = Graph::new();
            g.create_vertex(start);
            stack.push(start);
            proof {
                assert(rejoin_edges(Map::<Vec2<i64>, VertexEdges>::empty(), start) == no_edges())
                    by {
                    lemma_rejoin_all_false(Map::<Vec2<i64>, VertexEdges>::empty(), start);
                }
                assert(stack@[0] == start);
                assert(subgraph_edges(g@, m)) by {
                    assert forall|v: Vec2<i64>, dd: Direction| !#[trigger] edge_flag(g@, v, dd)
                        by {}
                }
            }
            #[verifier::loop_isolation(false)]
            while stack.len() > 0
                invariant
                    unvisited@.finite(),
                    forall|v: Vec2<i64>| #[trigger] unvisited@.contains(v) ==> u0.contains(v),
                    forall|v: Vec2<i64>| #[trigger] g@.contains_key(v)
                        ==> u0.contains(v) && m.contains_key(v),
                    g@.contains_key(start),
                    forall|k2: int| 0 <= k2 < stack@.len()
                        ==> g@.contains_key(#[trigger] stack@[k2]),
                    forall|v: Vec2<i64>| u0.contains(v) && !unvisited@.contains(v)
                        ==> g@.contains_key(v),
                    forall|v: Vec2<i64>| #[trigger] g@.contains_key(v)
                        ==> !unvisited@.contains(v) || exists|k2: int| 0 <= k2 < stack@.len()
                            && stack@[k2] == v,
                    forall|v: Vec2<i64>, d: Direction| #[trigger] m.contains_key(v)
                        && !unvisited@.contains(v)
                        && (#[trigger] spec_connected_at(m, v, d)) is Some
                        ==> !unvisited@.contains(spec_connected_at(m, v, d).unwrap())
                            || exists|k2: int| 0 <= k2 < stack@.len()
                                && stack@[k2] == spec_connected_at(m, v, d).unwrap(),
                    forall|v: Vec2<i64>, d: Direction| #[trigger] m.contains_key(v)
                        && !u0.contains(v)
                        && (#[trigger] spec_connected_at(m, v, d)) is Some
                        ==> !u0.contains(spec_connected_at(m, v, d).unwrap()),
                    subgraph_edges(g@, m),
                    forall|v: Vec2<i64>, dd: Direction| u0.contains(v)
                        && !unvisited@.contains(v) && #[trigger] edge_flag(m, v, dd)
                        ==> edge_flag(g@, v, dd),
                decreases unvisited@.len(), stack@.len(),
            {
                let ghost stack_before = stack@;
                let ghost u_pre = unvisited@;
                let node = match stack.pop() {
                    Some(n) => n,
                    None => {
                        proof {
                            assert(false);
                        }
                        start
                    },
                };
                let removed = unvisited.remove(&node);
                proof {
                    assert(node == stack_before.last());
                    assert(stack@ =~= stack_before.drop_last());
                    assert forall|v: Vec2<i64>| #[trigger] g@.contains_key(v)
                        implies !unvisited@.contains(v) || exists|k2: int|
                            0 <= k2 < stack@.len() && stack@[k2] == v by {
                        if unvisited@.contains(v) {
                            let k2 = choose|k2: int| 0 <= k2 < stack_before.len()
                                && stack_before[k2] == v;
                            if k2 < stack_before.len() - 1 {
                                assert(stack@[k2] == v);
                            } else {
                                assert(v == node);
                                assert(false);
                            }
                        }
                    }
                }
                if removed {
                    let ghost g_pre = g@;
                    expand_component(self, &mut g, &mut stack, node, Ghost(m), Ghost(u0),
                        Ghost(unvisited@));
                    proof {
                        assert forall|v: Vec2<i64>, dd: Direction| u0.contains(v)
                            && !unvisited@.contains(v) && #[trigger] edge_flag(m, v, dd)
                            implies edge_flag(g@, v, dd) by {
                            if v == node {
                                lemma_rejoin_flag(m, node, dd);
                                assert((spec_connected_at(m, node, dd)) is Some);
                            } else {
                                assert(!u_pre.contains(v));
                                assert(edge_flag(g_pre, v, dd));
                            }
                        }
                    }
                } else {
                    proof {
                        assert(unvisited@ =~= u_pre);
                    }
                }
            }
            let ghost result_before = result@;
            let ghost g_final = g@;
            result.push(g);
            proof {
                assert(full_edges_on(g_final, m)) by {
                    assert forall|v: Vec2<i64>, dd: Direction| g_final.contains_key(v)
                        && #[trigger] edge_flag(m, v, dd)
                        implies edge_flag(g_final, v, dd) by {
                        assert(u0.contains(v) && !unvisited@.contains(v));
                    }
                }
                assert forall|i: int| 0 <= i < result@.len()
                    implies subgraph_edges((#[trigger] result@[i])@, m)
                        && full_edges_on(result@[i]@, m) by {
                    if i < result_before.len() {
                        assert(result@[i] == result_before[i]);
                        assert(subgraph_edges(result_before[i]@, m)
                            && full_edges_on(result_before[i]@, m));
                    } else {
                        assert(result@[i]@ == g_final);
                    }
                }
                assert forall|i: int| 0 <= i < result@.len()
                    implies graph_nonempty(#[trigger] result@[i]) by {
                    if i < result_before.len() {
                        assert(result@[i] == result_before[i]);
                        assert(graph_nonempty(result_before[i]));
                    } else {
                        assert(result@[i]@.contains_key(start));
                    }
                }
                assert forall|v: Vec2<i64>| #[trigger] m.contains_key(v)
                    implies unvisited@.contains(v) || exists|i: int| 0 <= i < result@.len()
                        && #[trigger] result@[i]@.contains_key(v) by {
                    if !unvisited@.contains(v) {
                        if u0.contains(v) {
                            assert(result@[result@.len() - 1]@.contains_key(v));
                        } else {
                            let i = choose|i: int| 0 <= i < result_before.len()
                                && #[trigger] result_before[i]@.contains_key(v);
                            assert(result@[i] == result_before[i]);
                        }
                    }
                }
                // the round made progress: its starting point was visited
                assert(!unvisited@.contains(start));
                assert(unvisited@ <= u0.remove(start));
                vstd::set_lib::lemma_len_subset(unvisited@, u0.remove(start));
            }
            empty = unvisited.is_empty();
        }
        proof {
            assert forall|i: int, v: Vec2<i64>, dd: Direction|
                0 <= i < result@.len() && #[trigger] result@[i]@.contains_key(v)
                implies spec_connected_at(result@[i]@, v, dd)
                    == #[trigger] spec_connected_at(m, v, dd) by {
                assert(subgraph_edges(result@[i]@, m) && full_edges_on(result@[i]@, m));
                let gi = result@[i]@;
                if edge_flag(gi, v, dd) {
                    assert(edge_flag(m, v, dd));
                    assert(spec_first_neighbour(gi, v, dd) == spec_first_neighbour(m, v, dd));
                } else {
                    if edge_flag(m, v, dd) {
                        assert(edge_flag(gi, v, dd));
                    }
                }
            }
        }
        result
    }
}

/// Expands one freshly visited vertex of a depth-first component search:
/// every neighbour connected to it in the parent graph is created in the
/// component graph, connected, and scheduled for a visit.
fn expand_component(
    parent: &Graph,
    g: &mut Graph,
    stack: &mut Vec<Vec2<i64>>,
    node: Vec2<i64>,
    Ghost(m): Ghost<Map<Vec2<i64>, VertexEdges>>,
    Ghost(u0): Ghost<Set<Vec2<i64>>>,
    Ghost(unvisited): Ghost<Set<Vec2<i64>>>,
)
    requires
        parent@ == m,
        consistent(m),
        old(g)@.contains_key(node),
        m.contains_key(node),
        u0.contains(node),
        !unvisited.contains(node),
        forall|v: Vec2<i64>| #[trigger] unvisited.contains(v) ==> u0.contains(v),
        forall|v: Vec2<i64>| #[trigger] old(g)@.contains_key(v)
            ==> u0.contains(v) && m.contains_key(v),
        forall|k2: int| 0 <= k2 < old(stack)@.len()
            ==> old(g)@.contains_key(#[trigger] old(stack)@[k2]),
        forall|v: Vec2<i64>| #[trigger] old(g)@.contains_key(v)
            ==> !unvisited.contains(v) || exists|k2: int| 0 <= k2 < old(stack)@.len()
                && old(stack)@[k2] == v,
        forall|v: Vec2<i64>, d: Direction| #[trigger] m.contains_key(v) && !u0.contains(v)
            && (#[trigger] spec_connected_at(m, v, d)) is Some
            ==> !u0.contains(spec_connected_at(m, v, d).unwrap()),
        subgraph_edges(old(g)@, m),
    ensures
        forall|v: Vec2<i64>| #[trigger] final(g)@.contains_key(v)
            ==> u0.contains(v) && m.contains_key(v),
        forall|v: Vec2<i64>| old(g)@.contains_key(v) ==> final(g)@.contains_key(v),
        forall|k2: int| 0 <= k2 < final(stack)@.len()
            ==> final(g)@.contains_key(#[trigger] final(stack)@[k2]),
        forall|v: Vec2<i64>| #[trigger] final(g)@.contains_key(v)
            ==> !unvisited.contains(v) || exists|k2: int| 0 <= k2 < final(stack)@.len()
                && final(stack)@[k2] == v,
        forall|d: Direction| (#[trigger] spec_connected_at(m, node, d)) is Some
            ==> final(g)@.contains_key(spec_connected_at(m, node, d).unwrap())
                && exists|k2: int| 0 <= k2 < final(stack)@.len()
                    && final(stack)@[k2] == spec_connected_at(m, node, d).unwrap(),
        forall|k2: int| 0 <= k2 < old(stack)@.len()
            ==> final(stack)@[k2] == old(stack)@[k2],
        final(stack)@.len() >= old(stack)@.len(),
        subgraph_edges(final(g)@, m),
        forall|v: Vec2<i64>, dd: Direction| #[trigger] edge_flag(old(g)@, v, dd)
            ==> edge_flag(final(g)@, v, dd),
        forall|d: Direction| (#[trigger] spec_connected_at(m, node, d)) is Some
            ==> edge_flag(final(g)@, node, d),
{
    expand_component_dir(parent, g, stack, node, Direction::Up, Ghost(m), Ghost(u0),
        Ghost(unvisited));
    expand_component_dir(parent, g, stack, node, Direction::Down, Ghost(m), Ghost(u0),
        Ghost(unvisited));
    expand_component_dir(parent, g, stack, node, Direction::Left, Ghost(m), Ghost(u0),
        Ghost(unvisited));
    expand_component_dir(parent, g, stack, node, Direction::Right, Ghost(m), Ghost(u0),
        Ghost(unvisited));
    proof {
        assert forall|d: Direction| (#[trigger] spec_connected_at(m, node, d)) is Some
            implies edge_flag(g@, node, d) by {
            match d {
                Direction::Up => {},
                Direction::Down => {},
                Direction::Left => {},
                Direction::Right => {},
            }
        }
    }
}

/// Expands one direction of a component search step.
fn expand_component_dir(
    parent: &Graph,
    g: &mut Graph,
    stack: &mut Vec<Vec2<i64>>,
    node: Vec2<i64>,
    direction: Direction,
    Ghost(m): Ghost<Map<Vec2<i64>, VertexEdges>>,
    Ghost(u0): Ghost<Set<Vec2<i64>>>,
    Ghost(unvisited): Ghost<Set<Vec2<i64>>>,
)
    requires
        parent@ == m,
        consistent(m),
        old(g)@.contains_key(node),
        m.contains_key(node),
        u0.contains(node),
        !unvisited.contains(node),
        forall|v: Vec2<i64>| #[trigger] unvisited.contains(v) ==> u0.contains(v),
        forall|v: Vec2<i64>| #[trigger] old(g)@.contains_key(v)
            ==> u0.contains(v) && m.contains_key(v),
        forall|k2: int| 0 <= k2 < old(stack)@.len()
            ==> old(g)@.contains_key(#[trigger] old(stack)@[k2]),
        forall|v: Vec2<i64>| #[trigger] old(g)@.contains_key(v)
            ==> !unvisited.contains(v) || exists|k2: int| 0 <= k2 < old(stack)@.len()
                && old(stack)@[k2] == v,
        forall|v: Vec2<i64>, d: Direction| #[trigger] m.contains_key(v) && !u0.contains(v)
            && (#[trigger] spec_connected_at(m, v, d)) is Some
            ==> !u0.contains(spec_connected_at(m, v, d).unwrap()),
        subgraph_edges(old(g)@, m),
    ensures
        forall|v: Vec2<i64>| #[trigger] final(g)@.contains_key(v)
            ==> u0.contains(v) && m.contains_key(v),
        forall|v: Vec2<i64>| old(g)@.contains_key(v) ==> final(g)@.contains_key(v),
        forall|k2: int| 0 <= k2 < final(stack)@.len()
            ==> final(g)@.contains_key(#[trigger] final(stack)@[k2]),
        forall|v: Vec2<i64>| #[trigger] final(g)@.contains_key(v)
            ==> !unvisited.contains(v) || exists|k2: int| 0 <= k2 < final(stack)@.len()
                && final(stack)@[k2] == v,
        spec_connected_at(m, node, direction) is Some
            ==> final(g)@.contains_key(spec_connected_at(m, node, direction).unwrap())
                && exists|k2: int| 0 <= k2 < final(stack)@.len()
                    && final(stack)@[k2] == spec_connected_at(m, node, direction).unwrap(),
        forall|k2: int| 0 <= k2 < old(stack)@.len()
            ==> final(stack)@[k2] == old(stack)@[k2],
        final(stack)@.len() >= old(stack)@.len(),
        final(g)@.contains_key(node),
        subgraph_edges(final(g)@, m),
        forall|v: Vec2<i64>, dd: Direction| #[trigger] edge_flag(old(g)@, v, dd)
            ==> edge_flag(final(g)@, v, dd),
        spec_connected_at(m, node, direction) is Some
            ==> edge_flag(final(g)@, node, direction),
{
    match parent.connected_at(&node, direction) {
        Some(nb) => {
            proof {
                // the neighbour belongs to this round: otherwise the
                // closure of the already visited set would have visited
                // `node` too
                lemma_connected_at_symmetry(m, node, direction, nb);
                assert(spec_first_neighbour(m, node, direction) == Some(nb));
                lemma_first_neighbour_some(m, node, direction, nb);
            }
            let ghost g0 = g@;
            let created = g.create_vertex(nb);
            proof {
                if created {
                    use_type_invariant(&*parent);
                    assert(g0.dom().finite()) by {
                        assert(g0.dom() <= m.dom());
                        vstd::set_lib::lemma_len_subset(g0.dom(), m.dom());
                        vstd::set_lib::lemma_set_union_finite_implies_sets_finite(
                            g0.dom(),
                            m.dom(),
                        );
                        assert(g0.dom().union(m.dom()) =~= m.dom());
                    }
                    lemma_component_create(g0, m, nb);
                }
                assert(subgraph_edges(g@, m));
                assert(is_first_neighbour(g@, node, direction, nb)) by {
                    assert forall|q2: Vec2<i64>| #[trigger] g@.contains_key(q2)
                        && node.on_ray(direction, q2)
                        implies node.ray_dist(direction, nb)
                            <= node.ray_dist(direction, q2) by {
                        if q2 != nb {
                            assert(m.contains_key(q2));
                        }
                    }
                }
                lemma_first_neighbour_is(g@, node, direction, nb);
                assert(spec_neighbouring(g@, node, nb));
            }
            let ghost g2 = g@;
            let ghost stack_old = stack@;
            g.connect(&node, &nb);
            stack.push(nb);
            proof {
                assert(stack@[stack@.len() - 1] == nb);
                assert(u0.contains(nb)) by {
                    if !u0.contains(nb) {
                        // impossible: `nb` would then have been visited in
                        // an earlier round, and the closure of the visited
                        // set would have visited `node` too
                        assert(spec_connected_at(m, nb, direction.spec_opposite())
                            == Some(node));
                        assert(!u0.contains(node));
                    }
                }
                assert forall|v: Vec2<i64>| #[trigger] g@.contains_key(v)
                    implies !unvisited.contains(v) || exists|k2: int| 0 <= k2 < stack@.len()
                        && stack@[k2] == v by {
                    if v != nb && g0.contains_key(v) && unvisited.contains(v) {
                        let k2 = choose|k2: int| 0 <= k2 < stack_old.len()
                            && stack_old[k2] == v;
                        assert(stack@[k2] == v);
                    }
                }
                // the new edge mirrors the parent's, and nothing else moved
                assert(g@.dom() =~= g2.dom());
                lemma_connected_at_symmetry(m, node, direction, nb);
                lemma_first_neighbour_symmetric(g2, node, direction, nb);
                lemma_first_neighbour_is(g2, nb, direction.spec_opposite(), node);
                assert forall|v: Vec2<i64>, dd: Direction| #[trigger] edge_flag(g@, v, dd)
                    implies edge_flag(m, v, dd)
                        && spec_first_neighbour(g@, v, dd)
                            == spec_first_neighbour(m, v, dd) by {
                    lemma_first_neighbour_same_dom(g@, g2, v, dd);
                    if v == node && dd == direction {
                        assert(edge_flag(m, node, direction));
                    } else if v == nb && dd == direction.spec_opposite() {
                        assert(edge_flag(m, nb, direction.spec_opposite()));
                    } else {
                        assert(edge_flag(g2, v, dd));
                    }
                }
                assert(edge_flag(g@, node, direction));
            }
        },
        None => {},
    }
}

impl Graph {
    /// Extends the set of vertices from the given list, creating the
    /// vertices that do not exist already; vertices already present are
    /// left untouched.
    pub fn extend_vertices(&mut self, vertices: &Vec<Vec2<i64>>)
        ensures
            final(self)@ == create_fold(old(self)@, vertices@),
    {
        let mut i: usize = 0;
        while i < vertices.len()
            invariant
                i <= vertices@.len(),
                self@ == create_fold(old(self)@, vertices@.take(i as int)),
            decreases vertices@.len() - i,
        {
            let ghost before = self@;
            self.create_vertex(vertices[i]);
            proof {
                assert(vertices@.take(i + 1).drop_last() =~= vertices@.take(i as int));
                assert(vertices@.take(i + 1).last() == vertices@[i as int]);
            }
            i = i + 1;
        }
        proof {
            assert(vertices@.take(vertices@.len() as int) =~= vertices@);
        }
    }

    /// Creates a graph from a list of vertices, with no edges.
    pub fn from_vertices(vertices: Vec<Vec2<i64>>) -> (r: Graph)
        ensures
            forall|q: Vec2<i64>| r@.contains_key(q) <==> vertices@.contains(q),
            forall|q: Vec2<i64>| #[trigger] r@.contains_key(q) ==> r@[q] == no_edges(),
    {
        let mut r = Graph::new();
        let mut i: usize = 0;
        while i < vertices.len()
            invariant
                i <= vertices@.len(),
                forall|q: Vec2<i64>| r@.contains_key(q)
                    <==> exists|j: int| 0 <= j < i && vertices@[j] == q,
                forall|q: Vec2<i64>| #[trigger] r@.contains_key(q) ==> r@[q] == no_edges(),
            decreases vertices@.len() - i,
        {
            let ghost before = r@;
            r.create_vertex(vertices[i]);
            proof {
                let v = vertices@[i as int];
                if !before.contains_key(v) {
                    assert(rejoin_edges(before, v) == no_edges()) by {
                        lemma_rejoin_all_false(before, v);
                    }
                }
                assert forall|q: Vec2<i64>| r@.contains_key(q)
                    implies exists|j: int| 0 <= j <= i && vertices@[j] == q by {
                    if q == v {
                        assert(vertices@[i as int] == q);
                    } else {
                        let j = choose|j: int| 0 <= j < i && vertices@[j] == q;
                    }
                }
            }
            i = i + 1;
        }
        r
    }

    /// Extends the graph's edges from a list of vertex pairs; every pair
    /// must name two neighbouring vertices.
    pub fn extend_edges(&mut self, edges: &Vec<(Vec2<i64>, Vec2<i64>)>)
        requires
            forall|i: int| 0 <= i < edges@.len()
                ==> spec_neighbouring(old(self)@, (#[trigger] edges@[i]).0, edges@[i].1),
        ensures
            final(self)@.dom() == old(self)@.dom(),
            forall|p: Vec2<i64>, dd: Direction| #[trigger] edge_flag(old(self)@, p, dd)
                ==> edge_flag(final(self)@, p, dd),
            forall|i: int| 0 <= i < edges@.len()
                ==> spec_are_connected(final(self)@, (#[trigger] edges@[i]).0, edges@[i].1),
            forall|p: Vec2<i64>, dd: Direction| #[trigger] edge_flag(final(self)@, p, dd)
                ==> edge_flag(old(self)@, p, dd)
                    || exists|i: int| 0 <= i < edges@.len()
                        && (((#[trigger] edges@[i]).0 == p
                                && edges@[i].0.spec_direction_to(edges@[i].1) == Some(dd))
                            || (edges@[i].1 == p
                                && edges@[i].1.spec_direction_to(edges@[i].0) == Some(dd))),
    {
        let ghost m0 = self@;
        let mut i: usize = 0;
        while i < edges.len()
            invariant
                i <= edges@.len(),
                forall|k: int| 0 <= k < edges@.len()
                    ==> spec_neighbouring(m0, (#[trigger] edges@[k]).0, edges@[k].1),
                self@.dom() == m0.dom(),
                forall|p: Vec2<i64>, dd: Direction| #[trigger] edge_flag(m0, p, dd)
                    ==> edge_flag(self@, p, dd),
                forall|k: int| 0 <= k < i
                    ==> spec_are_connected(self@, (#[trigger] edges@[k]).0, edges@[k].1),
                forall|p: Vec2<i64>, dd: Direction| #[trigger] edge_flag(self@, p, dd)
                    ==> edge_flag(m0, p, dd)
                        || exists|k: int| 0 <= k < i
                            && (((#[trigger] edges@[k]).0 == p
                                    && edges@[k].0.spec_direction_to(edges@[k].1) == Some(dd))
                                || (edges@[k].1 == p
                                    && edges@[k].1.spec_direction_to(edges@[k].0) == Some(dd))),
            decreases edges@.len() - i,
        {
            let ghost before = self@;
            let e = edges[i];
            proof {
                lemma_neighbouring_stable(m0, before, e.0, e.1);
            }
            self.connect(&e.0, &e.1);
            proof {
                let d = e.0.spec_direction_to(e.1).unwrap();
                assert(self@.dom() =~= before.dom());
                assert forall|p: Vec2<i64>, dd: Direction| #[trigger] edge_flag(before, p, dd)
                    implies edge_flag(self@, p, dd) by {}
                assert(edge_flag(self@, e.0, d));
                assert forall|k: int| 0 <= k < i + 1
                    implies spec_are_connected(self@, (#[trigger] edges@[k]).0, edges@[k].1) by {
                    let a = edges@[k].0;
                    let b = edges@[k].1;
                    let dk = a.spec_direction_to(b).unwrap();
                    lemma_neighbouring_stable(m0, self@, a, b);
                    if k < i {
                        assert(edge_flag(before, a, dk));
                    }
                }
                assert forall|p: Vec2<i64>, dd: Direction| #[trigger] edge_flag(self@, p, dd)
                    implies edge_flag(m0, p, dd)
                        || exists|k: int| 0 <= k < i + 1
                            && (((#[trigger] edges@[k]).0 == p
                                    && edges@[k].0.spec_direction_to(edges@[k].1) == Some(dd))
                                || (edges@[k].1 == p
                                    && edges@[k].1.spec_direction_to(edges@[k].0) == Some(dd))) by {
                    if edge_flag(before, p, dd) {
                        if !edge_flag(m0, p, dd) {
                            let k = choose|k: int| 0 <= k < i
                                && (((#[trigger] edges@[k]).0 == p
                                        && edges@[k].0.spec_direction_to(edges@[k].1)
                                            == Some(dd))
                                    || (edges@[k].1 == p
                                        && edges@[k].1.spec_direction_to(edges@[k].0)
                                            == Some(dd)));
                        }
                    } else {
                        // the flag was set by this pair's connection
                        let d = e.0.spec_direction_to(e.1).unwrap();
                        assert((edges@[i as int].0 == p && d == dd)
                            || (edges@[i as int].1 == p && dd == d.spec_opposite()));
                    }
                }
            }
            i = i + 1;
        }
    }

    /// Creates a graph from a list of vertices and a list of connected
    /// vertex pairs; every pair must name two of the vertices lying on a
    /// straight line with no third vertex between them.
    pub fn from_verts_and_edges(
        vertices: Vec<Vec2<i64>>,
        edges: &Vec<(Vec2<i64>, Vec2<i64>)>,
    ) -> (r: Graph)
        requires
            forall|i: int| 0 <= i < edges@.len()
                ==> spec_neighbouring(vertices_map(vertices@), (#[trigger] edges@[i]).0, edges@[i].1),
        ensures
            forall|q: Vec2<i64>| r@.contains_key(q) <==> vertices@.contains(q),
            forall|i: int| 0 <= i < edges@.len()
                ==> spec_are_connected(r@, (#[trigger] edges@[i]).0, edges@[i].1),
            forall|a: Vec2<i64>, b: Vec2<i64>| #[trigger] spec_are_connected(r@, a, b)
                ==> exists|i: int| 0 <= i < edges@.len()
                    && ((#[trigger] edges@[i]) == (a, b) || edges@[i] == (b, a)),
    {
        let ghost base = vertices_map(vertices@);
        let mut r = Graph::from_vertices(vertices);
        proof {
            assert(r@ =~= base);
            assert forall|p: Vec2<i64>, dd: Direction| !#[trigger] edge_flag(base, p, dd) by {}
        }
        r.extend_edges(edges);
        proof {
            assert forall|a: Vec2<i64>, b: Vec2<i64>| #[trigger] spec_are_connected(r@, a, b)
                implies exists|i: int| 0 <= i < edges@.len()
                    && ((#[trigger] edges@[i]) == (a, b) || edges@[i] == (b, a)) by {
                let d = a.spec_direction_to(b).unwrap();
                assert(edge_flag(r@, a, d));
                let i = choose|i: int| 0 <= i < edges@.len()
                    && (((#[trigger] edges@[i]).0 == a
                            && edges@[i].0.spec_direction_to(edges@[i].1) == Some(d))
                        || (edges@[i].1 == a
                            && edges@[i].1.spec_direction_to(edges@[i].0) == Some(d)));
                assert(r@.dom() =~= base.dom());
                lemma_first_neighbour_same_dom(r@, base, a, d);
                if edges@[i].0 == a && edges@[i].0.spec_direction_to(edges@[i].1) == Some(d) {
                    // the pair's far end is the first neighbour, which
                    // `are_connected` pins as `b`
                    assert(spec_first_neighbour(base, a, d) == Some(edges@[i].1));
                    assert(edges@[i] == (a, b));
                } else {
                    // seen from the pair's other end: the two endpoints
                    // are mutual first neighbours
                    let e0 = edges@[i].0;
                    let d2 = e0.spec_direction_to(a).unwrap();
                    assert(spec_first_neighbour(base, e0, d2) == Some(a));
                    lemma_first_neighbour_some(base, e0, d2, a);
                    lemma_first_neighbour_symmetric(base, e0, d2, a);
                    lemma_first_neighbour_is(base, a, d2.spec_opposite(), e0);
                    assert(d2.spec_opposite() == d);
                    assert(spec_first_neighbour(base, a, d) == Some(e0));
                    assert(edges@[i] == (b, a));
                }
            }
        }
        r
    }

    /// Removes a vertex, splicing the edges that passed through it: an
    /// edge line that continued on both sides of the vertex survives as a
    /// direct edge between the two neighbours, while an edge that ended
    /// at the vertex is dropped on the neighbour's side. Returns whether
    /// the vertex was really removed, i.e. was in the graph.
    pub fn remove_vertex(&mut self, vertex: &Vec2<i64>) -> (r: bool)
        ensures
            r == old(self)@.contains_key(*vertex),
            final(self)@ == if r {
                spec_removed_vertex(old(self)@, *vertex)
            } else {
                old(self)@
            },
    {
        proof {
            use_type_invariant(&*self);
        }
        let ghost m = self@;
        let edges = match self.vertices_edges.get(vertex) {
            Some(e) => e,
            None => {
                return false;
            },
        };
        let mut inner = SpatialMap::new();
        std::mem::swap(&mut inner, &mut self.vertices_edges);
        drop_half_edge(&mut inner, vertex, &edges, Direction::Up, false);
        proof {
            lemma_drop_step(m, m, inner@, *vertex, Direction::Up, false);
        }
        let ghost m1 = inner@;
        drop_half_edge(&mut inner, vertex, &edges, Direction::Down, false);
        proof {
            lemma_drop_step(m, m1, inner@, *vertex, Direction::Down, false);
        }
        let ghost m2 = inner@;
        drop_half_edge(&mut inner, vertex, &edges, Direction::Left, false);
        proof {
            lemma_drop_step(m, m2, inner@, *vertex, Direction::Left, false);
        }
        let ghost m3 = inner@;
        drop_half_edge(&mut inner, vertex, &edges, Direction::Right, false);
        proof {
            lemma_drop_step(m, m3, inner@, *vertex, Direction::Right, false);
            assert(inner@ == apply_drops(m, *vertex, false));
        }
        inner.remove(vertex);
        proof {
            lemma_removed_vertex_view(m, *vertex, inner@, false);
            lemma_remove_vertex_consistent(m, *vertex);
        }
        self.vertices_edges = inner;
        true
    }

    /// Removes a vertex and all the edges incident to it: none of its
    /// former neighbours keeps a flag towards the removed vertex, and no
    /// new connections form. Returns whether the vertex was really
    /// removed, i.e. was in the graph.
    pub fn remove_with_edges(&mut self, vertex: &Vec2<i64>) -> (r: bool)
        ensures
            r == old(self)@.contains_key(*vertex),
            final(self)@ == if r {
                spec_removed_with_edges(old(self)@, *vertex)
            } else {
                old(self)@
            },
    {
        proof {
            use_type_invariant(&*self);
        }
        let ghost m = self@;
        let edges = match self.vertices_edges.get(vertex) {
            Some(e) => e,
            None => {
                return false;
            },
        };
        let mut inner = SpatialMap::new();
        std::mem::swap(&mut inner, &mut self.vertices_edges);
        drop_half_edge(&mut inner, vertex, &edges, Direction::Up, true);
        proof {
            lemma_drop_step(m, m, inner@, *vertex, Direction::Up, true);
        }
        let ghost m1 = inner@;
        drop_half_edge(&mut inner, vertex, &edges, Direction::Down, true);
        proof {
            lemma_drop_step(m, m1, inner@, *vertex, Direction::Down, true);
        }
        let ghost m2 = inner@;
        drop_half_edge(&mut inner, vertex, &edges, Direction::Left, true);
        proof {
            lemma_drop_step(m, m2, inner@, *vertex, Direction::Left, true);
        }
        let ghost m3 = inner@;
        drop_half_edge(&mut inner, vertex, &edges, Direction::Right, true);
        proof {
            lemma_drop_step(m, m3, inner@, *vertex, Direction::Right, true);
            assert(inner@ == apply_drops(m, *vertex, true));
        }
        inner.remove(vertex);
        proof {
            lemma_removed_vertex_view(m, *vertex, inner@, true);
            lemma_remove_with_edges_consistent(m, *vertex);
        }
        self.vertices_edges = inner;
        true
    }
}

/// An edge between two vertices runs both ways: the first neighbour
/// relation is symmetric between the endpoints of a straight line free of
/// other vertices.
pub proof fn lemma_first_neighbour_symmetric(
    m: Map<Vec2<i64>, VertexEdges>,
    a: Vec2<i64>,
    d: Direction,
    b: Vec2<i64>,
)
    requires
        m.contains_key(a),
        is_first_neighbour(m, a, d, b),
    ensures
        is_first_neighbour(m, b, d.spec_opposite(), a),
{
    assert forall|q2: Vec2<i64>| #[trigger] m.contains_key(q2)
        && b.on_ray(d.spec_opposite(), q2)
        implies b.ray_dist(d.spec_opposite(), a) <= b.ray_dist(d.spec_opposite(), q2) by {
        if b.ray_dist(d.spec_opposite(), q2) < b.ray_dist(d.spec_opposite(), a) {
            assert(a.on_ray(d, q2));
            assert(a.ray_dist(d, q2) < a.ray_dist(d, b));
        }
    }
}

/// The flags a vertex keeps when `p` is removed while trying to splice
/// edges through: the flag towards `dd` survives unless it pointed at `p`
/// as an edge end that `p` did not carry through to the other side.
pub open spec fn keep_flag_spliced(
    m: Map<Vec2<i64>, VertexEdges>,
    p: Vec2<i64>,
    q: Vec2<i64>,
    dd: Direction,
) -> bool {
    m[q].spec_get(dd) && !(spec_first_neighbour(m, p, dd.spec_opposite()) == Some(q)
        && !m[p].spec_get(dd))
}

/// All four flags a vertex keeps when `p` is removed with splicing.
pub open spec fn kept_edges_spliced(
    m: Map<Vec2<i64>, VertexEdges>,
    p: Vec2<i64>,
    q: Vec2<i64>,
) -> VertexEdges {
    DirecMap {
        up: keep_flag_spliced(m, p, q, Direction::Up),
        left: keep_flag_spliced(m, p, q, Direction::Left),
        down: keep_flag_spliced(m, p, q, Direction::Down),
        right: keep_flag_spliced(m, p, q, Direction::Right),
    }
}

/// The graph map after `remove_vertex(p)`: `p` is gone, edges that passed
/// through `p` in both directions are spliced, edges that ended at `p`
/// are dropped on the neighbours' side.
pub open spec fn spec_removed_vertex(
    m: Map<Vec2<i64>, VertexEdges>,
    p: Vec2<i64>,
) -> Map<Vec2<i64>, VertexEdges> {
    Map::new(
        |q: Vec2<i64>| m.contains_key(q) && q != p,
        |q: Vec2<i64>| kept_edges_spliced(m, p, q),
    )
}

/// The flags a vertex keeps when `p` is removed along with all its edges:
/// the flag towards `dd` survives unless it was the far side of one of
/// `p`'s own edges.
pub open spec fn keep_flag_dropped(
    m: Map<Vec2<i64>, VertexEdges>,
    p: Vec2<i64>,
    q: Vec2<i64>,
    dd: Direction,
) -> bool {
    m[q].spec_get(dd) && !(spec_first_neighbour(m, p, dd.spec_opposite()) == Some(q)
        && m[p].spec_get(dd.spec_opposite()))
}

/// All four flags a vertex keeps when `p` is removed with its edges.
pub open spec fn kept_edges_dropped(
    m: Map<Vec2<i64>, VertexEdges>,
    p: Vec2<i64>,
    q: Vec2<i64>,
) -> VertexEdges {
    DirecMap {
        up: keep_flag_dropped(m, p, q, Direction::Up),
        left: keep_flag_dropped(m, p, q, Direction::Left),
        down: keep_flag_dropped(m, p, q, Direction::Down),
        right: keep_flag_dropped(m, p, q, Direction::Right),
    }
}

/// The graph map after `remove_with_edges(p)`: `p` is gone and so is
/// every edge incident to it.
pub open spec fn spec_removed_with_edges(
    m: Map<Vec2<i64>, VertexEdges>,
    p: Vec2<i64>,
) -> Map<Vec2<i64>, VertexEdges> {
    Map::new(
        |q: Vec2<i64>| m.contains_key(q) && q != p,
        |q: Vec2<i64>| kept_edges_dropped(m, p, q),
    )
}

/// Reads the re-join flag of a position towards one direction: whether
/// the first point of the map that way records an edge back.
fn probe_rejoin(
    map: &SpatialMap<VertexEdges>,
    vertex: &Vec2<i64>,
    direction: Direction,
) -> (r: bool)
    ensures
        r == rejoin_flag(map@, *vertex, direction),
{
    let r = match map.first_neighbour_data(vertex, direction) {
        Some(e) => *e.1.get(direction.opposite()),
        None => false,
    };
    proof {
        lemma_rejoin_flag(map@, *vertex, direction);
    }
    r
}

/// A point cannot lie on two distinct rays out of the same origin.
proof fn lemma_rays_disjoint(p: Vec2<i64>, d1: Direction, d2: Direction, q: Vec2<i64>)
    requires
        d1 != d2,
        p.on_ray(d1, q),
    ensures
        !p.on_ray(d2, q),
{
}

/// The first-neighbour function inverted: a computed first neighbour has
/// the nearest-neighbour properties.
pub proof fn lemma_first_neighbour_some(
    m: Map<Vec2<i64>, VertexEdges>,
    a: Vec2<i64>,
    d: Direction,
    b: Vec2<i64>,
)
    requires
        spec_first_neighbour(m, a, d) == Some(b),
    ensures
        is_first_neighbour(m, a, d, b),
{
    if exists|q: Vec2<i64>| is_first_neighbour(m, a, d, q) {
        let q = choose|q: Vec2<i64>| is_first_neighbour(m, a, d, q);
        assert(q == b);
    }
}

/// One case of the consistency proof for `connect`.
proof fn lemma_with_edge_consistent_at(
    m: Map<Vec2<i64>, VertexEdges>,
    a: Vec2<i64>,
    b: Vec2<i64>,
    d: Direction,
    p: Vec2<i64>,
    dd: Direction,
)
    requires
        consistent(m),
        spec_neighbouring(m, a, b),
        a.spec_direction_to(b) == Some(d),
        edge_flag(spec_with_edge(m, a, b, true), p, dd),
    ensures
        rejoin_flag(spec_with_edge(m, a, b, true), p, dd),
{
    let m2 = spec_with_edge(m, a, b, true);
    assert(m2.dom() =~= m.dom());
    lemma_first_neighbour_same_dom(m2, m, p, dd);
    lemma_first_neighbour_some(m, a, d, b);
    lemma_rejoin_flag(m2, p, dd);
    assert(a != b);
    if p == a && dd == d {
        assert(spec_first_neighbour(m2, p, dd) == Some(b));
        assert(m2[b].spec_get(d.spec_opposite()));
    } else if p == b && dd == d.spec_opposite() {
        lemma_first_neighbour_symmetric(m, a, d, b);
        lemma_first_neighbour_is(m, b, d.spec_opposite(), a);
        assert(spec_first_neighbour(m2, p, dd) == Some(a));
        assert(m2[a].spec_get(d));
    } else {
        assert(edge_flag(m, p, dd));
        lemma_rejoin_flag(m, p, dd);
        let q = spec_first_neighbour(m, p, dd).unwrap();
        assert(edge_flag(m, q, dd.spec_opposite()));
        assert(edge_flag(m2, q, dd.spec_opposite()));
    }
}

/// Setting the edge between two neighbouring vertices on both sides keeps
/// the graph consistent.
proof fn lemma_with_edge_consistent(
    m: Map<Vec2<i64>, VertexEdges>,
    a: Vec2<i64>,
    b: Vec2<i64>,
    d: Direction,
)
    requires
        consistent(m),
        spec_neighbouring(m, a, b),
        a.spec_direction_to(b) == Some(d),
    ensures
        consistent(spec_with_edge(m, a, b, true)),
{
    let m2 = spec_with_edge(m, a, b, true);
    assert(m2.dom() =~= m.dom());
    assert forall|p: Vec2<i64>, dd: Direction| #[trigger] edge_flag(m2, p, dd)
        implies rejoin_flag(m2, p, dd) by {
        lemma_with_edge_consistent_at(m, a, b, d, p, dd);
    }
}

/// One case of the consistency proof for `disconnect`.
proof fn lemma_without_edge_consistent_at(
    m: Map<Vec2<i64>, VertexEdges>,
    a: Vec2<i64>,
    b: Vec2<i64>,
    d: Direction,
    p: Vec2<i64>,
    dd: Direction,
)
    requires
        consistent(m),
        spec_neighbouring(m, a, b),
        a.spec_direction_to(b) == Some(d),
        edge_flag(spec_with_edge(m, a, b, false), p, dd),
    ensures
        rejoin_flag(spec_with_edge(m, a, b, false), p, dd),
{
    let m2 = spec_with_edge(m, a, b, false);
    assert(m2.dom() =~= m.dom());
    lemma_first_neighbour_same_dom(m2, m, p, dd);
    lemma_first_neighbour_some(m, a, d, b);
    lemma_rejoin_flag(m2, p, dd);
    assert(a != b);
    assert(!(p == a && dd == d) && !(p == b && dd == d.spec_opposite()));
    assert(edge_flag(m, p, dd));
    lemma_rejoin_flag(m, p, dd);
    let q = spec_first_neighbour(m, p, dd).unwrap();
    lemma_first_neighbour_some(m, p, dd, q);
    assert(edge_flag(m, q, dd.spec_opposite()));
    // the two flags that were cleared belong to no other edge: a vertex
    // whose edge relied on them would itself be one of the endpoints
    if q == a && dd.spec_opposite() == d {
        lemma_first_neighbour_symmetric(m, p, dd, q);
        lemma_first_neighbour_symmetric(m, a, d, b);
        lemma_first_neighbour_unique(m, a, d, p, b);
        assert(false);
    } else if q == b && dd.spec_opposite() == d.spec_opposite() {
        lemma_first_neighbour_symmetric(m, p, dd, q);
        lemma_first_neighbour_symmetric(m, a, d, b);
        lemma_first_neighbour_unique(m, b, d.spec_opposite(), p, a);
        assert(false);
    } else {
        assert(edge_flag(m2, q, dd.spec_opposite()));
    }
}

/// Clearing the edge between two neighbouring vertices on both sides
/// keeps the graph consistent.
proof fn lemma_without_edge_consistent(
    m: Map<Vec2<i64>, VertexEdges>,
    a: Vec2<i64>,
    b: Vec2<i64>,
    d: Direction,
)
    requires
        consistent(m),
        spec_neighbouring(m, a, b),
        a.spec_direction_to(b) == Some(d),
    ensures
        consistent(spec_with_edge(m, a, b, false)),
{
    let m2 = spec_with_edge(m, a, b, false);
    assert(m2.dom() =~= m.dom());
    assert forall|p: Vec2<i64>, dd: Direction| #[trigger] edge_flag(m2, p, dd)
        implies rejoin_flag(m2, p, dd) by {
        lemma_without_edge_consistent_at(m, a, b, d, p, dd);
    }
}


/// One case of the consistency proof for `create_vertex`.
proof fn lemma_create_vertex_at(
    m: Map<Vec2<i64>, VertexEdges>,
    p: Vec2<i64>,
    v: Vec2<i64>,
    dd: Direction,
)
    requires
        consistent(m),
        !m.contains_key(p),
        edge_flag(m.insert(p, rejoin_edges(m, p)), v, dd),
    ensures
        rejoin_flag(m.insert(p, rejoin_edges(m, p)), v, dd),
{
    let m2 = m.insert(p, rejoin_edges(m, p));
    lemma_rejoin_flag(m2, v, dd);
    lemma_first_neighbour_insert(m, p, rejoin_edges(m, p), v, dd);
    if v == p {
        lemma_rejoin_flag(m, p, dd);
        assert(rejoin_flag(m, p, dd));
        let q = spec_first_neighbour(m, p, dd).unwrap();
        lemma_first_neighbour_some(m, p, dd, q);
        assert(!p.on_ray(dd, p));
        assert(spec_first_neighbour(m2, p, dd) == Some(q));
        assert(q != p);
        assert(edge_flag(m2, q, dd.spec_opposite()));
    } else {
        assert(edge_flag(m, v, dd));
        lemma_rejoin_flag(m, v, dd);
        let w = spec_first_neighbour(m, v, dd).unwrap();
        lemma_first_neighbour_some(m, v, dd, w);
        assert(edge_flag(m, w, dd.spec_opposite()));
        if v.on_ray(dd, p) && v.ray_dist(dd, p) <= v.ray_dist(dd, w) {
            // the new vertex lands strictly between `v` and its old first
            // neighbour `w`, and re-joins the edge
            assert(p != w);
            assert(v.ray_dist(dd, p) < v.ray_dist(dd, w));
            assert(spec_first_neighbour(m2, v, dd) == Some(p));
            assert(is_first_neighbour(m, p, dd.spec_opposite(), v)) by {
                assert forall|q2: Vec2<i64>| #[trigger] m.contains_key(q2)
                    && p.on_ray(dd.spec_opposite(), q2)
                    implies p.ray_dist(dd.spec_opposite(), v)
                        <= p.ray_dist(dd.spec_opposite(), q2) by {
                    if p.ray_dist(dd.spec_opposite(), q2) < p.ray_dist(dd.spec_opposite(), v) {
                        assert(v.on_ray(dd, q2));
                        assert(v.ray_dist(dd, q2) < v.ray_dist(dd, w));
                        assert(false);
                    }
                }
            }
            lemma_first_neighbour_is(m, p, dd.spec_opposite(), v);
            lemma_rejoin_flag(m, p, dd.spec_opposite());
            assert(rejoin_flag(m, p, dd.spec_opposite()));
            assert(m2[p].spec_get(dd.spec_opposite()));
            assert(edge_flag(m2, p, dd.spec_opposite()));
        } else {
            assert(spec_first_neighbour(m2, v, dd) == Some(w));
            assert(w != p);
            assert(edge_flag(m2, w, dd.spec_opposite()));
        }
    }
}

/// Creating a vertex with its re-join flags keeps the graph consistent.
proof fn lemma_create_vertex_consistent(m: Map<Vec2<i64>, VertexEdges>, p: Vec2<i64>)
    requires
        consistent(m),
        !m.contains_key(p),
    ensures
        consistent(m.insert(p, rejoin_edges(m, p))),
{
    let m2 = m.insert(p, rejoin_edges(m, p));
    assert(m2.dom() =~= m.dom().insert(p));
    assert forall|v: Vec2<i64>, dd: Direction| #[trigger] edge_flag(m2, v, dd)
        implies rejoin_flag(m2, v, dd) by {
        lemma_create_vertex_at(m, p, v, dd);
    }
}


/// Clears the flag of the first neighbour of `vertex` towards `direction`
/// that points back at `vertex`'s position, when the removal mode calls
/// for it: `remove_with_edges` clears it when `vertex`'s own flag that
/// way is set, `remove_vertex` when `vertex`'s flag the *opposite* way is
/// not set (so no edge passes through).
fn drop_half_edge(
    map: &mut SpatialMap<VertexEdges>,
    vertex: &Vec2<i64>,
    vertex_edges: &VertexEdges,
    direction: Direction,
    with_edges: bool,
)
    ensures
        final(map)@ == {
            let cond = if with_edges {
                vertex_edges.spec_get(direction)
            } else {
                !vertex_edges.spec_get(direction.spec_opposite())
            };
            match spec_first_neighbour(old(map)@, *vertex, direction) {
                Some(q) => if cond {
                    old(map)@.insert(
                        q,
                        old(map)@[q].spec_set(direction.spec_opposite(), false),
                    )
                } else {
                    old(map)@
                },
                None => old(map)@,
            }
        },
{
    let do_clear = if with_edges {
        *vertex_edges.get(direction)
    } else {
        !*vertex_edges.get(direction.opposite())
    };
    match map.first_neighbour_data(vertex, direction) {
        Some(e) => {
            if do_clear {
                let mut q_edges = e.1;
                q_edges.set(direction.opposite(), false);
                map.insert(e.0, q_edges);
            }
        },
        None => {},
    }
}

/// One flag-clearing step, described over the original map `m` for the
/// first-neighbour lookup and the removed vertex's own flags, and over
/// the current map `cur` for the values.
pub open spec fn apply_drop(
    cur: Map<Vec2<i64>, VertexEdges>,
    m: Map<Vec2<i64>, VertexEdges>,
    p: Vec2<i64>,
    d: Direction,
    with_edges: bool,
) -> Map<Vec2<i64>, VertexEdges> {
    let cond = if with_edges {
        m[p].spec_get(d)
    } else {
        !m[p].spec_get(d.spec_opposite())
    };
    match spec_first_neighbour(m, p, d) {
        Some(q) => if cond {
            cur.insert(q, cur[q].spec_set(d.spec_opposite(), false))
        } else {
            cur
        },
        None => cur,
    }
}

/// The map after the four flag-clearing steps, before the vertex itself
/// is removed.
pub open spec fn apply_drops(
    m: Map<Vec2<i64>, VertexEdges>,
    p: Vec2<i64>,
    with_edges: bool,
) -> Map<Vec2<i64>, VertexEdges> {
    let m1 = apply_drop(m, m, p, Direction::Up, with_edges);
    let m2 = apply_drop(m1, m, p, Direction::Down, with_edges);
    let m3 = apply_drop(m2, m, p, Direction::Left, with_edges);
    apply_drop(m3, m, p, Direction::Right, with_edges)
}

/// After one `drop_half_edge` step the key set is unchanged, all first
/// neighbours are unchanged, and the step is the functional
/// [`apply_drop`] over the original map.
proof fn lemma_drop_step(
    m: Map<Vec2<i64>, VertexEdges>,
    cur: Map<Vec2<i64>, VertexEdges>,
    next: Map<Vec2<i64>, VertexEdges>,
    p: Vec2<i64>,
    d: Direction,
    with_edges: bool,
)
    requires
        m.contains_key(p),
        cur.dom() =~= m.dom(),
        next == {
            let cond = if with_edges {
                m[p].spec_get(d)
            } else {
                !m[p].spec_get(d.spec_opposite())
            };
            match spec_first_neighbour(cur, p, d) {
                Some(q) => if cond {
                    cur.insert(q, cur[q].spec_set(d.spec_opposite(), false))
                } else {
                    cur
                },
                None => cur,
            }
        },
    ensures
        next.dom() =~= m.dom(),
        next == apply_drop(cur, m, p, d, with_edges),
        forall|dd: Direction| #[trigger] spec_first_neighbour(next, p, dd)
            == spec_first_neighbour(m, p, dd),
{
    lemma_first_neighbour_same_dom(cur, m, p, d);
    match spec_first_neighbour(m, p, d) {
        Some(q) => {
            lemma_first_neighbour_some(m, p, d, q);
            assert(m.contains_key(q));
            assert(next.dom() =~= m.dom());
        },
        None => {},
    }
    assert forall|dd: Direction| #[trigger] spec_first_neighbour(next, p, dd)
        == spec_first_neighbour(m, p, dd) by {
        lemma_first_neighbour_same_dom(next, m, p, dd);
    }
}

/// Distinct directions give distinct first neighbours.
proof fn lemma_first_neighbours_distinct(
    m: Map<Vec2<i64>, VertexEdges>,
    p: Vec2<i64>,
    d1: Direction,
    d2: Direction,
)
    requires
        d1 != d2,
        spec_first_neighbour(m, p, d1) is Some,
    ensures
        spec_first_neighbour(m, p, d1) != spec_first_neighbour(m, p, d2),
{
    let q = spec_first_neighbour(m, p, d1).unwrap();
    lemma_first_neighbour_some(m, p, d1, q);
    if spec_first_neighbour(m, p, d2) == Some(q) {
        lemma_first_neighbour_some(m, p, d2, q);
        lemma_rays_disjoint(p, d1, d2, q);
    }
}

/// The four `drop_half_edge` steps followed by removing the vertex give
/// exactly the functional removal result.
#[verifier::rlimit(60)]
#[verifier::spinoff_prover]
proof fn lemma_removed_vertex_view(
    m: Map<Vec2<i64>, VertexEdges>,
    p: Vec2<i64>,
    result: Map<Vec2<i64>, VertexEdges>,
    with_edges: bool,
)
    requires
        m.contains_key(p),
        result == apply_drops(m, p, with_edges).remove(p),
    ensures
        result == if with_edges {
            spec_removed_with_edges(m, p)
        } else {
            spec_removed_vertex(m, p)
        },
{
    let target = if with_edges {
        spec_removed_with_edges(m, p)
    } else {
        spec_removed_vertex(m, p)
    };
    assert forall|d1: Direction, d2: Direction|
        #![trigger spec_first_neighbour(m, p, d1), spec_first_neighbour(m, p, d2)]
        d1 != d2 && spec_first_neighbour(m, p, d1) is Some
        implies spec_first_neighbour(m, p, d1) != spec_first_neighbour(m, p, d2) by {
        lemma_first_neighbours_distinct(m, p, d1, d2);
    }
    assert(result =~= target);
}


/// One case of the consistency proof for `remove_vertex`.
proof fn lemma_remove_vertex_at(
    m: Map<Vec2<i64>, VertexEdges>,
    p: Vec2<i64>,
    v: Vec2<i64>,
    dd: Direction,
)
    requires
        consistent(m),
        m.contains_key(p),
        edge_flag(spec_removed_vertex(m, p), v, dd),
    ensures
        rejoin_flag(spec_removed_vertex(m, p), v, dd),
{
    let m2 = spec_removed_vertex(m, p);
    lemma_rejoin_flag(m2, v, dd);
    assert(m2.dom() =~= m.remove(p).dom());
    lemma_first_neighbour_same_dom(m2, m.remove(p), v, dd);
    lemma_first_neighbour_remove(m, p, v, dd);
    assert(v != p && m.contains_key(v));
    assert(keep_flag_spliced(m, p, v, dd));
    assert(edge_flag(m, v, dd));
    lemma_rejoin_flag(m, v, dd);
    let w = spec_first_neighbour(m, v, dd).unwrap();
    lemma_first_neighbour_some(m, v, dd, w);
    assert(edge_flag(m, w, dd.spec_opposite()));
    if w == p {
        lemma_first_neighbour_symmetric(m, v, dd, p);
        lemma_first_neighbour_is(m, p, dd.spec_opposite(), v);
        // `v` kept its flag, so an edge passed through `p`
        assert(m[p].spec_get(dd));
        assert(edge_flag(m, p, dd));
        lemma_rejoin_flag(m, p, dd);
        let w2 = spec_first_neighbour(m, p, dd).unwrap();
        lemma_first_neighbour_some(m, p, dd, w2);
        assert(edge_flag(m, w2, dd.spec_opposite()));
        assert(spec_first_neighbour(m2, v, dd) == Some(w2));
        assert(w2 != p);
        // the far side keeps its flag, because the pass-through condition
        // held on `p`'s side towards it
        assert(m[p].spec_get(dd.spec_opposite()));
        assert(keep_flag_spliced(m, p, w2, dd.spec_opposite())) by {
            if spec_first_neighbour(m, p, dd) == Some(w2) && !m[p].spec_get(dd.spec_opposite()) {
                assert(false);
            }
        }
        assert(edge_flag(m2, w2, dd.spec_opposite()));
    } else {
        assert(spec_first_neighbour(m2, v, dd) == Some(w));
        assert(keep_flag_spliced(m, p, w, dd.spec_opposite())) by {
            if spec_first_neighbour(m, p, dd) == Some(w) && !m[p].spec_get(dd.spec_opposite()) {
                lemma_first_neighbour_some(m, p, dd, w);
                lemma_first_neighbour_symmetric(m, v, dd, w);
                lemma_first_neighbour_symmetric(m, p, dd, w);
                lemma_first_neighbour_unique(m, w, dd.spec_opposite(), v, p);
                assert(false);
            }
        }
        assert(edge_flag(m2, w, dd.spec_opposite()));
    }
}

/// Removing a vertex with splicing keeps the graph consistent.
proof fn lemma_remove_vertex_consistent(m: Map<Vec2<i64>, VertexEdges>, p: Vec2<i64>)
    requires
        consistent(m),
        m.contains_key(p),
    ensures
        consistent(spec_removed_vertex(m, p)),
{
    let m2 = spec_removed_vertex(m, p);
    assert(m2.dom() =~= m.dom().remove(p));
    assert forall|v: Vec2<i64>, dd: Direction| #[trigger] edge_flag(m2, v, dd)
        implies rejoin_flag(m2, v, dd) by {
        lemma_remove_vertex_at(m, p, v, dd);
    }
}

/// One case of the consistency proof for `remove_with_edges`.
proof fn lemma_remove_with_edges_at(
    m: Map<Vec2<i64>, VertexEdges>,
    p: Vec2<i64>,
    v: Vec2<i64>,
    dd: Direction,
)
    requires
        consistent(m),
        m.contains_key(p),
        edge_flag(spec_removed_with_edges(m, p), v, dd),
    ensures
        rejoin_flag(spec_removed_with_edges(m, p), v, dd),
{
    let m2 = spec_removed_with_edges(m, p);
    lemma_rejoin_flag(m2, v, dd);
    assert(m2.dom() =~= m.remove(p).dom());
    lemma_first_neighbour_same_dom(m2, m.remove(p), v, dd);
    lemma_first_neighbour_remove(m, p, v, dd);
    assert(v != p && m.contains_key(v));
    assert(keep_flag_dropped(m, p, v, dd));
    assert(edge_flag(m, v, dd));
    lemma_rejoin_flag(m, v, dd);
    let w = spec_first_neighbour(m, v, dd).unwrap();
    lemma_first_neighbour_some(m, v, dd, w);
    assert(edge_flag(m, w, dd.spec_opposite()));
    if w == p {
        // the flag towards `p` cannot have survived: the edge it recorded
        // was incident to `p` and was dropped on both sides
        lemma_first_neighbour_symmetric(m, v, dd, p);
        lemma_first_neighbour_is(m, p, dd.spec_opposite(), v);
        assert(m[p].spec_get(dd.spec_opposite()));
        assert(false);
    } else {
        assert(spec_first_neighbour(m2, v, dd) == Some(w));
        assert(keep_flag_dropped(m, p, w, dd.spec_opposite())) by {
            if spec_first_neighbour(m, p, dd) == Some(w)
                && m[p].spec_get(dd) {
                lemma_first_neighbour_some(m, p, dd, w);
                lemma_first_neighbour_symmetric(m, v, dd, w);
                lemma_first_neighbour_symmetric(m, p, dd, w);
                lemma_first_neighbour_unique(m, w, dd.spec_opposite(), v, p);
                assert(false);
            }
        }
        assert(edge_flag(m2, w, dd.spec_opposite()));
    }
}

/// Removing a vertex together with its edges keeps the graph consistent.
proof fn lemma_remove_with_edges_consistent(m: Map<Vec2<i64>, VertexEdges>, p: Vec2<i64>)
    requires
        consistent(m),
        m.contains_key(p),
    ensures
        consistent(spec_removed_with_edges(m, p)),
{
    let m2 = spec_removed_with_edges(m, p);
    assert(m2.dom() =~= m.dom().remove(p));
    assert forall|v: Vec2<i64>, dd: Direction| #[trigger] edge_flag(m2, v, dd)
        implies rejoin_flag(m2, v, dd) by {
        lemma_remove_with_edges_at(m, p, v, dd);
    }
}


/// The edge flags of a vertex with no edges at all.
pub open spec fn no_edges() -> VertexEdges {
    DirecMap { up: false, left: false, down: false, right: false }
}

/// The graph a plain list of vertices stands for: each vertex present,
/// none connected.
pub open spec fn vertices_map(s: Seq<Vec2<i64>>) -> Map<Vec2<i64>, VertexEdges> {
    Map::new(|p: Vec2<i64>| s.contains(p), |p: Vec2<i64>| no_edges())
}

/// The graph map after creating each vertex of a list in order.
pub open spec fn create_fold(
    m: Map<Vec2<i64>, VertexEdges>,
    s: Seq<Vec2<i64>>,
) -> Map<Vec2<i64>, VertexEdges>
    decreases s.len(),
{
    if s.len() == 0 {
        m
    } else {
        let prev = create_fold(m, s.drop_last());
        if prev.contains_key(s.last()) {
            prev
        } else {
            prev.insert(s.last(), rejoin_edges(prev, s.last()))
        }
    }
}

/// In a graph without any edge flags, a created vertex picks up no flags.
proof fn lemma_rejoin_all_false(m: Map<Vec2<i64>, VertexEdges>, p: Vec2<i64>)
    requires
        forall|q: Vec2<i64>| #[trigger] m.contains_key(q) ==> m[q] == no_edges(),
    ensures
        rejoin_edges(m, p) == no_edges(),
{
    assert forall|d: Direction| !#[trigger] rejoin_flag(m, p, d) by {
        lemma_rejoin_flag(m, p, d);
        match spec_first_neighbour(m, p, d) {
            Some(q) => {
                lemma_first_neighbour_some(m, p, d, q);
                assert(m[q] == no_edges());
            },
            None => {},
        }
    }
    assert(!rejoin_flag(m, p, Direction::Up));
    assert(!rejoin_flag(m, p, Direction::Left));
    assert(!rejoin_flag(m, p, Direction::Down));
    assert(!rejoin_flag(m, p, Direction::Right));
}

/// Being neighbours depends only on the vertex set, so it survives any
/// operation that changes edge flags alone.
pub proof fn lemma_neighbouring_stable(
    m1: Map<Vec2<i64>, VertexEdges>,
    m2: Map<Vec2<i64>, VertexEdges>,
    a: Vec2<i64>,
    b: Vec2<i64>,
)
    requires
        m1.dom() == m2.dom(),
        spec_neighbouring(m1, a, b),
    ensures
        spec_neighbouring(m2, a, b),
{
    let d = a.spec_direction_to(b).unwrap();
    assert(m1.dom() =~= m2.dom());
    lemma_first_neighbour_same_dom(m1, m2, a, d);
    assert(m2.dom().contains(a));
    assert(m2.dom().contains(b));
}

/// Edges are symmetric: two vertices are connected one way exactly when
/// they are connected the other way.
pub proof fn lemma_edge_symmetry(m: Map<Vec2<i64>, VertexEdges>, a: Vec2<i64>, b: Vec2<i64>)
    requires
        consistent(m),
    ensures
        spec_are_connected(m, a, b) == spec_are_connected(m, b, a),
{
    if spec_are_connected(m, a, b) {
        lemma_edge_symmetry_oneway(m, a, b);
    }
    if spec_are_connected(m, b, a) {
        lemma_edge_symmetry_oneway(m, b, a);
    }
}

/// One direction of the edge symmetry law.
proof fn lemma_edge_symmetry_oneway(m: Map<Vec2<i64>, VertexEdges>, a: Vec2<i64>, b: Vec2<i64>)
    requires
        consistent(m),
        spec_are_connected(m, a, b),
    ensures
        spec_are_connected(m, b, a),
{
    let d = a.spec_direction_to(b).unwrap();
    assert(edge_flag(m, a, d));
    lemma_rejoin_flag(m, a, d);
    assert(edge_flag(m, b, d.spec_opposite()));
    lemma_first_neighbour_some(m, a, d, b);
    lemma_first_neighbour_symmetric(m, a, d, b);
    lemma_first_neighbour_is(m, b, d.spec_opposite(), a);
    assert(b.spec_direction_to(a) == Some(d.spec_opposite()));
}

/// An edge seen from one endpoint is an edge seen from the other: the
/// counterpart of `connected_at` in the opposite direction.
pub proof fn lemma_connected_at_symmetry(
    m: Map<Vec2<i64>, VertexEdges>,
    v: Vec2<i64>,
    d: Direction,
    w: Vec2<i64>,
)
    requires
        consistent(m),
        spec_connected_at(m, v, d) == Some(w),
    ensures
        spec_connected_at(m, w, d.spec_opposite()) == Some(v),
{
    assert(edge_flag(m, v, d));
    lemma_rejoin_flag(m, v, d);
    assert(edge_flag(m, w, d.spec_opposite()));
    lemma_first_neighbour_some(m, v, d, w);
    lemma_first_neighbour_symmetric(m, v, d, w);
    lemma_first_neighbour_is(m, w, d.spec_opposite(), v);
}


/// Connecting two disconnected neighbouring vertices connects them, and
/// disconnecting them afterwards leaves them disconnected again: a second
/// `connect` in between reports nothing new to do, and `are_connected`
/// is false once the edge is gone.
pub proof fn lemma_connect_disconnect(m: Map<Vec2<i64>, VertexEdges>, a: Vec2<i64>, b: Vec2<i64>)
    requires
        consistent(m),
        spec_neighbouring(m, a, b),
        !spec_are_connected(m, a, b),
    ensures
        spec_are_connected(spec_with_edge(m, a, b, true), a, b),
        !spec_are_connected(
            spec_with_edge(spec_with_edge(m, a, b, true), a, b, false),
            a,
            b,
        ),
{
    let d = a.spec_direction_to(b).unwrap();
    let m1 = spec_with_edge(m, a, b, true);
    assert(m1.dom() =~= m.dom());
    lemma_first_neighbour_same_dom(m1, m, a, d);
    assert(edge_flag(m1, a, d));
    let m2 = spec_with_edge(m1, a, b, false);
    assert(a != b);
    assert(!edge_flag(m2, a, d));
}

} // verus!
