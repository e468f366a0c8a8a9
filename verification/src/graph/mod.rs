//! The graph model: named vertices, named polyline edges with their lengths,
//! and the square connection matrix that says which edge joins which pair of
//! vertices.

pub mod connect;
pub mod conversions;
pub mod matrix;
pub mod point;

use vstd::prelude::*;

pub use crate::graph::connect::connect_vertices_with_edges;
use crate::graph::matrix::{matrix_width, ConnectionMatrix};
pub use crate::graph::point::{GPSPointDeg, Point, TangentialPoint};

verus! {

/// The most points a single edge may have. With this many, the length of the
/// polyline still fits in a `u64` whatever the coordinates are.
pub const MAX_EDGE_POINTS: usize = 0x4000_0000;

/// The length of a polyline: the sum of the distances between consecutive
/// points, each rounded down to whole millimetres.
pub open spec fn polyline_length(points: Seq<Point>) -> nat
    decreases points.len(),
{
    if points.len() < 2 {
        0
    } else {
        polyline_length(points.drop_last()) + points[points.len() - 2].tangential.spec_distance(
            &points.last().tangential,
        )
    }
}

/// A footpath between two vertices: a polyline with a name and its length.
#[derive(Debug, PartialEq)]
pub struct Edge {
    /// Tells which line of the map this is.
    pub name: String,
    /// The polyline, from the edge's start to its end.
    pub points: Vec<Point>,
    /// The length of the polyline in millimetres.
    pub distance: u64,
}

impl Edge {
    /// An edge has at least two points, and its recorded length is the length
    /// of its polyline.
    pub open spec fn wf(&self) -> bool {
        &&& self.points@.len() >= 2
        &&& self.distance == polyline_length(self.points@)
    }

    /// The first point of the polyline.
    pub open spec fn start(&self) -> Point {
        self.points@.first()
    }

    /// The last point of the polyline.
    pub open spec fn end(&self) -> Point {
        self.points@.last()
    }

    /// Whether the edge is well formed: whether it has two points at least
    /// and its recorded length is the length of its polyline.
    pub fn is_well_formed(&self) -> (yes: bool)
        ensures
            yes == self.wf(),
    {
        if self.points.len() < 2 {
            return false;
        }
        let mut length: u128 = 0;
        let mut i: usize = 1;
        assert(self.points@.take(1).len() < 2);
        while i < self.points.len()
            invariant
                1 <= i <= self.points@.len(),
                length == polyline_length(self.points@.take(i as int)),
                length <= (i - 1) * 0x2_0000_0000,
            decreases self.points@.len() - i,
        {
            let step = self.points[i - 1].tangential.distance(&self.points[i].tangential);
            proof {
                let prefix = self.points@.take(i + 1);
                assert(prefix.drop_last() =~= self.points@.take(i as int));
                assert(prefix[prefix.len() - 2] == self.points@[i - 1]);
                assert(prefix.last() == self.points@[i as int]);
                assert((i - 1) * 0x2_0000_0000 + 0x2_0000_0000 <= 0xFFFF_FFFF_FFFF_FFFF
                    * 0x2_0000_0000) by (nonlinear_arith)
                    requires
                        1 <= i <= 0xFFFF_FFFF_FFFF_FFFF,
                ;
            }
            length = length + step as u128;
            i = i + 1;
        }
        assert(self.points@.take(self.points@.len() as int) =~= self.points@);
        length == self.distance as u128
    }

    /// Builds an edge and measures it.
    pub fn new(name: String, points: Vec<Point>) -> (edge: Edge)
        requires
            2 <= points@.len() <= MAX_EDGE_POINTS,
        ensures
            edge.wf(),
            edge.name == name,
            edge.points == points,
            edge.distance == polyline_length(points@),
    {
        let mut distance: u64 = 0;
        let mut i: usize = 1;
        assert(points@.take(1).len() < 2);
        while i < points.len()
            invariant
                1 <= i <= points@.len() <= MAX_EDGE_POINTS,
                distance == polyline_length(points@.take(i as int)),
                distance <= (i - 1) * 0x2_0000_0000,
            decreases points@.len() - i,
        {
            let step = points[i - 1].tangential.distance(&points[i].tangential);
            proof {
                let prefix = points@.take(i + 1);
                assert(prefix.drop_last() =~= points@.take(i as int));
                assert(prefix[prefix.len() - 2] == points@[i - 1]);
                assert(prefix.last() == points@[i as int]);
            }
            distance = distance + step;
            i = i + 1;
        }
        assert(points@.take(points@.len() as int) =~= points@);
        Edge { name, points, distance }
    }
}

/// A named waypoint, with the working storage of the shortest-path search.
#[derive(Debug, PartialEq)]
pub struct Vertex {
    /// Shown to the operator for key locations.
    pub name: String,
    /// Where the waypoint lies.
    pub point: Point,
    /// The vertex before this one on the best route found so far.
    pub parent_vertex_index: Option<usize>,
    /// The length of the best route found so far; `None` stands for
    /// "not reached", an infinite distance.
    pub tentative_distance: Option<u128>,
    /// Whether the search has settled this vertex.
    pub visited: bool,
}

impl Vertex {
    /// The working storage is in the state in which every search starts:
    /// not reached, not visited, no parent.
    pub open spec fn is_fresh(&self) -> bool {
        &&& self.parent_vertex_index is None
        &&& self.tentative_distance is None
        &&& !self.visited
    }

    /// A vertex with fresh working storage.
    pub fn new(name: String, point: Point) -> (vertex: Vertex)
        ensures
            vertex.name == name,
            vertex.point == point,
            vertex.is_fresh(),
    {
        Vertex { name, point, parent_vertex_index: None, tentative_distance: None, visited: false }
    }
}

/// One cell of the connection matrix: the step from vertex `ith` to vertex
/// `jth`, and through the matrix the edge that realises it.
#[derive(Debug, Clone, Copy, PartialEq, Eq, Structural)]
pub struct MatrixIndex {
    pub ith: usize,
    pub jth: usize,
}

/// Vertices, edges, and the matrix that connects them. The cell at `(i, j)`
/// holds the index of the edge that joins vertex `i` and vertex `j`.
#[derive(Debug, PartialEq)]
pub struct Graph {
    pub vertices: Vec<Vertex>,
    pub edges: Vec<Edge>,
    pub connection_matrix: ConnectionMatrix,
}

/// The edge runs between the two places, in one direction or the other.
pub open spec fn joins(edge: Edge, a: Point, b: Point) -> bool {
    ||| edge.start().gps.same_place(&a.gps) && edge.end().gps.same_place(&b.gps)
    ||| edge.start().gps.same_place(&b.gps) && edge.end().gps.same_place(&a.gps)
}

/// Some cell of the matrix holds the edge index `e`.
pub open spec fn holds_edge(m: ConnectionMatrix, e: int) -> bool {
    exists|i: int, j: int| m.in_bounds(i, j) && #[trigger] m.cell(i, j) == Some(e as usize)
}

/// `m` is a connection matrix for `n` vertices and `edge_count` edges: it is
/// square with `n` rows, its diagonal is empty, it is symmetric, and every
/// cell that is filled holds an index below `edge_count`.
pub open spec fn is_connection_matrix(m: ConnectionMatrix, n: nat, edge_count: nat) -> bool {
    &&& m.height() == n
    &&& matrix_width(m) == n
    &&& forall|i: int, j: int|
        0 <= i < n && 0 <= j < n ==> (#[trigger] m.cell(i, j) matches Some(e) ==> e < edge_count)
    &&& forall|i: int| 0 <= i < n ==> #[trigger] m.cell(i, i) is None
    &&& forall|i: int, j: int| 0 <= i < n && 0 <= j < n ==> #[trigger] m.cell(i, j) == m.cell(j, i)
}

/// Whether two cells hold the same.
fn same_cell(a: Option<usize>, b: Option<usize>) -> (same: bool)
    ensures
        same == (a == b),
{
    match (a, b) {
        (Some(x), Some(y)) => x == y,
        (None, None) => true,
        _ => false,
    }
}

impl Graph {
    /// The cell of the connection matrix at `(i, j)`.
    pub open spec fn cell(&self, i: int, j: int) -> Option<usize> {
        self.connection_matrix.cell(i, j)
    }

    /// The matrix is square with one row per vertex, its diagonal is empty,
    /// it is symmetric, and every cell that is filled names an edge of the
    /// graph.
    pub open spec fn matrix_wf(&self) -> bool {
        is_connection_matrix(self.connection_matrix, self.vertices@.len(), self.edges@.len())
    }

    /// Whether the connection matrix is well formed, which is what a
    /// shortest-path search asks of a graph.
    pub fn has_well_formed_matrix(&self) -> (yes: bool)
        ensures
            yes == self.matrix_wf(),
    {
        let n = self.vertices.len();
        if self.connection_matrix.row_count() != n || self.connection_matrix.column_count() != n {
            return false;
        }
        let mut i: usize = 0;
        while i < n
            invariant
                n == self.vertices@.len(),
                self.connection_matrix.height() == n,
                matrix_width(self.connection_matrix) == n,
                i <= n,
                forall|a: int, b: int|
                    0 <= a < i && 0 <= b < n ==> {
                        &&& (#[trigger] self.connection_matrix.cell(a, b) matches Some(e) ==> e
                            < self.edges@.len())
                        &&& self.connection_matrix.cell(a, b) == self.connection_matrix.cell(b, a)
                    },
                forall|a: int| 0 <= a < i ==> #[trigger] self.connection_matrix.cell(a, a) is None,
            decreases n - i,
        {
            if self.connection_matrix.read(i, i).is_some() {
                return false;
            }
            let mut j: usize = 0;
            while j < n
                invariant
                    n == self.vertices@.len(),
                    self.connection_matrix.height() == n,
                    matrix_width(self.connection_matrix) == n,
                    i < n,
                    j <= n,
                    forall|b: int|
                        0 <= b < j ==> {
                            &&& (#[trigger] self.connection_matrix.cell(i as int, b) matches Some(
                                e,
                            ) ==> e < self.edges@.len())
                            &&& self.connection_matrix.cell(i as int, b)
                                == self.connection_matrix.cell(b, i as int)
                        },
                decreases n - j,
            {
                let there = self.connection_matrix.read(i, j);
                let back = self.connection_matrix.read(j, i);
                let in_range = match there {
                    Some(e) => e < self.edges.len(),
                    None => true,
                };
                if !in_range || !same_cell(there, back) {
                    return false;
                }
                j = j + 1;
            }
            i = i + 1;
        }
        true
    }

    /// The whole invariant of a graph: a well-formed matrix, well-formed
    /// edges, every edge stored in the matrix, and each stored edge running
    /// between the two vertices of its cell.
    pub open spec fn wf(&self) -> bool {
        &&& self.matrix_wf()
        &&& forall|e: int| 0 <= e < self.edges@.len() ==> (#[trigger] self.edges@[e]).wf()
        &&& forall|e: int| 0 <= e < self.edges@.len() ==> #[trigger] holds_edge(self.connection_matrix, e)
        &&& forall|i: int, j: int|
            0 <= i < self.vertices@.len() && 0 <= j < self.vertices@.len() ==> (
            #[trigger] self.cell(i, j) matches Some(e) ==> joins(
                self.edges@[e as int],
                self.vertices@[i].point,
                self.vertices@[j].point,
            ))
    }
}

/// Whether the edge runs between the two points, in one direction or the
/// other.
fn runs_between(edge: &Edge, a: &Point, b: &Point) -> (yes: bool)
    requires
        edge.points@.len() >= 1,
    ensures
        yes == joins(*edge, *a, *b),
{
    let start = &edge.points[0];
    let end = &edge.points[edge.points.len() - 1];
    (start.gps == a.gps && end.gps == b.gps) || (start.gps == b.gps && end.gps == a.gps)
}

impl Graph {
    /// Whether the graph is well formed. A graph that
    /// [`connect_vertices_with_edges`] has built is, and a search keeps it so;
    /// this is for a graph that was put together or changed by hand.
    pub fn is_well_formed(&self) -> (yes: bool)
        ensures
            yes == self.wf(),
    {
        if !self.has_well_formed_matrix() {
            return false;
        }
        let mut e: usize = 0;
        while e < self.edges.len()
            invariant
                e <= self.edges@.len(),
                forall|k: int| 0 <= k < e ==> (#[trigger] self.edges@[k]).wf(),
                forall|k: int| 0 <= k < e ==> #[trigger] holds_edge(self.connection_matrix, k),
            decreases self.edges@.len() - e,
        {
            if !self.edges[e].is_well_formed() || self.connection_matrix_index_from(e).is_err() {
                return false;
            }
            e = e + 1;
        }
        let n = self.vertices.len();
        let mut i: usize = 0;
        while i < n
            invariant
                self.matrix_wf(),
                n == self.vertices@.len(),
                i <= n,
                forall|k: int| 0 <= k < self.edges@.len() ==> (#[trigger] self.edges@[k]).wf(),
                forall|a: int, b: int|
                    0 <= a < i && 0 <= b < n ==> (#[trigger] self.cell(a, b) matches Some(k)
                        ==> joins(
                        self.edges@[k as int],
                        self.vertices@[a].point,
                        self.vertices@[b].point,
                    )),
            decreases n - i,
        {
            let mut j: usize = 0;
            while j < n
                invariant
                    self.matrix_wf(),
                    n == self.vertices@.len(),
                    i < n,
                    j <= n,
                    forall|k: int| 0 <= k < self.edges@.len() ==> (#[trigger] self.edges@[k]).wf(),
                    forall|b: int|
                        0 <= b < j ==> (#[trigger] self.cell(i as int, b) matches Some(k) ==> joins(
                            self.edges@[k as int],
                            self.vertices@[i as int].point,
                            self.vertices@[b].point,
                        )),
                decreases n - j,
            {
                match self.connection_matrix.read(i, j) {
                    Some(k) => {
                        assert(self.cell(i as int, j as int) == Some(k));
                        assert(self.edges@[k as int].wf());
                        if !runs_between(
                            &self.edges[k],
                            &self.vertices[i].point,
                            &self.vertices[j].point,
                        ) {
                            return false;
                        }
                    },
                    None => {},
                }
                j = j + 1;
            }
            i = i + 1;
        }
        true
    }
}

/// No vertex of a well-formed graph is joined to itself: the diagonal of the
/// connection matrix is empty.
pub proof fn lemma_diagonal_is_empty(graph: Graph, i: int)
    requires
        graph.wf(),
        0 <= i < graph.vertices@.len(),
    ensures
        graph.cell(i, i) is None,
{
}

/// The connection matrix of a well-formed graph is symmetric: the cell at
/// `(i, j)` and the cell at `(j, i)` hold the same.
pub proof fn lemma_matrix_is_symmetric(graph: Graph, i: int, j: int)
    requires
        graph.wf(),
        0 <= i < graph.vertices@.len(),
        0 <= j < graph.vertices@.len(),
    ensures
        graph.cell(i, j) == graph.cell(j, i),
{
}

impl MatrixIndex {
    /// The index addresses a cell of the graph's matrix that holds the index
    /// of one of the graph's edges.
    pub open spec fn is_connection_of(&self, graph: &Graph) -> bool {
        &&& graph.connection_matrix.in_bounds(self.ith as int, self.jth as int)
        &&& graph.cell(self.ith as int, self.jth as int) matches Some(e) && e < graph.edges@.len()
    }

    /// Whether an edge of the graph realises this step, so that
    /// [`MatrixIndex::edge`] can be asked for it.
    pub fn connects(&self, graph: &Graph) -> (yes: bool)
        ensures
            yes == self.is_connection_of(graph),
    {
        match graph.connection_matrix.get(self.ith, self.jth) {
            Some(edge_index) => edge_index < graph.edges.len(),
            None => false,
        }
    }

    /// The edge that realises this step.
    pub fn edge<'a, 'b>(&'a self, graph: &'b Graph) -> (edge: &'b Edge)
        requires
            self.is_connection_of(graph),
        ensures
            *edge == graph.edges@[graph.cell(self.ith as int, self.jth as int).unwrap() as int],
    {
        let edge_index = graph.connection_matrix.read(self.ith, self.jth).unwrap();
        &graph.edges[edge_index]
    }

    /// The vertex this step leaves and the vertex it reaches.
    pub fn vertices<'a, 'b>(&'a self, graph: &'b Graph) -> (ends: (&'b Vertex, &'b Vertex))
        requires
            self.ith < graph.vertices@.len(),
            self.jth < graph.vertices@.len(),
        ensures
            *ends.0 == graph.vertices@[self.ith as int],
            *ends.1 == graph.vertices@[self.jth as int],
    {
        (&graph.vertices[self.ith], &graph.vertices[self.jth])
    }
}

/// Something that involves edges of a graph: the graph as a whole, or a path
/// through it.
pub trait Edges {
    /// Whether the edges involved can be looked up in `graph`.
    spec fn has_edges_in(&self, graph: &Graph) -> bool;

    /// The edges involved, in order.
    spec fn edges_in(&self, graph: &Graph) -> Seq<Edge>;

    /// Whether the edges involved can be looked up in `graph`, so that
    /// [`Edges::edges`] can be asked for them.
    fn has_edges(&self, graph: &Graph) -> (yes: bool)
        ensures
            yes == self.has_edges_in(graph),
    ;

    /// The edges involved, in order.
    fn edges<'a, 'b>(&'a self, graph: &'b Graph) -> (edges: Vec<&'b Edge>)
        requires
            self.has_edges_in(graph),
        ensures
            edges@.len() == self.edges_in(graph).len(),
            forall|k: int| 0 <= k < edges@.len() ==> *(#[trigger] edges@[k]) == self.edges_in(graph)[k],
    ;
}

/// Something that involves vertices of a graph: the graph as a whole, or a
/// path through it.
pub trait Vertices {
    /// Whether the vertices involved can be looked up in `graph`.
    spec fn has_vertices_in(&self, graph: &Graph) -> bool;

    /// The vertices involved, in order.
    spec fn vertices_in(&self, graph: &Graph) -> Seq<Vertex>;

    /// Whether the vertices involved can be looked up in `graph`, so that
    /// [`Vertices::vertices`] can be asked for them.
    fn has_vertices(&self, graph: &Graph) -> (yes: bool)
        ensures
            yes == self.has_vertices_in(graph),
    ;

    /// The vertices involved, in order.
    fn vertices<'a, 'b>(&'a self, graph: &'b Graph) -> (vertices: Vec<&'b Vertex>)
        requires
            self.has_vertices_in(graph),
        ensures
            vertices@.len() == self.vertices_in(graph).len(),
            forall|k: int|
                0 <= k < vertices@.len() ==> *(#[trigger] vertices@[k]) == self.vertices_in(
                    graph,
                )[k],
    ;
}

/// A graph involves all the vertices of the graph it is asked about.
impl Vertices for Graph {
    open spec fn has_vertices_in(&self, graph: &Graph) -> bool {
        true
    }

    open spec fn vertices_in(&self, graph: &Graph) -> Seq<Vertex> {
        graph.vertices@
    }

    fn has_vertices(&self, graph: &Graph) -> (yes: bool) {
        true
    }

    fn vertices<'a, 'b>(&'a self, graph: &'b Graph) -> (vertices: Vec<&'b Vertex>) {
        let mut vertices: Vec<&'b Vertex> = Vec::with_capacity(graph.vertices.len());
        let mut i: usize = 0;
        while i < graph.vertices.len()
            invariant
                i <= graph.vertices@.len(),
                vertices@.len() == i,
                forall|k: int| 0 <= k < i ==> *(#[trigger] vertices@[k]) == graph.vertices@[k],
            decreases graph.vertices@.len() - i,
        {
            vertices.push(&graph.vertices[i]);
            i = i + 1;
        }
        vertices
    }
}

/// A graph involves all the edges of the graph it is asked about.
impl Edges for Graph {
    open spec fn has_edges_in(&self, graph: &Graph) -> bool {
        true
    }

    open spec fn edges_in(&self, graph: &Graph) -> Seq<Edge> {
        graph.edges@
    }

    fn has_edges(&self, graph: &Graph) -> (yes: bool) {
        true
    }

    fn edges<'a, 'b>(&'a self, graph: &'b Graph) -> (edges: Vec<&'b Edge>) {
        let mut edges: Vec<&'b Edge> = Vec::with_capacity(graph.edges.len());
        let mut i: usize = 0;
        while i < graph.edges.len()
            invariant
                i <= graph.edges@.len(),
                edges@.len() == i,
                forall|k: int| 0 <= k < i ==> *(#[trigger] edges@[k]) == graph.edges@[k],
            decreases graph.edges@.len() - i,
        {
            edges.push(&graph.edges[i]);
            i = i + 1;
        }
        edges
    }
}

} // verus!
