//! Building a graph: attaching every edge to the two vertices on which its
//! ends lie, and recording the connection in the matrix.

use vstd::prelude::*;

use crate::error::Error;
use crate::graph::matrix::{matrix_width, ConnectionMatrix};
use crate::graph::{holds_edge, is_connection_matrix, joins, Edge, Graph, Vertex};

verus! {

/// The vertex lies where the edge starts.
pub open spec fn at_start(vertex: Vertex, edge: Edge) -> bool {
    vertex.point.gps.same_place(&edge.start().gps)
}

/// The vertex lies where the edge ends, and not where it starts.
pub open spec fn at_end(vertex: Vertex, edge: Edge) -> bool {
    !at_start(vertex, edge) && vertex.point.gps.same_place(&edge.end().gps)
}

/// Vertex `i` is the vertex at which the edge starts: the last in the list
/// of those that lie where the edge starts.
pub open spec fn is_start_vertex(vertices: Seq<Vertex>, edge: Edge, i: int) -> bool {
    &&& 0 <= i < vertices.len()
    &&& at_start(vertices[i], edge)
    &&& forall|j: int| i < j < vertices.len() ==> !at_start(#[trigger] vertices[j], edge)
}

/// Vertex `i` is the vertex at which the edge ends: the last in the list of
/// those that lie where the edge ends and not where it starts.
pub open spec fn is_end_vertex(vertices: Seq<Vertex>, edge: Edge, i: int) -> bool {
    &&& 0 <= i < vertices.len()
    &&& at_end(vertices[i], edge)
    &&& forall|j: int| i < j < vertices.len() ==> !at_end(#[trigger] vertices[j], edge)
}

/// The edge runs from vertex `s` to vertex `e`.
pub open spec fn attaches(vertices: Seq<Vertex>, edge: Edge, s: int, e: int) -> bool {
    is_start_vertex(vertices, edge, s) && is_end_vertex(vertices, edge, e)
}

/// An end of the edge lies on no vertex. (An edge that ends where it starts
/// is dangling too: no vertex lies at its end and not at its start.)
pub open spec fn is_dangling(vertices: Seq<Vertex>, edge: Edge) -> bool {
    forall|s: int, e: int| !#[trigger] attaches(vertices, edge, s, e)
}

/// Edge `k` joins two vertices that an edge before it in the list joins
/// already.
pub open spec fn is_conflicting(vertices: Seq<Vertex>, edges: Seq<Edge>, k: int) -> bool {
    exists|k2: int, s: int, e: int|
        0 <= k2 < k && #[trigger] attaches(vertices, edges[k2], s, e) && (attaches(
            vertices,
            edges[k],
            s,
            e,
        ) || attaches(vertices, edges[k], e, s))
}

/// Edge `k` cannot be put into the graph.
pub open spec fn is_faulty(vertices: Seq<Vertex>, edges: Seq<Edge>, k: int) -> bool {
    is_dangling(vertices, edges[k]) || is_conflicting(vertices, edges, k)
}

/// The matrix records exactly the first `k` edges, each in the two cells of
/// the vertices it runs between.
pub open spec fn records_edges(
    m: ConnectionMatrix,
    vertices: Seq<Vertex>,
    edges: Seq<Edge>,
    k: int,
) -> bool {
    &&& forall|k2: int, s: int, e: int|
        0 <= k2 < k && #[trigger] attaches(vertices, edges[k2], s, e) ==> m.cell(s, e) == Some(
            k2 as usize,
        ) && m.cell(e, s) == Some(k2 as usize)
    &&& forall|i: int, j: int|
        0 <= i < vertices.len() && 0 <= j < vertices.len() ==> (#[trigger] m.cell(i, j)
            matches Some(k2) ==> k2 < k && (attaches(vertices, edges[k2 as int], i, j) || attaches(
            vertices,
            edges[k2 as int],
            j,
            i,
        )))
}

/// A matrix of `n` rows and `n` columns with every cell empty.
fn empty_matrix(n: usize) -> (m: ConnectionMatrix)
    requires
        n * n <= usize::MAX,
    ensures
        m.height() == n,
        matrix_width(m) == n,
        forall|i: int, j: int| 0 <= i < n && 0 <= j < n ==> #[trigger] m.cell(i, j) is None,
{
    let cells: usize = n * n;
    let mut data: Vec<Option<usize>> = Vec::with_capacity(cells);
    let mut filled: usize = 0;
    while filled < cells
        invariant
            filled <= cells,
            data@.len() == filled,
            forall|c: int| 0 <= c < filled ==> #[trigger] data@[c] is None,
        decreases cells - filled,
    {
        data.push(None);
        filled = filled + 1;
    }
    let m = ConnectionMatrix::from_vec(n, n, data);
    assert forall|i: int, j: int| 0 <= i < n && 0 <= j < n implies #[trigger] m.cell(i, j)
        is None by {
        assert(0 <= i + j * n < n * n) by (nonlinear_arith)
            requires
                0 <= i < n,
                0 <= j < n,
        ;
        assert(data@[i + j * n] is None);
    }
    m
}

/// The two vertices between which the edge runs, or `None` for each end that
/// lies on no vertex.
fn find_end_vertices(vertices: &Vec<Vertex>, edge: &Edge) -> (ends: (Option<usize>, Option<usize>))
    requires
        edge.points@.len() >= 1,
    ensures
        match ends.0 {
            Some(s) => is_start_vertex(vertices@, *edge, s as int),
            None => forall|i: int| 0 <= i < vertices@.len() ==> !at_start(#[trigger] vertices@[i], *edge),
        },
        match ends.1 {
            Some(e) => is_end_vertex(vertices@, *edge, e as int),
            None => forall|i: int| 0 <= i < vertices@.len() ==> !at_end(#[trigger] vertices@[i], *edge),
        },
{
    let start_of_edge = &edge.points[0];
    let end_of_edge = &edge.points[edge.points.len() - 1];
    let mut start_vertex_index: Option<usize> = None;
    let mut end_vertex_index: Option<usize> = None;
    let mut i: usize = 0;
    while i < vertices.len()
        invariant
            i <= vertices@.len(),
            *start_of_edge == edge.start(),
            *end_of_edge == edge.end(),
            match start_vertex_index {
                Some(s) => s < i && at_start(vertices@[s as int], *edge) && forall|j: int|
                    s < j < i ==> !at_start(#[trigger] vertices@[j], *edge),
                None => forall|j: int| 0 <= j < i ==> !at_start(#[trigger] vertices@[j], *edge),
            },
            match end_vertex_index {
                Some(e) => e < i && at_end(vertices@[e as int], *edge) && forall|j: int|
                    e < j < i ==> !at_end(#[trigger] vertices@[j], *edge),
                None => forall|j: int| 0 <= j < i ==> !at_end(#[trigger] vertices@[j], *edge),
            },
        decreases vertices@.len() - i,
    {
        if vertices[i].point.gps == start_of_edge.gps {
            start_vertex_index = Some(i);
        } else if vertices[i].point.gps == end_of_edge.gps {
            end_vertex_index = Some(i);
        }
        i = i + 1;
    }
    (start_vertex_index, end_vertex_index)
}

/// Builds the graph of the given vertices and edges.
///
/// Each edge is attached to the vertex that lies where its first point lies
/// and to the vertex that lies where its last point lies (where several
/// vertices lie at one place, to the last of them), and its index is written
/// into the two cells of the connection matrix that stand for that pair of
/// vertices.
///
/// The edges are taken in order, and the first that cannot be attached ends
/// the construction: with `DanglingEdge` if one of its ends lies on no
/// vertex, with `ConflictingEdge` if an earlier edge joins the same two
/// vertices. Both errors name the edge.
pub fn connect_vertices_with_edges(edges: Vec<Edge>, vertices: Vec<Vertex>) -> (result: Result<
    Graph,
    Error,
>)
    requires
        forall|k: int| 0 <= k < edges@.len() ==> (#[trigger] edges@[k]).wf(),
        vertices@.len() * vertices@.len() <= usize::MAX,
    ensures
        match result {
            Ok(graph) => {
                &&& graph.wf()
                &&& graph.vertices == vertices
                &&& graph.edges == edges
                &&& forall|k: int| 0 <= k < edges@.len() ==> !is_faulty(vertices@, edges@, k)
                &&& records_edges(
                    graph.connection_matrix,
                    vertices@,
                    edges@,
                    edges@.len() as int,
                )
            },
            Err(error) => exists|k: int|
                {
                    &&& 0 <= k < edges@.len()
                    &&& #[trigger] is_faulty(vertices@, edges@, k)
                    &&& forall|k2: int| 0 <= k2 < k ==> !is_faulty(vertices@, edges@, k2)
                    &&& if is_dangling(vertices@, edges@[k]) {
                        error matches Error::DanglingEdge(name) && name@ == edges@[k].name@
                    } else {
                        error matches Error::ConflictingEdge(name) && name@ == edges@[k].name@
                    }
                },
        },
{
    let n = vertices.len();
    let mut connection_matrix = empty_matrix(n);
    let mut k: usize = 0;
    while k < edges.len()
        invariant
            k <= edges@.len(),
            n == vertices@.len(),
            forall|k2: int| 0 <= k2 < edges@.len() ==> (#[trigger] edges@[k2]).wf(),
            is_connection_matrix(connection_matrix, n as nat, k as nat),
            records_edges(connection_matrix, vertices@, edges@, k as int),
            forall|k2: int| 0 <= k2 < k ==> !is_faulty(vertices@, edges@, k2),
            forall|k2: int| 0 <= k2 < k ==> #[trigger] holds_edge(connection_matrix, k2),
        decreases edges@.len() - k,
    {
        let edge = &edges[k];
        assert(edge.wf());
        let ends = find_end_vertices(&vertices, edge);
        match ends {
            (Some(s), Some(e)) => {
                assert(attaches(vertices@, *edge, s as int, e as int));
                let ghost before = connection_matrix;
                proof {
                    lemma_attaches_once(vertices@, *edge, s as int, e as int);
                }
                if connection_matrix.read(s, e).is_some() {
                    proof {
                        let k2 = before.cell(s as int, e as int).unwrap() as int;
                        if attaches(vertices@, edges@[k2], s as int, e as int) {
                        } else {
                            assert(attaches(vertices@, edges@[k2], e as int, s as int));
                        }
                        assert(is_conflicting(vertices@, edges@, k as int));
                        assert(is_faulty(vertices@, edges@, k as int));
                        assert(!is_dangling(vertices@, edges@[k as int]));
                    }
                    let name = edge.name.clone();
                    assert(name@ == edges@[k as int].name@);
                    return Err(Error::ConflictingEdge(name));
                }
                proof {
                    assert(!is_conflicting(vertices@, edges@, k as int)) by {
                        if is_conflicting(vertices@, edges@, k as int) {
                            let (k2, s2, e2) = choose|k2: int, s2: int, e2: int|
                                0 <= k2 < k && #[trigger] attaches(vertices@, edges@[k2], s2, e2)
                                    && (attaches(vertices@, edges@[k as int], s2, e2) || attaches(
                                    vertices@,
                                    edges@[k as int],
                                    e2,
                                    s2,
                                ));
                            assert(before.cell(s2, e2) == Some(k2 as usize));
                            assert(before.cell(e2, s2) == Some(k2 as usize));
                        }
                    }
                }
                connection_matrix.write(s, e, Some(k));
                let ghost between = connection_matrix;
                connection_matrix.write(e, s, Some(k));
                proof {
                    let after = connection_matrix;
                    assert forall|i: int, j: int| 0 <= i < n && 0 <= j < n implies #[trigger] after.cell(
                        i,
                        j,
                    ) == if (i == s && j == e) || (i == e && j == s) {
                        Some(k)
                    } else {
                        before.cell(i, j)
                    } by {
                        assert(between.cell(i, j) == if i == s && j == e {
                            Some(k)
                        } else {
                            before.cell(i, j)
                        });
                    }
                    assert forall|k2: int| 0 <= k2 < k + 1 implies #[trigger] holds_edge(
                        after,
                        k2,
                    ) by {
                        if k2 < k {
                            assert(holds_edge(before, k2));
                            let (i, j) = choose|i: int, j: int|
                                before.in_bounds(i, j) && #[trigger] before.cell(i, j) == Some(
                                    k2 as usize,
                                );
                            assert(after.in_bounds(i, j) && after.cell(i, j) == Some(k2 as usize));
                        } else {
                            assert(after.in_bounds(s as int, e as int) && after.cell(
                                s as int,
                                e as int,
                            ) == Some(k2 as usize));
                        }
                    }
                    assert forall|k2: int, s2: int, e2: int|
                        0 <= k2 < k + 1 && #[trigger] attaches(
                            vertices@,
                            edges@[k2],
                            s2,
                            e2,
                        ) implies after.cell(s2, e2) == Some(k2 as usize) && after.cell(e2, s2)
                        == Some(k2 as usize) by {
                        if k2 < k {
                            assert(before.cell(s2, e2) == Some(k2 as usize));
                            assert(before.cell(e2, s2) == Some(k2 as usize));
                        } else {
                            lemma_attaches_once(vertices@, edges@[k2], s2, e2);
                        }
                    }
                }
            },
            _ => {
                assert(is_dangling(vertices@, *edge)) by {
                    assert forall|s: int, e: int| !#[trigger] attaches(vertices@, *edge, s, e) by {}
                }
                assert(is_faulty(vertices@, edges@, k as int));
                let name = edge.name.clone();
                assert(name@ == edges@[k as int].name@);
                return Err(Error::DanglingEdge(name));
            },
        }
        k = k + 1;
    }
    let graph = Graph { vertices, edges, connection_matrix };
    proof {
        assert forall|i: int, j: int|
            0 <= i < graph.vertices@.len() && 0 <= j < graph.vertices@.len() implies (
        #[trigger] graph.cell(i, j) matches Some(e) ==> joins(
            graph.edges@[e as int],
            graph.vertices@[i].point,
            graph.vertices@[j].point,
        )) by {}
    }
    Ok(graph)
}

/// An edge runs between one pair of vertices only, and the two are distinct.
pub proof fn lemma_attaches_once(vertices: Seq<Vertex>, edge: Edge, s: int, e: int)
    requires
        attaches(vertices, edge, s, e),
    ensures
        s != e,
        forall|s2: int, e2: int| #[trigger] attaches(vertices, edge, s2, e2) ==> s2 == s && e2 == e,
{
    assert forall|s2: int, e2: int| #[trigger] attaches(vertices, edge, s2, e2) implies s2 == s
        && e2 == e by {
        if s2 < s {
            assert(!at_start(vertices[s], edge));
        } else if s < s2 {
            assert(!at_start(vertices[s2], edge));
        }
        if e2 < e {
            assert(!at_end(vertices[e], edge));
        } else if e < e2 {
            assert(!at_end(vertices[e2], edge));
        }
    }
}

} // verus!
