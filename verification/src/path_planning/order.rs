//! Which of several shortest routes the search finds, in a graph whose edges
//! all have a length above zero: the one on which every vertex is reached
//! from its least parent.

use vstd::prelude::*;

use crate::graph::{Edge, Graph, MatrixIndex, Vertex};
use crate::graph::matrix::{matrix_width, ConnectionMatrix};
use crate::path_planning::routes::{
    distance, is_distance, is_reachable, is_route, is_step, lemma_distance_exists,
    lemma_distance_unique, lemma_route_drop_last, link_length, route_length,
};
use crate::path_planning::search::{
    is_nearest_unvisited, lemma_frontier, recorded, search_inv, settled, tentative,
};

verus! {

/// Every edge that the matrix holds has a length above zero.
pub open spec fn positive_links(m: ConnectionMatrix, edges: Seq<Edge>) -> bool {
    forall|u: int, v: int|
        m.in_bounds(u, v) && (#[trigger] m.cell(u, v)) is Some ==> link_length(m, edges, u, v) > 0
}

/// A vertex at distance `d1` with index `i1` comes no later than one at
/// distance `d2` with index `i2`: vertices are taken by distance, and by
/// index where the distances are equal.
pub open spec fn comes_first(d1: int, i1: int, d2: int, i2: int) -> bool {
    d1 < d2 || (d1 == d2 && i1 <= i2)
}

/// A shortest route from `start` to `v` can end with the step from `u` to
/// `v`.
pub open spec fn is_parent(
    m: ConnectionMatrix,
    edges: Seq<Edge>,
    start: int,
    u: int,
    v: int,
) -> bool {
    &&& 0 <= u < m.height()
    &&& 0 <= v < m.height()
    &&& m.cell(u, v) is Some
    &&& is_reachable(m, start, u)
    &&& distance(m, edges, start, u) + link_length(m, edges, u, v) == distance(m, edges, start, v)
}

/// `p` is the least parent of `v`: of the vertices from which a shortest
/// route from `start` can step to `v`, the one that comes first.
pub open spec fn is_least_parent(
    m: ConnectionMatrix,
    edges: Seq<Edge>,
    start: int,
    p: int,
    v: int,
) -> bool {
    &&& is_parent(m, edges, start, p, v)
    &&& forall|u: int| #[trigger]
        is_parent(m, edges, start, u, v) ==> comes_first(
            distance(m, edges, start, p) as int,
            p,
            distance(m, edges, start, u) as int,
            u,
        )
}

/// Every step of `steps` leads to its vertex from the least parent of that
/// vertex.
pub open spec fn takes_least_parents(
    m: ConnectionMatrix,
    edges: Seq<Edge>,
    start: int,
    steps: Seq<MatrixIndex>,
) -> bool {
    forall|k: int|
        0 <= k < steps.len() ==> is_least_parent(
            m,
            edges,
            start,
            (#[trigger] steps[k]).ith as int,
            steps[k].jth as int,
        )
}

impl Graph {
    /// Every edge that the connection matrix holds has a length above zero.
    pub open spec fn has_positive_links(&self) -> bool {
        positive_links(self.connection_matrix, self.edges@)
    }

    /// Every step of `steps` leads to its vertex from the least parent of
    /// that vertex: from the vertex that comes first, by its distance from
    /// `start` and then by its index, among those from which a shortest
    /// route from `start` can step to it.
    pub open spec fn takes_least_parents(&self, start: usize, steps: Seq<MatrixIndex>) -> bool {
        takes_least_parents(self.connection_matrix, self.edges@, start as int, steps)
    }
}

/// The distance from a vertex to itself is zero.
pub proof fn lemma_distance_to_itself(m: ConnectionMatrix, edges: Seq<Edge>, v: int)
    requires
        0 <= v < m.height(),
    ensures
        is_distance(m, edges, v, v, 0),
        distance(m, edges, v, v) == 0,
{
    let nothing = Seq::<MatrixIndex>::empty();
    assert(is_route(m, nothing, v, v));
    assert(route_length(m, edges, nothing) == 0);
    lemma_distance_unique(m, edges, v, v, 0);
}

/// In a graph whose edges all have a length above zero, one route only leads
/// from `start` to `end` by least parents. So to say of a route that it
/// takes least parents is to say which route it is.
pub proof fn lemma_least_parents_route_is_unique(
    m: ConnectionMatrix,
    edges: Seq<Edge>,
    start: int,
    end: int,
    one: Seq<MatrixIndex>,
    other: Seq<MatrixIndex>,
)
    requires
        positive_links(m, edges),
        matrix_width(m) == m.height(),
        is_route(m, one, start, end),
        is_route(m, other, start, end),
        takes_least_parents(m, edges, start, one),
        takes_least_parents(m, edges, start, other),
    ensures
        one == other,
    decreases one.len(),
{
    if one.len() == 0 || other.len() == 0 {
        if one.len() > 0 || other.len() > 0 {
            // a route from a vertex back to itself cannot end with a parent
            let longer = if one.len() > 0 {
                one
            } else {
                other
            };
            let last = longer.last();
            assert(is_least_parent(m, edges, start, last.ith as int, last.jth as int));
            lemma_distance_to_itself(m, edges, start);
            assert(is_step(m, longer[longer.len() - 1]));
            assert(m.in_bounds(last.ith as int, last.jth as int));
        } else {
            assert(one =~= other);
        }
    } else {
        let a = one.last();
        let b = other.last();
        assert(is_least_parent(m, edges, start, a.ith as int, a.jth as int));
        assert(is_least_parent(m, edges, start, b.ith as int, b.jth as int));
        assert(is_parent(m, edges, start, a.ith as int, end));
        assert(is_parent(m, edges, start, b.ith as int, end));
        assert(a == b);
        lemma_route_drop_last(m, one, start, end);
        lemma_route_drop_last(m, other, start, end);
        assert forall|k: int| 0 <= k < one.drop_last().len() implies is_least_parent(
            m,
            edges,
            start,
            (#[trigger] one.drop_last()[k]).ith as int,
            one.drop_last()[k].jth as int,
        ) by {
            assert(one.drop_last()[k] == one[k]);
        }
        assert forall|k: int| 0 <= k < other.drop_last().len() implies is_least_parent(
            m,
            edges,
            start,
            (#[trigger] other.drop_last()[k]).ith as int,
            other.drop_last()[k].jth as int,
        ) by {
            assert(other.drop_last()[k] == other[k]);
        }
        lemma_least_parents_route_is_unique(
            m,
            edges,
            start,
            a.ith as int,
            one.drop_last(),
            other.drop_last(),
        );
        assert(one =~= one.drop_last().push(a));
        assert(other =~= other.drop_last().push(b));
    }
}

/// Seen from the settled vertex `u`, the parent of `v` is the best so far:
/// the way to `v` through `u` is longer than the tentative distance of `v`,
/// or as long, and then the parent of `v` comes no later than `u`.
pub open spec fn keeps_best_parent(
    m: ConnectionMatrix,
    edges: Seq<Edge>,
    vs: Seq<Vertex>,
    u: int,
    v: int,
) -> bool {
    &&& tentative(vs, v) matches Some(dv)
    &&& tentative(vs, u) matches Some(du)
    &&& vs[v].parent_vertex_index matches Some(p)
    &&& p < vs.len()
    &&& tentative(vs, p as int) matches Some(dp)
    &&& dv < du + link_length(m, edges, u, v) || (dv == du + link_length(m, edges, u, v)
        && comes_first(dp as int, p as int, du as int, u))
}

/// What holds, beyond [`search_inv`], of a search in a graph whose edges all
/// have a length above zero: the vertices are settled in the order of their
/// distance and, at equal distance, of their index; every reached vertex has
/// for parent the best of the settled vertices that lead to it; and no
/// unvisited vertex is nearer to the start than the vertex being visited.
#[verifier::opaque]
pub open spec fn order_inv(
    m: ConnectionMatrix,
    edges: Seq<Edge>,
    vs: Seq<Vertex>,
    start: int,
    current: int,
    progress: int,
) -> bool {
    let n = vs.len() as int;
    &&& forall|u: int, v: int|
        #![trigger settled(vs, u, current), settled(vs, v, current)]
        0 <= u < n && 0 <= v < n && settled(vs, u, current) && !settled(vs, v, current)
            && tentative(vs, v) is Some ==> tentative(vs, u).unwrap() < tentative(vs, v).unwrap()
            || (tentative(vs, u).unwrap() == tentative(vs, v).unwrap() && u < v)
    &&& current >= 0 ==> forall|u: int|
        0 <= u < n && #[trigger] settled(vs, u, current) ==> comes_first(
            tentative(vs, u).unwrap() as int,
            u,
            tentative(vs, current).unwrap() as int,
            current,
        )
    &&& forall|u: int, v: int|
        0 <= u < n && 0 <= v < n && settled(vs, u, current) && (u != current || v < progress) && (
        #[trigger] m.cell(u, v)) is Some && v != start ==> keeps_best_parent(m, edges, vs, u, v)
    &&& current >= 0 ==> forall|r: Seq<MatrixIndex>, t: int|
        0 <= t < n && !vs[t].visited && #[trigger] is_route(m, r, start, t) ==> tentative(
            vs,
            current,
        ).unwrap() <= route_length(m, edges, r)
}

/// The search keeps to the order wherever the order can be spoken of: in a
/// graph whose edges all have a length above zero.
pub open spec fn ordered(
    m: ConnectionMatrix,
    edges: Seq<Edge>,
    vs: Seq<Vertex>,
    start: int,
    current: int,
    progress: int,
) -> bool {
    positive_links(m, edges) ==> order_inv(m, edges, vs, start, current, progress)
}

/// A search starts in order.
pub proof fn lemma_order_begins(m: ConnectionMatrix, edges: Seq<Edge>, vs: Seq<Vertex>, start: int)
    requires
        0 <= start < vs.len(),
        tentative(vs, start) == Some(0u128),
        forall|v: int|
            0 <= v < vs.len() ==> !(#[trigger] vs[v]).visited && (v != start ==> tentative(vs, v)
                is None),
    ensures
        ordered(m, edges, vs, start, start, 0),
{
    reveal(order_inv);
    let n = vs.len() as int;
    assert forall|u: int| 0 <= u < n && #[trigger] settled(vs, u, start) implies u == start by {
        assert(!vs[u].visited);
    }
    assert forall|u: int, v: int|
        #![trigger settled(vs, u, start), settled(vs, v, start)]
        0 <= u < n && 0 <= v < n && settled(vs, u, start) && !settled(vs, v, start) && tentative(
            vs,
            v,
        ) is Some implies false by {
        assert(!vs[v].visited);
    }
}

/// Looking at a neighbour that needs no update keeps the order.
pub proof fn lemma_order_neighbour_kept(
    m: ConnectionMatrix,
    edges: Seq<Edge>,
    vs: Seq<Vertex>,
    start: int,
    routes: Seq<Seq<MatrixIndex>>,
    current: int,
    j: int,
)
    requires
        search_inv(m, edges, vs, start, routes, current, j),
        ordered(m, edges, vs, start, current, j),
        m.height() == vs.len(),
        matrix_width(m) == vs.len(),
        0 <= current < vs.len(),
        0 <= j < vs.len(),
        m.cell(current, j) is Some ==> vs[j].visited || (tentative(vs, j) is Some && tentative(
            vs,
            j,
        ).unwrap() <= tentative(vs, current).unwrap() + link_length(m, edges, current, j)),
    ensures
        ordered(m, edges, vs, start, current, j + 1),
{
    if positive_links(m, edges) {
        reveal(order_inv);
        reveal(search_inv);
        let n = vs.len() as int;
        assert forall|u: int, v: int|
            0 <= u < n && 0 <= v < n && settled(vs, u, current) && (u != current || v < j + 1) && (
            #[trigger] m.cell(u, v)) is Some && v != start implies keeps_best_parent(
            m,
            edges,
            vs,
            u,
            v,
        ) by {
            if u == current && v == j {
                assert(m.in_bounds(current, j));
                assert(settled(vs, current, current));
                if vs[j].visited {
                    assert(settled(vs, j, current));
                    assert(tentative(vs, j) is Some);
                    assert(recorded(m, edges, vs, start, routes, current, j));
                } else {
                    assert(recorded(m, edges, vs, start, routes, current, j));
                    let p = vs[j].parent_vertex_index.unwrap() as int;
                    assert(settled(vs, p, current));
                }
            } else {
                assert(u != current || v < j);
            }
        }
    }
}

/// Giving a neighbour a shorter tentative distance, with the vertex being
/// visited as its parent, keeps the order.
pub proof fn lemma_order_neighbour_improved(
    m: ConnectionMatrix,
    edges: Seq<Edge>,
    vs: Seq<Vertex>,
    ws: Seq<Vertex>,
    start: int,
    routes: Seq<Seq<MatrixIndex>>,
    at: usize,
    neighbour: usize,
)
    requires
        ({
            let current = at as int;
            let j = neighbour as int;
            &&& search_inv(m, edges, vs, start, routes, current, j)
            &&& ordered(m, edges, vs, start, current, j)
            &&& m.height() == vs.len()
            &&& 0 <= current < vs.len()
            &&& 0 <= j < vs.len()
            &&& m.in_bounds(current, j)
            &&& m.cell(current, j) is Some
            &&& m.cell(current, current) is None
            &&& !vs[j].visited
            &&& ws.len() == vs.len()
            &&& forall|v: int| 0 <= v < vs.len() && v != j ==> #[trigger] ws[v] == vs[v]
            &&& ws[j].visited == vs[j].visited
            &&& ws[j].parent_vertex_index == Some(at)
            &&& tentative(vs, current) is Some
            &&& ws[j].tentative_distance matches Some(d) && d == tentative(vs, current).unwrap()
                + link_length(m, edges, current, j)
            &&& tentative(vs, j) matches Some(d) ==> tentative(vs, current).unwrap() + link_length(
                m,
                edges,
                current,
                j,
            ) < d
        }),
    ensures
        ordered(m, edges, ws, start, at as int, neighbour + 1),
{
    if positive_links(m, edges) {
        reveal(order_inv);
        reveal(search_inv);
        let current = at as int;
        let j = neighbour as int;
        let n = vs.len() as int;
        assert(j != current);
        assert(!settled(vs, j, current));
        assert(settled(vs, current, current));
        assert(link_length(m, edges, current, j) > 0);
        assert forall|v: int| 0 <= v < n implies settled(ws, v, current) == settled(
            vs,
            v,
            current,
        ) by {}
        assert forall|u: int| 0 <= u < n && #[trigger] settled(ws, u, current) implies ws[u]
            == vs[u] && comes_first(
            tentative(ws, u).unwrap() as int,
            u,
            tentative(ws, current).unwrap() as int,
            current,
        ) by {
            assert(settled(vs, u, current));
            assert(u != j);
        }
        assert forall|u: int, v: int|
            #![trigger settled(ws, u, current), settled(ws, v, current)]
            0 <= u < n && 0 <= v < n && settled(ws, u, current) && !settled(ws, v, current)
                && tentative(ws, v) is Some implies tentative(ws, u).unwrap() < tentative(
            ws,
            v,
        ).unwrap() || (tentative(ws, u).unwrap() == tentative(ws, v).unwrap() && u < v) by {
            assert(settled(vs, u, current) && !settled(vs, v, current));
            assert(ws[u] == vs[u]);
            if v == j {
                assert(comes_first(
                    tentative(vs, u).unwrap() as int,
                    u,
                    tentative(vs, current).unwrap() as int,
                    current,
                ));
            } else {
                assert(ws[v] == vs[v]);
            }
        }
        assert forall|u: int, v: int|
            0 <= u < n && 0 <= v < n && settled(ws, u, current) && (u != current || v < j + 1) && (
            #[trigger] m.cell(u, v)) is Some && v != start implies keeps_best_parent(
            m,
            edges,
            ws,
            u,
            v,
        ) by {
            assert(settled(vs, u, current));
            assert(ws[u] == vs[u]);
            if v == j {
                assert(ws[current] == vs[current]);
                if u != current {
                    // the way through `u` was no shorter than the old distance
                    assert(tentative(vs, j) is Some);
                }
            } else {
                assert(ws[v] == vs[v]);
                assert(u != current || v < j);
                assert(keeps_best_parent(m, edges, vs, u, v));
                let p = vs[v].parent_vertex_index.unwrap() as int;
                assert(tentative(vs, v) is Some);
                assert(recorded(m, edges, vs, start, routes, current, v));
                assert(settled(vs, p, current));
                assert(p != j);
                assert(ws[p] == vs[p]);
            }
        }
        assert forall|r: Seq<MatrixIndex>, t: int|
            0 <= t < n && !ws[t].visited && #[trigger] is_route(m, r, start, t) implies tentative(
            ws,
            current,
        ).unwrap() <= route_length(m, edges, r) by {
            assert(ws[current] == vs[current]);
            assert(!vs[t].visited);
        }
    }
}

/// Marking the vertex being visited as visited keeps the order.
pub proof fn lemma_order_visit_done(
    m: ConnectionMatrix,
    edges: Seq<Edge>,
    vs: Seq<Vertex>,
    ws: Seq<Vertex>,
    start: int,
    current: int,
)
    requires
        ordered(m, edges, vs, start, current, vs.len() as int),
        0 <= current < vs.len(),
        ws.len() == vs.len(),
        forall|v: int| 0 <= v < vs.len() && v != current ==> #[trigger] ws[v] == vs[v],
        ws[current].visited,
        ws[current].tentative_distance == vs[current].tentative_distance,
        ws[current].parent_vertex_index == vs[current].parent_vertex_index,
    ensures
        ordered(m, edges, ws, start, -1, 0),
{
    if positive_links(m, edges) {
        reveal(order_inv);
        let n = vs.len() as int;
        assert forall|v: int| 0 <= v < n implies settled(ws, v, -1) == settled(vs, v, current)
            && tentative(ws, v) == tentative(vs, v) && ws[v].parent_vertex_index
            == vs[v].parent_vertex_index by {
            if v != current {
                assert(ws[v] == vs[v]);
            }
        }
        assert forall|u: int, v: int|
            #![trigger settled(ws, u, -1), settled(ws, v, -1)]
            0 <= u < n && 0 <= v < n && settled(ws, u, -1) && !settled(ws, v, -1) && tentative(
                ws,
                v,
            ) is Some implies tentative(ws, u).unwrap() < tentative(ws, v).unwrap() || (tentative(
            ws,
            u,
        ).unwrap() == tentative(ws, v).unwrap() && u < v) by {
            assert(settled(vs, u, current) && !settled(vs, v, current));
            assert(tentative(ws, v) == tentative(vs, v));
            assert(tentative(ws, u) == tentative(vs, u));
        }
        assert forall|u: int, v: int|
            0 <= u < n && 0 <= v < n && settled(ws, u, -1) && (u != -1 || v < 0) && (
            #[trigger] m.cell(u, v)) is Some && v != start implies keeps_best_parent(
            m,
            edges,
            ws,
            u,
            v,
        ) by {
            assert(settled(vs, u, current));
            assert(keeps_best_parent(m, edges, vs, u, v));
            assert(tentative(ws, v) == tentative(vs, v));
            assert(tentative(ws, u) == tentative(vs, u));
            let p = vs[v].parent_vertex_index.unwrap() as int;
            assert(ws[v].parent_vertex_index == vs[v].parent_vertex_index);
            assert(tentative(ws, p) == tentative(vs, p));
        }
    }
}

/// Visiting the nearest unvisited vertex next keeps the order.
pub proof fn lemma_order_visit_nearest(
    m: ConnectionMatrix,
    edges: Seq<Edge>,
    vs: Seq<Vertex>,
    start: int,
    routes: Seq<Seq<MatrixIndex>>,
    nearest: usize,
)
    requires
        search_inv(m, edges, vs, start, routes, -1, 0),
        ordered(m, edges, vs, start, -1, 0),
        is_nearest_unvisited(vs, Some(nearest)),
        vs.len() == m.height(),
    ensures
        ordered(m, edges, vs, start, nearest as int, 0),
{
    if positive_links(m, edges) {
        reveal(order_inv);
        let c = nearest as int;
        let n = vs.len() as int;
        assert(!settled(vs, c, -1));
        assert forall|u: int, v: int|
            #![trigger settled(vs, u, c), settled(vs, v, c)]
            0 <= u < n && 0 <= v < n && settled(vs, u, c) && !settled(vs, v, c) && tentative(vs, v)
                is Some implies tentative(vs, u).unwrap() < tentative(vs, v).unwrap() || (
            tentative(vs, u).unwrap() == tentative(vs, v).unwrap() && u < v) by {
            if u != c {
                assert(settled(vs, u, -1) && !settled(vs, v, -1));
            } else {
                assert(!vs[v].visited);
            }
        }
        assert forall|u: int| 0 <= u < n && #[trigger] settled(vs, u, c) implies comes_first(
            tentative(vs, u).unwrap() as int,
            u,
            tentative(vs, c).unwrap() as int,
            c,
        ) by {
            if u != c {
                assert(settled(vs, u, -1) && !settled(vs, c, -1));
            }
        }
        assert forall|u: int, v: int|
            0 <= u < n && 0 <= v < n && settled(vs, u, c) && (u != c || v < 0) && (
            #[trigger] m.cell(u, v)) is Some && v != start implies keeps_best_parent(
            m,
            edges,
            vs,
            u,
            v,
        ) by {
            assert(settled(vs, u, -1));
        }
        assert forall|r: Seq<MatrixIndex>, t: int|
            0 <= t < n && !vs[t].visited && #[trigger] is_route(m, r, start, t) implies tentative(
            vs,
            c,
        ).unwrap() <= route_length(m, edges, r) by {
            lemma_frontier(m, edges, vs, start, routes, nearest, r, t);
        }
    }
}

/// The tentative distance of a settled vertex is its distance from the start.
pub proof fn lemma_settled_distance(
    m: ConnectionMatrix,
    edges: Seq<Edge>,
    vs: Seq<Vertex>,
    start: int,
    routes: Seq<Seq<MatrixIndex>>,
    current: int,
    progress: int,
    v: int,
)
    requires
        search_inv(m, edges, vs, start, routes, current, progress),
        0 <= v < vs.len(),
        settled(vs, v, current),
    ensures
        tentative(vs, v) is Some,
        is_reachable(m, start, v),
        distance(m, edges, start, v) == tentative(vs, v).unwrap(),
{
    reveal(search_inv);
    assert(tentative(vs, v) is Some);
    assert(recorded(m, edges, vs, start, routes, current, v));
    assert(is_route(m, routes[v], start, v));
    assert(is_distance(m, edges, start, v, tentative(vs, v).unwrap() as nat));
    lemma_distance_unique(m, edges, start, v, tentative(vs, v).unwrap() as nat);
}

/// In a graph whose edges all have a length above zero, the route on record
/// for a settled vertex takes least parents.
pub proof fn lemma_route_takes_least_parents(
    m: ConnectionMatrix,
    edges: Seq<Edge>,
    vs: Seq<Vertex>,
    start: int,
    routes: Seq<Seq<MatrixIndex>>,
    current: int,
    v: usize,
)
    requires
        search_inv(m, edges, vs, start, routes, current, 0),
        order_inv(m, edges, vs, start, current, 0),
        positive_links(m, edges),
        m.height() == vs.len(),
        matrix_width(m) == vs.len(),
        0 <= current < vs.len(),
        v < vs.len(),
        settled(vs, v as int, current),
    ensures
        takes_least_parents(m, edges, start, routes[v as int]),
    decreases routes[v as int].len(),
{
    let n = vs.len() as int;
    lemma_settled_distance(m, edges, vs, start, routes, current, 0, v as int);
    lemma_settled_distance(m, edges, vs, start, routes, current, 0, current);
    assert(recorded(m, edges, vs, start, routes, current, v as int)) by {
        reveal(search_inv);
    }
    if v != start {
        let p = vs[v as int].parent_vertex_index.unwrap();
        let whole = routes[v as int];
        let shorter = routes[p as int];
        let dv = tentative(vs, v as int).unwrap() as int;
        let dp = tentative(vs, p as int).unwrap() as int;
        assert(settled(vs, p as int, current));
        lemma_settled_distance(m, edges, vs, start, routes, current, 0, p as int);
        lemma_route_takes_least_parents(m, edges, vs, start, routes, current, p);
        assert(recorded(m, edges, vs, start, routes, current, p as int)) by {
            reveal(search_inv);
        }
        assert(whole.drop_last() =~= shorter);
        assert(whole.last() == MatrixIndex { ith: p, jth: v });
        assert(is_step(m, whole[whole.len() - 1]));
        assert(dp + link_length(m, edges, p as int, v as int) == dv);
        assert(tentative(vs, v as int).unwrap() <= tentative(vs, current).unwrap()) by {
            reveal(search_inv);
        }
        assert(is_parent(m, edges, start, p as int, v as int));
        assert forall|u: int| #[trigger] is_parent(m, edges, start, u, v as int) implies comes_first(
            distance(m, edges, start, p as int) as int,
            p as int,
            distance(m, edges, start, u) as int,
            u,
        ) by {
            assert(m.in_bounds(u, v as int));
            assert(link_length(m, edges, u, v as int) > 0);
            lemma_distance_exists(m, edges, start, u);
            let du = distance(m, edges, start, u);
            if settled(vs, u, current) {
                lemma_settled_distance(m, edges, vs, start, routes, current, 0, u);
                if u != current {
                    assert(keeps_best_parent(m, edges, vs, u, v as int)) by {
                        reveal(order_inv);
                    }
                }
            } else {
                let r = choose|r: Seq<MatrixIndex>|
                    #[trigger] is_route(m, r, start, u) && route_length(m, edges, r) == du;
                assert(!vs[u].visited);
                assert(tentative(vs, current).unwrap() <= route_length(m, edges, r)) by {
                    reveal(order_inv);
                }
            }
        }
        assert forall|k: int| 0 <= k < whole.len() implies is_least_parent(
            m,
            edges,
            start,
            (#[trigger] whole[k]).ith as int,
            whole[k].jth as int,
        ) by {
            if k < shorter.len() {
                assert(whole[k] == shorter[k]);
            }
        }
    }
}

} // verus!
