//! The reasoning behind the shortest-path search: what holds of the vertices'
//! working storage while the search runs, and why that makes the distance of
//! a settled vertex the length of a shortest route to it.

use vstd::prelude::*;

use crate::graph::matrix::ConnectionMatrix;
use crate::graph::{Edge, MatrixIndex, Vertex};
use crate::path_planning::routes::{
    is_lower_bound, is_route, is_step, lemma_route_drop_last, lemma_route_push, link_length,
    route_length,
};

verus! {

/// The tentative distance of vertex `v`, `None` while it is not reached.
pub open spec fn tentative(vs: Seq<Vertex>, v: int) -> Option<u128> {
    vs[v].tentative_distance
}

/// Vertex `v` is settled: it was visited, or it is the vertex being visited.
pub open spec fn settled(vs: Seq<Vertex>, v: int, current: int) -> bool {
    vs[v].visited || v == current
}

/// How many of the first `k` vertices are visited.
pub open spec fn visited_below(vs: Seq<Vertex>, k: nat) -> nat
    decreases k,
{
    if k == 0 {
        0
    } else {
        visited_below(vs, (k - 1) as nat) + if vs[k - 1].visited {
            1nat
        } else {
            0nat
        }
    }
}

/// How many vertices are visited.
pub open spec fn visited_count(vs: Seq<Vertex>) -> nat {
    visited_below(vs, vs.len())
}

/// Two states of the working storage mark the same vertices as visited.
pub open spec fn same_visits(vs: Seq<Vertex>, ws: Seq<Vertex>) -> bool {
    &&& vs.len() == ws.len()
    &&& forall|v: int| 0 <= v < vs.len() ==> (#[trigger] vs[v]).visited == ws[v].visited
}

pub proof fn lemma_visited_below_bound(vs: Seq<Vertex>, k: nat)
    requires
        k <= vs.len(),
    ensures
        visited_below(vs, k) <= k,
        (exists|v: int| 0 <= v < k && !(#[trigger] vs[v]).visited) ==> visited_below(vs, k) < k,
    decreases k,
{
    if k > 0 {
        lemma_visited_below_bound(vs, (k - 1) as nat);
        if exists|v: int| 0 <= v < k && !(#[trigger] vs[v]).visited {
            let v = choose|v: int| 0 <= v < k && !(#[trigger] vs[v]).visited;
            if v < k - 1 {
                assert(0 <= v < k - 1 && !vs[v].visited);
            }
        }
    }
}

pub proof fn lemma_visited_below_same(vs: Seq<Vertex>, ws: Seq<Vertex>, k: nat)
    requires
        k <= vs.len(),
        same_visits(vs, ws),
    ensures
        visited_below(vs, k) == visited_below(ws, k),
    decreases k,
{
    if k > 0 {
        lemma_visited_below_same(vs, ws, (k - 1) as nat);
    }
}

/// Visiting one more vertex raises the count by one.
pub proof fn lemma_visited_below_mark(vs: Seq<Vertex>, ws: Seq<Vertex>, u: int, k: nat)
    requires
        k <= vs.len() == ws.len(),
        0 <= u < vs.len(),
        !vs[u].visited,
        ws[u].visited,
        forall|v: int| 0 <= v < vs.len() && v != u ==> (#[trigger] vs[v]).visited == ws[v].visited,
    ensures
        visited_below(ws, k) == visited_below(vs, k) + if u < k {
            1nat
        } else {
            0nat
        },
    decreases k,
{
    if k > 0 {
        lemma_visited_below_mark(vs, ws, u, (k - 1) as nat);
    }
}

/// The route on record for a reached vertex `v` leads from `start` to `v`, is
/// as long as the tentative distance says, and is the route of `v`'s parent
/// extended by the step from the parent to `v`.
pub open spec fn recorded(
    m: ConnectionMatrix,
    edges: Seq<Edge>,
    vs: Seq<Vertex>,
    start: int,
    routes: Seq<Seq<MatrixIndex>>,
    current: int,
    v: int,
) -> bool {
    &&& is_route(m, routes[v], start, v)
    &&& route_length(m, edges, routes[v]) == tentative(vs, v).unwrap()
    &&& if v == start {
        routes[v].len() == 0 && vs[v].parent_vertex_index is None
    } else {
        &&& vs[v].parent_vertex_index matches Some(p)
        &&& p < vs.len()
        &&& settled(vs, p as int, current)
        &&& tentative(vs, p as int) is Some
        &&& routes[v] == routes[p as int].push(MatrixIndex { ith: p, jth: v as usize })
    }
}

/// What holds of the working storage throughout a search from `start`, while
/// vertex `current` is being visited and its neighbours below `progress` have
/// been looked at (`current` is `-1` between two visits).
#[verifier::opaque]
pub open spec fn search_inv(
    m: ConnectionMatrix,
    edges: Seq<Edge>,
    vs: Seq<Vertex>,
    start: int,
    routes: Seq<Seq<MatrixIndex>>,
    current: int,
    progress: int,
) -> bool {
    let n = vs.len() as int;
    &&& routes.len() == n
    &&& 0 <= start < n
    &&& -1 <= current < n
    &&& tentative(vs, start) == Some(0u128)
    // every reached vertex has its route on record
    &&& forall|v: int|
        0 <= v < n && (#[trigger] tentative(vs, v)) is Some ==> recorded(
            m,
            edges,
            vs,
            start,
            routes,
            current,
            v,
        )
    // the distance of a settled vertex is final
    &&& forall|v: int|
        0 <= v < n && #[trigger] settled(vs, v, current) ==> tentative(vs, v) is Some
            && is_lower_bound(m, edges, start, v, tentative(vs, v).unwrap() as nat)
    // the edges out of settled vertices have been followed
    &&& forall|u: int, v: int|
        0 <= u < n && 0 <= v < n && settled(vs, u, current) && (u != current || v < progress) && (
        #[trigger] m.cell(u, v)) is Some ==> tentative(vs, v) is Some && tentative(vs, v).unwrap()
            <= tentative(vs, u).unwrap() + link_length(m, edges, u, v)
    // settled vertices are no farther than the others
    &&& forall|u: int, v: int|
        #![trigger settled(vs, u, current), settled(vs, v, current)]
        0 <= u < n && 0 <= v < n && settled(vs, u, current) && !settled(vs, v, current)
            && tentative(vs, v) is Some ==> tentative(vs, u).unwrap() <= tentative(vs, v).unwrap()
    // the vertex being visited is the farthest of the settled ones
    &&& current >= 0 ==> forall|v: int|
        0 <= v < n && #[trigger] settled(vs, v, current) ==> tentative(vs, v).unwrap()
            <= tentative(vs, current).unwrap()
}

/// `pick` is the unvisited reached vertex of least tentative distance, the
/// one of lowest index among equals; or `None`, and there is no such vertex.
pub open spec fn is_nearest_unvisited(vs: Seq<Vertex>, pick: Option<usize>) -> bool {
    match pick {
        None => forall|v: int|
            0 <= v < vs.len() ==> (#[trigger] vs[v]).visited || tentative(vs, v) is None,
        Some(u) => {
            &&& u < vs.len()
            &&& !vs[u as int].visited
            &&& tentative(vs, u as int) is Some
            &&& forall|v: int|
                0 <= v < vs.len() && !(#[trigger] vs[v]).visited && tentative(vs, v) is Some ==> {
                    ||| tentative(vs, u as int).unwrap() < tentative(vs, v).unwrap()
                    ||| tentative(vs, u as int).unwrap() == tentative(vs, v).unwrap() && u <= v
                }
        },
    }
}

/// Between two visits, any walk from `start` that ends at an unvisited vertex
/// is at least as long as the tentative distance of the nearest unvisited
/// vertex.
pub proof fn lemma_frontier(
    m: ConnectionMatrix,
    edges: Seq<Edge>,
    vs: Seq<Vertex>,
    start: int,
    routes: Seq<Seq<MatrixIndex>>,
    nearest: usize,
    r: Seq<MatrixIndex>,
    t: int,
)
    requires
        search_inv(m, edges, vs, start, routes, -1, 0),
        is_nearest_unvisited(vs, Some(nearest)),
        vs.len() == m.height(),
        is_route(m, r, start, t),
        !vs[t].visited,
    ensures
        tentative(vs, nearest as int).unwrap() <= route_length(m, edges, r),
    decreases r.len(),
{
    reveal(search_inv);
    if r.len() == 0 {
        assert(t == start);
        assert(!vs[start].visited && tentative(vs, start) is Some);
    } else {
        let last = r.last();
        let p = last.ith as int;
        lemma_route_drop_last(m, r, start, t);
        if vs[p].visited {
            assert(settled(vs, p, -1));
            assert(is_lower_bound(m, edges, start, p, tentative(vs, p).unwrap() as nat));
            assert(is_route(m, r.drop_last(), start, p));
            assert(m.cell(p, t) is Some);
            assert(tentative(vs, t) is Some);
            assert(!vs[t].visited && tentative(vs, t) is Some);
        } else {
            lemma_frontier(m, edges, vs, start, routes, nearest, r.drop_last(), p);
        }
    }
}

/// The nearest unvisited vertex can be visited next: its tentative distance
/// is the length of a shortest route to it.
pub proof fn lemma_visit_nearest(
    m: ConnectionMatrix,
    edges: Seq<Edge>,
    vs: Seq<Vertex>,
    start: int,
    routes: Seq<Seq<MatrixIndex>>,
    nearest: usize,
)
    requires
        search_inv(m, edges, vs, start, routes, -1, 0),
        is_nearest_unvisited(vs, Some(nearest)),
        vs.len() == m.height(),
    ensures
        search_inv(m, edges, vs, start, routes, nearest as int, 0),
{
    reveal(search_inv);
    let u = nearest as int;
    let n = vs.len() as int;
    assert forall|r: Seq<MatrixIndex>| #[trigger] is_route(m, r, start, u) implies tentative(
        vs,
        u,
    ).unwrap() <= route_length(m, edges, r) by {
        lemma_frontier(m, edges, vs, start, routes, nearest, r, u);
    }
    assert(is_lower_bound(m, edges, start, u, tentative(vs, u).unwrap() as nat));
    assert forall|v: int| 0 <= v < n && #[trigger] settled(vs, v, u) implies tentative(vs, v)
        is Some && is_lower_bound(m, edges, start, v, tentative(vs, v).unwrap() as nat)
        && tentative(vs, v).unwrap() <= tentative(vs, u).unwrap() by {
        if v != u {
            assert(settled(vs, v, -1));
            assert(!settled(vs, u, -1));
        }
    }
    assert forall|v: int|
        0 <= v < n && (#[trigger] tentative(vs, v)) is Some implies recorded(
        m,
        edges,
        vs,
        start,
        routes,
        u,
        v,
    ) by {
        assert(recorded(m, edges, vs, start, routes, -1, v));
    }
    assert forall|a: int, b: int|
        0 <= a < n && 0 <= b < n && settled(vs, a, u) && (a != u || b < 0) && (#[trigger] m.cell(
            a,
            b,
        )) is Some implies tentative(vs, b) is Some && tentative(vs, b).unwrap() <= tentative(
        vs,
        a,
    ).unwrap() + link_length(m, edges, a, b) by {
        assert(settled(vs, a, -1));
    }
    assert forall|a: int, b: int|
        #![trigger settled(vs, a, u), settled(vs, b, u)]
        0 <= a < n && 0 <= b < n && settled(vs, a, u) && !settled(vs, b, u) && tentative(vs, b)
            is Some implies tentative(vs, a).unwrap() <= tentative(vs, b).unwrap() by {
        if a != u {
            assert(settled(vs, a, -1) && !settled(vs, b, -1));
        }
    }
}

/// When no unvisited vertex is reached, the visited vertices are all that
/// can be reached: every walk from `start` ends at a visited vertex.
pub proof fn lemma_search_exhausted(
    m: ConnectionMatrix,
    edges: Seq<Edge>,
    vs: Seq<Vertex>,
    start: int,
    routes: Seq<Seq<MatrixIndex>>,
    r: Seq<MatrixIndex>,
    t: int,
)
    requires
        search_inv(m, edges, vs, start, routes, -1, 0),
        is_nearest_unvisited(vs, None),
        vs.len() == m.height(),
        is_route(m, r, start, t),
    ensures
        vs[t].visited,
    decreases r.len(),
{
    reveal(search_inv);
    if r.len() == 0 {
        assert(vs[start].visited || tentative(vs, start) is None);
    } else {
        let p = r.last().ith as int;
        lemma_route_drop_last(m, r, start, t);
        lemma_search_exhausted(m, edges, vs, start, routes, r.drop_last(), p);
        assert(settled(vs, p, -1));
        assert(m.cell(p, t) is Some);
        assert(vs[t].visited || tentative(vs, t) is None);
    }
}

/// Looking at a neighbour that needs no update moves the visit on by one
/// column.
pub proof fn lemma_neighbour_kept(
    m: ConnectionMatrix,
    edges: Seq<Edge>,
    vs: Seq<Vertex>,
    start: int,
    routes: Seq<Seq<MatrixIndex>>,
    current: int,
    j: int,
)
    requires
        search_inv(m, edges, vs, start, routes, current, j),
        0 <= current < vs.len(),
        0 <= j < vs.len(),
        m.cell(current, j) is Some ==> vs[j].visited || (tentative(vs, j) is Some && tentative(
            vs,
            j,
        ).unwrap() <= tentative(vs, current).unwrap() + link_length(m, edges, current, j)),
    ensures
        search_inv(m, edges, vs, start, routes, current, j + 1),
{
    reveal(search_inv);
    let n = vs.len() as int;
    assert forall|u: int, v: int|
        0 <= u < n && 0 <= v < n && settled(vs, u, current) && (u != current || v < j + 1) && (
        #[trigger] m.cell(u, v)) is Some implies tentative(vs, v) is Some && tentative(
        vs,
        v,
    ).unwrap() <= tentative(vs, u).unwrap() + link_length(m, edges, u, v) by {
        if u == current && v == j {
            if vs[j].visited {
                assert(settled(vs, j, current));
            }
        } else {
            assert(u != current || v < j);
        }
    }
}

/// Giving neighbour `j` of the vertex being visited a shorter tentative
/// distance, with that vertex as its parent and the matching route on record,
/// keeps the search sound and moves the visit on by one column.
pub proof fn lemma_neighbour_improved(
    m: ConnectionMatrix,
    edges: Seq<Edge>,
    vs: Seq<Vertex>,
    ws: Seq<Vertex>,
    start: int,
    routes: Seq<Seq<MatrixIndex>>,
    at: usize,
    neighbour: usize,
)
    requires
        ({
            let current = at as int;
            let j = neighbour as int;
            &&& search_inv(m, edges, vs, start, routes, current, j)
            &&& m.height() == vs.len()
            &&& 0 <= current < vs.len()
            &&& 0 <= j < vs.len()
            &&& m.in_bounds(current, j)
            &&& m.cell(current, j) is Some
            &&& m.cell(current, current) is None
            &&& !vs[j].visited
            &&& ws.len() == vs.len()
            &&& forall|v: int| 0 <= v < vs.len() && v != j ==> #[trigger] ws[v] == vs[v]
            &&& ws[j].visited == vs[j].visited
            &&& ws[j].parent_vertex_index == Some(at)
            &&& tentative(vs, current) is Some
            &&& ws[j].tentative_distance matches Some(d) && d == tentative(vs, current).unwrap()
                + link_length(m, edges, current, j)
            &&& tentative(vs, j) matches Some(d) ==> tentative(vs, current).unwrap() + link_length(
                m,
                edges,
                current,
                j,
            ) < d
        }),
    ensures
        search_inv(
            m,
            edges,
            ws,
            start,
            routes.update(
                neighbour as int,
                routes[at as int].push(MatrixIndex { ith: at, jth: neighbour }),
            ),
            at as int,
            neighbour + 1,
        ),
{
    reveal(search_inv);
    let current = at as int;
    let j = neighbour as int;
    let n = vs.len() as int;
    let step = MatrixIndex { ith: at, jth: neighbour };
    let later = routes.update(j, routes[current].push(step));
    assert(j != current);
    assert(settled(vs, current, current));
    assert(tentative(vs, current) is Some);
    assert(recorded(m, edges, vs, start, routes, current, current));
    assert(j != start);
    assert(!settled(vs, j, current));
    assert(is_step(m, step));
    lemma_route_push(m, edges, routes[current], start, step);
    assert(later[current] == routes[current]);

    assert forall|v: int| 0 <= v < n implies settled(ws, v, current) == settled(
        vs,
        v,
        current,
    ) by {}
    assert(tentative(ws, start) == Some(0u128));

    assert forall|v: int| 0 <= v < n && (#[trigger] tentative(ws, v)) is Some implies recorded(
        m,
        edges,
        ws,
        start,
        later,
        current,
        v,
    ) by {
        if v == j {
            assert(settled(ws, current, current));
        } else {
            assert(ws[v] == vs[v]);
            assert(tentative(vs, v) is Some);
            assert(recorded(m, edges, vs, start, routes, current, v));
            assert(later[v] == routes[v]);
            if v != start {
                let p = vs[v].parent_vertex_index.unwrap() as int;
                assert(settled(vs, p, current));
                assert(p != j);
                assert(ws[p] == vs[p]);
                assert(later[p] == routes[p]);
                assert(settled(ws, p, current));
            }
        }
    }

    assert forall|v: int| 0 <= v < n && #[trigger] settled(ws, v, current) implies tentative(
        ws,
        v,
    ) is Some && is_lower_bound(m, edges, start, v, tentative(ws, v).unwrap() as nat)
        && tentative(ws, v).unwrap() <= tentative(ws, current).unwrap() by {
        assert(settled(vs, v, current));
        assert(v != j);
        assert(ws[v] == vs[v]);
        assert(ws[current] == vs[current]);
    }

    assert forall|u: int, v: int|
        0 <= u < n && 0 <= v < n && settled(ws, u, current) && (u != current || v < j + 1) && (
        #[trigger] m.cell(u, v)) is Some implies tentative(ws, v) is Some && tentative(
        ws,
        v,
    ).unwrap() <= tentative(ws, u).unwrap() + link_length(m, edges, u, v) by {
        assert(settled(vs, u, current));
        assert(u != j);
        assert(ws[u] == vs[u]);
        if v == j {
            if u != current {
                assert(tentative(vs, j) is Some);
            }
        } else {
            assert(ws[v] == vs[v]);
        }
    }

    assert forall|u: int, v: int|
        #![trigger settled(ws, u, current), settled(ws, v, current)]
        0 <= u < n && 0 <= v < n && settled(ws, u, current) && !settled(ws, v, current)
            && tentative(ws, v) is Some implies tentative(ws, u).unwrap() <= tentative(
        ws,
        v,
    ).unwrap() by {
        assert(settled(vs, u, current));
        assert(!settled(vs, v, current));
        assert(u != j);
        assert(ws[u] == vs[u]);
        if v == j {
            assert(tentative(vs, u).unwrap() <= tentative(vs, current).unwrap());
        } else {
            assert(ws[v] == vs[v]);
        }
    }
}

/// Once every neighbour of the vertex being visited has been looked at, the
/// vertex can be marked as visited.
pub proof fn lemma_visit_done(
    m: ConnectionMatrix,
    edges: Seq<Edge>,
    vs: Seq<Vertex>,
    ws: Seq<Vertex>,
    start: int,
    routes: Seq<Seq<MatrixIndex>>,
    current: int,
)
    requires
        search_inv(m, edges, vs, start, routes, current, vs.len() as int),
        0 <= current < vs.len(),
        ws.len() == vs.len(),
        forall|v: int| 0 <= v < vs.len() && v != current ==> #[trigger] ws[v] == vs[v],
        ws[current].visited,
        ws[current].tentative_distance == vs[current].tentative_distance,
        ws[current].parent_vertex_index == vs[current].parent_vertex_index,
    ensures
        search_inv(m, edges, ws, start, routes, -1, 0),
{
    reveal(search_inv);
    let n = vs.len() as int;
    assert forall|v: int| 0 <= v < n implies settled(ws, v, -1) == settled(vs, v, current)
        && tentative(ws, v) == tentative(vs, v) by {
        if v != current {
            assert(ws[v] == vs[v]);
        }
    }
    assert forall|v: int| 0 <= v < n && (#[trigger] tentative(ws, v)) is Some implies recorded(
        m,
        edges,
        ws,
        start,
        routes,
        -1,
        v,
    ) by {
        assert(tentative(vs, v) is Some);
        assert(recorded(m, edges, vs, start, routes, current, v));
        if v != start {
            let p = vs[v].parent_vertex_index.unwrap() as int;
            assert(settled(ws, p, -1) == settled(vs, p, current));
            assert(tentative(ws, p) == tentative(vs, p));
        }
    }
    assert forall|v: int| 0 <= v < n && #[trigger] settled(ws, v, -1) implies tentative(ws, v)
        is Some && is_lower_bound(m, edges, start, v, tentative(ws, v).unwrap() as nat) by {
        assert(settled(vs, v, current));
    }
    assert forall|u: int, v: int|
        0 <= u < n && 0 <= v < n && settled(ws, u, -1) && (u != -1 || v < 0) && (#[trigger] m.cell(
            u,
            v,
        )) is Some implies tentative(ws, v) is Some && tentative(ws, v).unwrap() <= tentative(
        ws,
        u,
    ).unwrap() + link_length(m, edges, u, v) by {
        assert(settled(vs, u, current));
        assert(tentative(ws, v) == tentative(vs, v));
        assert(tentative(ws, u) == tentative(vs, u));
    }
    assert forall|u: int, v: int|
        #![trigger settled(ws, u, -1), settled(ws, v, -1)]
        0 <= u < n && 0 <= v < n && settled(ws, u, -1) && !settled(ws, v, -1) && tentative(ws, v)
            is Some implies tentative(ws, u).unwrap() <= tentative(ws, v).unwrap() by {
        assert(settled(vs, u, current) && !settled(vs, v, current));
        assert(tentative(ws, v) == tentative(vs, v));
        assert(tentative(ws, u) == tentative(vs, u));
    }
}

/// The vertex being visited is reached, and so is the start.
pub proof fn lemma_current_reached(
    m: ConnectionMatrix,
    edges: Seq<Edge>,
    vs: Seq<Vertex>,
    start: int,
    routes: Seq<Seq<MatrixIndex>>,
    current: int,
    progress: int,
)
    requires
        search_inv(m, edges, vs, start, routes, current, progress),
    ensures
        0 <= start < vs.len(),
        routes.len() == vs.len(),
        tentative(vs, start) == Some(0u128),
        0 <= current < vs.len() ==> tentative(vs, current) is Some,
{
    reveal(search_inv);
    if 0 <= current < vs.len() {
        assert(settled(vs, current, current));
    }
}

/// The route on record for a reached vertex: empty for the start, and for
/// any other vertex the route of its parent, which is reached too, extended
/// by the step from the parent.
pub proof fn lemma_route_on_record(
    m: ConnectionMatrix,
    edges: Seq<Edge>,
    vs: Seq<Vertex>,
    start: int,
    routes: Seq<Seq<MatrixIndex>>,
    current: int,
    progress: int,
    v: usize,
)
    requires
        search_inv(m, edges, vs, start, routes, current, progress),
        v < vs.len(),
        tentative(vs, v as int) is Some,
    ensures
        is_route(m, routes[v as int], start, v as int),
        route_length(m, edges, routes[v as int]) == tentative(vs, v as int).unwrap(),
        v == start ==> routes[v as int].len() == 0,
        v != start ==> {
            &&& vs[v as int].parent_vertex_index matches Some(p)
            &&& p < vs.len()
            &&& tentative(vs, p as int) is Some
            &&& routes[v as int] == routes[p as int].push(MatrixIndex { ith: p, jth: v })
        },
{
    reveal(search_inv);
    assert(recorded(m, edges, vs, start, routes, current, v as int));
}

/// The tentative distance of the vertex being visited is the length of a
/// shortest route to it.
pub proof fn lemma_current_is_final(
    m: ConnectionMatrix,
    edges: Seq<Edge>,
    vs: Seq<Vertex>,
    start: int,
    routes: Seq<Seq<MatrixIndex>>,
    current: int,
    progress: int,
)
    requires
        search_inv(m, edges, vs, start, routes, current, progress),
        0 <= current < vs.len(),
    ensures
        tentative(vs, current) is Some,
        is_lower_bound(m, edges, start, current, tentative(vs, current).unwrap() as nat),
{
    reveal(search_inv);
    assert(settled(vs, current, current));
}

/// Where a search starts: only the start is reached, at distance zero, and it
/// is the vertex being visited.
pub proof fn lemma_search_begins(
    m: ConnectionMatrix,
    edges: Seq<Edge>,
    vs: Seq<Vertex>,
    start: int,
)
    requires
        0 <= start < vs.len(),
        vs.len() == m.height(),
        tentative(vs, start) == Some(0u128),
        vs[start].parent_vertex_index is None,
        forall|v: int|
            0 <= v < vs.len() ==> !(#[trigger] vs[v]).visited && (v != start ==> tentative(vs, v)
                is None),
    ensures
        search_inv(
            m,
            edges,
            vs,
            start,
            Seq::new(vs.len(), |v: int| Seq::<MatrixIndex>::empty()),
            start,
            0,
        ),
{
    reveal(search_inv);
    let routes = Seq::new(vs.len(), |v: int| Seq::<MatrixIndex>::empty());
    let n = vs.len() as int;
    assert(routes[start].len() == 0);
    assert(route_length(m, edges, routes[start]) == 0);
    assert forall|v: int| 0 <= v < n && #[trigger] settled(vs, v, start) implies v == start by {
        assert(!vs[v].visited);
    }
    assert forall|v: int| 0 <= v < n && (#[trigger] tentative(vs, v)) is Some implies v
        == start by {
        assert(!vs[v].visited);
    }
}

/// While no vertex is visited, the count is zero.
pub proof fn lemma_visited_none(vs: Seq<Vertex>, k: nat)
    requires
        k <= vs.len(),
        forall|v: int| 0 <= v < vs.len() ==> !(#[trigger] vs[v]).visited,
    ensures
        visited_below(vs, k) == 0,
    decreases k,
{
    if k > 0 {
        lemma_visited_none(vs, (k - 1) as nat);
    }
}

/// What the working storage of vertex `v` says during and after a search
/// from `start`. A vertex that is not reached is not visited. A vertex that
/// is reached lies at the end of a route as long as its tentative distance,
/// and once it is visited no route to it is shorter. The start lies at
/// distance zero and has no parent; the parent of any other reached vertex
/// is reached as well and joined to it by an edge, and the tentative
/// distance of the vertex is that of its parent plus the length of that
/// edge.
pub open spec fn is_sound_at(
    m: ConnectionMatrix,
    edges: Seq<Edge>,
    vs: Seq<Vertex>,
    start: int,
    v: int,
) -> bool {
    match vs[v].tentative_distance {
        None => !vs[v].visited,
        Some(d) => {
            &&& exists|r: Seq<MatrixIndex>|
                #[trigger] is_route(m, r, start, v) && route_length(m, edges, r) == d
            &&& vs[v].visited ==> is_lower_bound(m, edges, start, v, d as nat)
            &&& if v == start {
                d == 0 && vs[v].parent_vertex_index is None
            } else {
                &&& vs[v].parent_vertex_index matches Some(p)
                &&& p < vs.len()
                &&& m.cell(p as int, v) is Some
                &&& vs[p as int].tentative_distance matches Some(dp)
                &&& d == dp + link_length(m, edges, p as int, v)
            }
        },
    }
}

/// The search keeps the working storage of every vertex sound.
pub proof fn lemma_search_is_sound(
    m: ConnectionMatrix,
    edges: Seq<Edge>,
    vs: Seq<Vertex>,
    start: int,
    routes: Seq<Seq<MatrixIndex>>,
    current: int,
    progress: int,
    v: int,
)
    requires
        search_inv(m, edges, vs, start, routes, current, progress),
        0 <= v < vs.len(),
    ensures
        is_sound_at(m, edges, vs, start, v),
{
    reveal(search_inv);
    if vs[v].tentative_distance is Some {
        assert(tentative(vs, v) is Some);
        assert(recorded(m, edges, vs, start, routes, current, v));
        assert(is_route(m, routes[v], start, v));
        if vs[v].visited {
            assert(settled(vs, v, current));
        }
        if v != start {
            let p = vs[v].parent_vertex_index.unwrap() as int;
            assert(recorded(m, edges, vs, start, routes, current, p));
            let step = MatrixIndex { ith: p as usize, jth: v as usize };
            assert(routes[v].drop_last() =~= routes[p]);
            assert(routes[v].last() == step);
            assert(is_step(m, routes[v][routes[v].len() - 1]));
        }
    } else {
        if vs[v].visited {
            assert(settled(vs, v, current));
        }
    }
}

/// Each step of `steps` leads from the parent of a vertex to that vertex.
pub open spec fn follows_parents(vs: Seq<Vertex>, steps: Seq<MatrixIndex>) -> bool {
    forall|k: int|
        0 <= k < steps.len() ==> (#[trigger] steps[k]).jth < vs.len() && vs[steps[k].jth
            as int].parent_vertex_index == Some(steps[k].ith)
}

/// The route on record for a reached vertex follows the parent links.
pub proof fn lemma_route_follows_parents(
    m: ConnectionMatrix,
    edges: Seq<Edge>,
    vs: Seq<Vertex>,
    start: int,
    routes: Seq<Seq<MatrixIndex>>,
    current: int,
    progress: int,
    v: usize,
)
    requires
        search_inv(m, edges, vs, start, routes, current, progress),
        v < vs.len(),
        tentative(vs, v as int) is Some,
    ensures
        follows_parents(vs, routes[v as int]),
    decreases routes[v as int].len(),
{
    lemma_route_on_record(m, edges, vs, start, routes, current, progress, v);
    if v != start {
        let p = vs[v as int].parent_vertex_index.unwrap();
        lemma_route_follows_parents(m, edges, vs, start, routes, current, progress, p);
        let shorter = routes[p as int];
        let whole = routes[v as int];
        assert forall|k: int| 0 <= k < whole.len() implies (#[trigger] whole[k]).jth < vs.len()
            && vs[whole[k].jth as int].parent_vertex_index == Some(whole[k].ith) by {
            if k < shorter.len() {
                assert(whole[k] == shorter[k]);
            }
        }
    }
}

} // verus!
