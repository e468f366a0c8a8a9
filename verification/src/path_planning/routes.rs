//! Routes through the connection matrix: what it means for a sequence of
//! steps to lead from one vertex to another, and how long such a route is.

use vstd::prelude::*;

use crate::graph::matrix::ConnectionMatrix;
use crate::graph::{Edge, Graph, MatrixIndex};

verus! {

/// The step goes through a filled cell of the matrix.
pub open spec fn is_step(m: ConnectionMatrix, step: MatrixIndex) -> bool {
    &&& m.in_bounds(step.ith as int, step.jth as int)
    &&& m.cell(step.ith as int, step.jth as int) is Some
}

/// The length of the edge that joins vertex `i` and vertex `j`.
pub open spec fn link_length(m: ConnectionMatrix, edges: Seq<Edge>, i: int, j: int) -> nat {
    edges[m.cell(i, j).unwrap() as int].distance as nat
}

/// `steps` is a continuous walk from vertex `from` to vertex `to`: every step
/// goes through a filled cell, each step starts where the one before it
/// ended, the first starts at `from` and the last ends at `to`. The empty
/// walk leads from a vertex to itself.
pub open spec fn is_route(m: ConnectionMatrix, steps: Seq<MatrixIndex>, from: int, to: int) -> bool {
    &&& 0 <= from < m.height()
    &&& 0 <= to < m.height()
    &&& forall|k: int| 0 <= k < steps.len() ==> is_step(m, #[trigger] steps[k])
    &&& forall|k: int| 0 < k < steps.len() ==> steps[k - 1].jth == (#[trigger] steps[k]).ith
    &&& if steps.len() == 0 {
        from == to
    } else {
        steps.first().ith == from && steps.last().jth == to
    }
}

/// The length of a walk: the sum of the lengths of the edges it goes along.
pub open spec fn route_length(m: ConnectionMatrix, edges: Seq<Edge>, steps: Seq<MatrixIndex>) -> nat
    decreases steps.len(),
{
    if steps.len() == 0 {
        0
    } else {
        route_length(m, edges, steps.drop_last()) + link_length(
            m,
            edges,
            steps.last().ith as int,
            steps.last().jth as int,
        )
    }
}

/// A route extended by one more step is a route to where that step ends.
pub proof fn lemma_route_push(
    m: ConnectionMatrix,
    edges: Seq<Edge>,
    steps: Seq<MatrixIndex>,
    from: int,
    step: MatrixIndex,
)
    requires
        is_route(m, steps, from, step.ith as int),
        is_step(m, step),
        step.jth < m.height(),
    ensures
        is_route(m, steps.push(step), from, step.jth as int),
        route_length(m, edges, steps.push(step)) == route_length(m, edges, steps) + link_length(
            m,
            edges,
            step.ith as int,
            step.jth as int,
        ),
{
    let longer = steps.push(step);
    assert(longer.drop_last() =~= steps);
    assert forall|k: int| 0 < k < longer.len() implies longer[k - 1].jth == (
    #[trigger] longer[k]).ith by {
        if k < steps.len() {
            assert(longer[k] == steps[k]);
        }
    }
}

/// A route without its last step is a route to where that step starts.
pub proof fn lemma_route_drop_last(m: ConnectionMatrix, steps: Seq<MatrixIndex>, from: int, to: int)
    requires
        is_route(m, steps, from, to),
        steps.len() > 0,
    ensures
        is_route(m, steps.drop_last(), from, steps.last().ith as int),
        is_step(m, steps.last()),
        steps.last().jth == to,
{
    let shorter = steps.drop_last();
    assert(is_step(m, steps[steps.len() - 1]));
    assert forall|k: int| 0 <= k < shorter.len() implies is_step(m, #[trigger] shorter[k]) by {
        assert(shorter[k] == steps[k]);
    }
    assert forall|k: int| 0 < k < shorter.len() implies shorter[k - 1].jth == (
    #[trigger] shorter[k]).ith by {
        assert(shorter[k] == steps[k]);
    }
    if shorter.len() > 0 {
        assert(steps[steps.len() - 2].jth == steps[steps.len() - 1].ith);
    }
}

/// No walk from `start` to `v` is shorter than `d`.
pub open spec fn is_lower_bound(
    m: ConnectionMatrix,
    edges: Seq<Edge>,
    start: int,
    v: int,
    d: nat,
) -> bool {
    forall|r: Seq<MatrixIndex>| #[trigger] is_route(m, r, start, v) ==> d <= route_length(m, edges, r)
}

/// Some walk leads from `from` to `to`.
pub open spec fn is_reachable(m: ConnectionMatrix, from: int, to: int) -> bool {
    exists|r: Seq<MatrixIndex>| #[trigger] is_route(m, r, from, to)
}

/// `d` is the distance from `from` to `to`: the length of a shortest walk.
pub open spec fn is_distance(
    m: ConnectionMatrix,
    edges: Seq<Edge>,
    from: int,
    to: int,
    d: nat,
) -> bool {
    &&& exists|r: Seq<MatrixIndex>|
        #[trigger] is_route(m, r, from, to) && route_length(m, edges, r) == d
    &&& is_lower_bound(m, edges, from, to, d)
}

/// The distance from `from` to `to`, where `to` can be reached.
pub open spec fn distance(m: ConnectionMatrix, edges: Seq<Edge>, from: int, to: int) -> nat {
    choose|d: nat| is_distance(m, edges, from, to, d)
}

/// Two vertices have one distance only, so any `d` that is one is
/// `distance(m, edges, from, to)`.
pub proof fn lemma_distance_unique(
    m: ConnectionMatrix,
    edges: Seq<Edge>,
    from: int,
    to: int,
    d: nat,
)
    requires
        is_distance(m, edges, from, to, d),
    ensures
        distance(m, edges, from, to) == d,
{
    let other = distance(m, edges, from, to);
    assert(is_distance(m, edges, from, to, other));
    let r = choose|r: Seq<MatrixIndex>|
        #[trigger] is_route(m, r, from, to) && route_length(m, edges, r) == d;
    let s = choose|r: Seq<MatrixIndex>|
        #[trigger] is_route(m, r, from, to) && route_length(m, edges, r) == other;
    assert(other <= route_length(m, edges, r));
    assert(d <= route_length(m, edges, s));
}

/// A vertex that can be reached has a distance.
pub proof fn lemma_distance_exists(m: ConnectionMatrix, edges: Seq<Edge>, from: int, to: int)
    requires
        is_reachable(m, from, to),
    ensures
        is_distance(m, edges, from, to, distance(m, edges, from, to)),
{
    let r = choose|r: Seq<MatrixIndex>| is_route(m, r, from, to);
    lemma_some_route_is_shortest(m, edges, from, to, r, route_length(m, edges, r));
}

/// Among the walks from `from` to `to` that are no longer than `bound`, one
/// is shortest.
proof fn lemma_some_route_is_shortest(
    m: ConnectionMatrix,
    edges: Seq<Edge>,
    from: int,
    to: int,
    r: Seq<MatrixIndex>,
    bound: nat,
)
    requires
        is_route(m, r, from, to),
        route_length(m, edges, r) <= bound,
    ensures
        exists|d: nat| is_distance(m, edges, from, to, d),
    decreases bound,
{
    let d = route_length(m, edges, r);
    if is_lower_bound(m, edges, from, to, d) {
        assert(is_distance(m, edges, from, to, d));
    } else {
        let shorter = choose|s: Seq<MatrixIndex>|
            #[trigger] is_route(m, s, from, to) && !(d <= route_length(m, edges, s));
        lemma_some_route_is_shortest(
            m,
            edges,
            from,
            to,
            shorter,
            route_length(m, edges, shorter),
        );
    }
}

impl Graph {
    /// `steps` is a continuous walk through the graph from `from` to `to`.
    pub open spec fn is_route(&self, steps: Seq<MatrixIndex>, from: usize, to: usize) -> bool {
        is_route(self.connection_matrix, steps, from as int, to as int)
    }

    /// The sum of the lengths of the edges that `steps` goes along.
    pub open spec fn route_length(&self, steps: Seq<MatrixIndex>) -> nat {
        route_length(self.connection_matrix, self.edges@, steps)
    }

    /// Some walk through the graph leads from `from` to `to`.
    pub open spec fn connected(&self, from: usize, to: usize) -> bool {
        is_reachable(self.connection_matrix, from as int, to as int)
    }

    /// No walk from `from` to `to` is shorter than `length`.
    pub open spec fn no_route_shorter(&self, from: usize, to: usize, length: nat) -> bool {
        is_lower_bound(self.connection_matrix, self.edges@, from as int, to as int, length)
    }
}

} // verus!
