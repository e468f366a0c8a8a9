//! Queries on a graph: the shortest route between two vertices, and the edge
//! on which a given position lies.

pub mod locate;
pub mod order;
pub mod routes;
pub mod search;

use vstd::prelude::*;

use crate::error::Error;
use crate::graph::{joins, Edge, Edges, Graph, MatrixIndex, Vertex, Vertices};
use crate::path_planning::order::{
    lemma_order_begins, lemma_order_neighbour_improved, lemma_order_neighbour_kept,
    lemma_order_visit_done, lemma_order_visit_nearest, lemma_route_takes_least_parents,
    ordered, positive_links,
};
use crate::path_planning::routes::{is_route, is_step, link_length};
use crate::path_planning::search::{
    follows_parents, is_nearest_unvisited, is_sound_at, lemma_current_is_final,
    lemma_current_reached, lemma_neighbour_improved, lemma_neighbour_kept,
    lemma_route_follows_parents, lemma_route_on_record, lemma_search_begins,
    lemma_search_exhausted, lemma_search_is_sound, lemma_visit_done, lemma_visit_nearest,
    lemma_visited_below_bound, lemma_visited_below_mark, lemma_visited_below_same,
    lemma_visited_none, same_visits, search_inv, tentative, visited_count,
};

verus! {

/// An ordered sequence of steps through a graph, each starting at the vertex
/// where the one before it ended.
#[derive(Debug, PartialEq)]
pub struct Path {
    pub indices: Vec<MatrixIndex>,
}

impl Graph {
    /// Puts the working storage of every vertex back to the state in which a
    /// search starts.
    fn reset_search(&mut self)
        ensures
            final(self).edges == old(self).edges,
            final(self).connection_matrix == old(self).connection_matrix,
            final(self).vertices@.len() == old(self).vertices@.len(),
            forall|v: int|
                0 <= v < old(self).vertices@.len() ==> {
                    &&& (#[trigger] final(self).vertices@[v]).is_fresh()
                    &&& final(self).vertices@[v].name == old(self).vertices@[v].name
                    &&& final(self).vertices@[v].point == old(self).vertices@[v].point
                },
    {
        let mut i: usize = 0;
        while i < self.vertices.len()
            invariant
                self.edges == old(self).edges,
                self.connection_matrix == old(self).connection_matrix,
                self.vertices@.len() == old(self).vertices@.len(),
                i <= self.vertices@.len(),
                forall|v: int|
                    0 <= v < self.vertices@.len() ==> {
                        &&& (#[trigger] self.vertices@[v]).name == old(self).vertices@[v].name
                        &&& self.vertices@[v].point == old(self).vertices@[v].point
                    },
                forall|v: int| 0 <= v < i ==> (#[trigger] self.vertices@[v]).is_fresh(),
            decreases self.vertices@.len() - i,
        {
            self.vertices[i].tentative_distance = None;
            self.vertices[i].visited = false;
            self.vertices[i].parent_vertex_index = None;
            i = i + 1;
        }
    }

    /// The unvisited reached vertex of least tentative distance, the one of
    /// lowest index among equals.
    fn nearest_unvisited(&self) -> (pick: Option<usize>)
        ensures
            is_nearest_unvisited(self.vertices@, pick),
    {
        let mut pick: Option<usize> = None;
        let mut least: u128 = 0;
        let mut i: usize = 0;
        while i < self.vertices.len()
            invariant
                i <= self.vertices@.len(),
                is_nearest_unvisited(self.vertices@.take(i as int), pick),
                pick matches Some(u) ==> tentative(self.vertices@, u as int) == Some(least),
            decreases self.vertices@.len() - i,
        {
            let ghost before = self.vertices@.take(i as int);
            let ghost after = self.vertices@.take(i + 1);
            assert forall|v: int| 0 <= v < i implies #[trigger] after[v] == before[v] by {}
            assert(after[i as int] == self.vertices@[i as int]);
            if !self.vertices[i].visited {
                match self.vertices[i].tentative_distance {
                    Some(distance) => {
                        if pick.is_none() || distance < least {
                            pick = Some(i);
                            least = distance;
                        }
                    },
                    None => {},
                }
            }
            i = i + 1;
        }
        assert(self.vertices@.take(i as int) =~= self.vertices@);
        pick
    }

    /// Follows every edge out of the vertex being visited: a neighbour that
    /// is not visited yet and comes closer to the start through `current`
    /// gets the shorter distance and `current` as its parent.
    fn relax_neighbours(
        &mut self,
        current: usize,
        Ghost(start): Ghost<int>,
        Ghost(routes): Ghost<Seq<Seq<MatrixIndex>>>,
        Ghost(limit): Ghost<nat>,
    ) -> (later: Ghost<Seq<Seq<MatrixIndex>>>)
        requires
            old(self).matrix_wf(),
            current < old(self).vertices@.len(),
            search_inv(
                old(self).connection_matrix,
                old(self).edges@,
                old(self).vertices@,
                start,
                routes,
                current as int,
                0,
            ),
            ordered(
                old(self).connection_matrix,
                old(self).edges@,
                old(self).vertices@,
                start,
                current as int,
                0,
            ),
            limit + u64::MAX <= u128::MAX,
            forall|v: int|
                0 <= v < old(self).vertices@.len() ==> (#[trigger] tentative(
                    old(self).vertices@,
                    v,
                ) matches Some(d) ==> d <= limit),
        ensures
            ordered(
                final(self).connection_matrix,
                final(self).edges@,
                final(self).vertices@,
                start,
                current as int,
                final(self).vertices@.len() as int,
            ),
            final(self).edges == old(self).edges,
            final(self).connection_matrix == old(self).connection_matrix,
            same_visits(old(self).vertices@, final(self).vertices@),
            forall|v: int|
                0 <= v < old(self).vertices@.len() ==> {
                    &&& (#[trigger] final(self).vertices@[v]).name == old(self).vertices@[v].name
                    &&& final(self).vertices@[v].point == old(self).vertices@[v].point
                },
            search_inv(
                final(self).connection_matrix,
                final(self).edges@,
                final(self).vertices@,
                start,
                later@,
                current as int,
                final(self).vertices@.len() as int,
            ),
            forall|v: int|
                0 <= v < final(self).vertices@.len() ==> (#[trigger] tentative(
                    final(self).vertices@,
                    v,
                ) matches Some(d) ==> d <= limit + u64::MAX),
    {
        let ghost m = self.connection_matrix;
        let ghost edges = self.edges@;
        let ghost mut routes = routes;
        let n = self.vertices.len();
        proof {
            lemma_current_reached(m, edges, self.vertices@, start, routes, current as int, 0);
        }
        let base: u128 = self.vertices[current].tentative_distance.unwrap();
        let mut j: usize = 0;
        while j < n
            invariant
                self.edges == old(self).edges,
                self.connection_matrix == old(self).connection_matrix,
                m == self.connection_matrix,
                edges == self.edges@,
                self.matrix_wf(),
                n == self.vertices@.len(),
                current < n,
                j <= n,
                same_visits(old(self).vertices@, self.vertices@),
                forall|v: int|
                    0 <= v < n ==> {
                        &&& (#[trigger] self.vertices@[v]).name == old(self).vertices@[v].name
                        &&& self.vertices@[v].point == old(self).vertices@[v].point
                    },
                search_inv(m, edges, self.vertices@, start, routes, current as int, j as int),
                ordered(m, edges, self.vertices@, start, current as int, j as int),
                routes.len() == n,
                tentative(self.vertices@, current as int) == Some(base),
                base <= limit,
                limit + u64::MAX <= u128::MAX,
                forall|v: int|
                    0 <= v < n ==> (#[trigger] tentative(self.vertices@, v) matches Some(d) ==> d
                        <= limit + u64::MAX),
            decreases n - j,
        {
            let ghost vs = self.vertices@;
            let mut improved = false;
            match self.connection_matrix.read(current, j) {
                Some(edge_index) => {
                    assert(self.cell(current as int, j as int) == Some(edge_index));
                    if !self.vertices[j].visited {
                        let candidate: u128 = base + self.edges[edge_index].distance as u128;
                        assert(candidate == base + link_length(m, edges, current as int, j as int));
                        let closer = match self.vertices[j].tentative_distance {
                            Some(distance) => candidate < distance,
                            None => true,
                        };
                        if closer {
                            assert(self.cell(current as int, current as int) is None);
                            self.vertices[j].tentative_distance = Some(candidate);
                            self.vertices[j].parent_vertex_index = Some(current);
                            improved = true;
                        }
                    }
                },
                None => {},
            }
            proof {
                if improved {
                    lemma_order_neighbour_improved(
                        m,
                        edges,
                        vs,
                        self.vertices@,
                        start,
                        routes,
                        current,
                        j,
                    );
                    lemma_neighbour_improved(
                        m,
                        edges,
                        vs,
                        self.vertices@,
                        start,
                        routes,
                        current,
                        j,
                    );
                    routes =
                    routes.update(
                        j as int,
                        routes[current as int].push(MatrixIndex { ith: current, jth: j }),
                    );
                    assert forall|v: int| 0 <= v < n implies (#[trigger] tentative(
                        self.vertices@,
                        v,
                    ) matches Some(d) ==> d <= limit + u64::MAX) by {
                        if v != j {
                            assert(self.vertices@[v] == vs[v]);
                            assert(tentative(self.vertices@, v) == tentative(vs, v));
                        }
                    }
                } else {
                    lemma_order_neighbour_kept(
                        m,
                        edges,
                        vs,
                        start,
                        routes,
                        current as int,
                        j as int,
                    );
                    lemma_neighbour_kept(m, edges, vs, start, routes, current as int, j as int);
                }
            }
            j = j + 1;
        }
        Ghost(routes)
    }
    /// Reads the route to `end` off the parent links: from `end` back to
    /// `start`, and then turned round so that it runs from `start` to `end`.
    fn trace_back(
        &self,
        start: usize,
        end: usize,
        Ghost(routes): Ghost<Seq<Seq<MatrixIndex>>>,
        Ghost(current): Ghost<int>,
    ) -> (indices: Vec<MatrixIndex>)
        requires
            search_inv(
                self.connection_matrix,
                self.edges@,
                self.vertices@,
                start as int,
                routes,
                current,
                0,
            ),
            end < self.vertices@.len(),
            tentative(self.vertices@, end as int) is Some,
        ensures
            indices@ == routes[end as int],
    {
        let ghost m = self.connection_matrix;
        let ghost edges = self.edges@;
        let ghost vs = self.vertices@;
        let ghost whole = routes[end as int];
        let mut backwards: Vec<MatrixIndex> = Vec::with_capacity(self.edges.len());
        let mut at: usize = end;
        while at != start
            invariant
                search_inv(m, edges, vs, start as int, routes, current, 0),
                vs == self.vertices@,
                at < vs.len(),
                tentative(vs, at as int) is Some,
                whole == routes[end as int],
                whole.len() == routes[at as int].len() + backwards@.len(),
                forall|k: int| 0 <= k < routes[at as int].len() ==> whole[k] == routes[at as int][k],
                forall|k: int|
                    0 <= k < backwards@.len() ==> #[trigger] backwards@[k] == whole[whole.len() - 1
                        - k],
            decreases routes[at as int].len(),
        {
            proof {
                lemma_route_on_record(m, edges, vs, start as int, routes, current, 0, at);
            }
            let parent = self.vertices[at].parent_vertex_index.unwrap();
            backwards.push(MatrixIndex { ith: parent, jth: at });
            proof {
                let shorter = routes[parent as int];
                assert(routes[at as int][shorter.len() as int] == MatrixIndex {
                    ith: parent,
                    jth: at,
                });
                assert forall|k: int| 0 <= k < shorter.len() implies whole[k] == shorter[k] by {
                    assert(routes[at as int][k] == shorter[k]);
                }
            }
            at = parent;
        }
        proof {
            lemma_route_on_record(m, edges, vs, start as int, routes, current, 0, at);
        }
        let mut indices: Vec<MatrixIndex> = Vec::with_capacity(backwards.len());
        let mut left: usize = backwards.len();
        while left > 0
            invariant
                left <= backwards@.len(),
                whole.len() == backwards@.len(),
                indices@.len() == backwards@.len() - left,
                forall|k: int|
                    0 <= k < backwards@.len() ==> #[trigger] backwards@[k] == whole[whole.len() - 1
                        - k],
                forall|k: int| 0 <= k < indices@.len() ==> #[trigger] indices@[k] == whole[k],
            decreases left,
        {
            left = left - 1;
            indices.push(backwards[left]);
        }
        assert(indices@ =~= whole);
        indices
    }

    /// The working storage of every vertex is as a search from `start`
    /// leaves it: see [`is_sound_at`].
    pub open spec fn reflects_search_from(&self, start: usize) -> bool {
        forall|v: int|
            0 <= v < self.vertices@.len() ==> #[trigger] is_sound_at(
                self.connection_matrix,
                self.edges@,
                self.vertices@,
                start as int,
                v,
            )
    }

    /// The shortest route from `start` to `end`, by Dijkstra's algorithm on
    /// the connection matrix.
    ///
    /// The search uses the vertices' working storage, which it resets first.
    /// It visits the reached vertex of least tentative distance that it has
    /// not visited yet (the one of lowest index among equals), follows the
    /// edges out of it, and stops when that vertex is `end` or when no such
    /// vertex is left. It fails exactly when no route leads from `start` to
    /// `end`.
    ///
    /// The route it returns is continuous, and no route between the two
    /// vertices is shorter; its length is the tentative distance that the
    /// search leaves in `end`, and its steps are the parent links from `end`
    /// back to `start`. Where every edge has a length above zero, it is the
    /// one route that takes least parents (see
    /// [`Graph::takes_least_parents`]).
    ///
    /// Nothing but the working storage changes, and that is left sound (see
    /// [`is_sound_at`]): what it says of a reached vertex is true of the
    /// graph.
    pub fn shortest_path(&mut self, start: usize, end: usize) -> (result: Result<Path, Error>)
        requires
            old(self).matrix_wf(),
            start < old(self).vertices@.len(),
            end < old(self).vertices@.len(),
        ensures
            final(self).edges == old(self).edges,
            final(self).connection_matrix == old(self).connection_matrix,
            final(self).vertices@.len() == old(self).vertices@.len(),
            forall|v: int|
                0 <= v < old(self).vertices@.len() ==> {
                    &&& (#[trigger] final(self).vertices@[v]).name == old(self).vertices@[v].name
                    &&& final(self).vertices@[v].point == old(self).vertices@[v].point
                },
            final(self).matrix_wf(),
            old(self).wf() ==> final(self).wf(),
            final(self).reflects_search_from(start),
            result is Ok <==> final(self).connected(start, end),
            result matches Err(e) ==> e is PathPlanningPathDoesNotExist,
            result matches Ok(path) ==> {
                &&& final(self).is_route(path.indices@, start, end)
                &&& final(self).no_route_shorter(
                    start,
                    end,
                    final(self).route_length(path.indices@),
                )
                &&& final(self).vertices@[end as int].tentative_distance matches Some(d) && d
                    == final(self).route_length(path.indices@)
                &&& follows_parents(final(self).vertices@, path.indices@)
                &&& final(self).has_positive_links() ==> final(self).takes_least_parents(
                    start,
                    path.indices@,
                )
                &&& path.lies_in(final(self))
                &&& path.has_vertices_in(final(self))
            },
    {
        let ghost m = self.connection_matrix;
        let ghost edges = self.edges@;
        let n = self.vertices.len();
        self.reset_search();
        assert(self.vertices@[start as int].is_fresh());
        self.vertices[start].tentative_distance = Some(0);
        let ghost mut routes: Seq<Seq<MatrixIndex>> = Seq::new(
            n as nat,
            |v: int| Seq::<MatrixIndex>::empty(),
        );
        proof {
            let vs = self.vertices@;
            assert forall|v: int| 0 <= v < vs.len() implies !(#[trigger] vs[v]).visited && (v
                != start ==> tentative(vs, v) is None) by {
                if v != start {
                    assert(vs[v].is_fresh());
                }
            }
            lemma_search_begins(m, edges, vs, start as int);
            lemma_order_begins(m, edges, vs, start as int);
            lemma_visited_none(vs, vs.len());
        }
        let mut current: usize = start;
        let mut found: bool = true;
        while found && current != end
            invariant
                self.edges == old(self).edges,
                self.connection_matrix == old(self).connection_matrix,
                m == self.connection_matrix,
                edges == self.edges@,
                self.matrix_wf(),
                n == self.vertices@.len(),
                n == old(self).vertices@.len(),
                start < n,
                end < n,
                forall|v: int|
                    0 <= v < n ==> {
                        &&& (#[trigger] self.vertices@[v]).name == old(self).vertices@[v].name
                        &&& self.vertices@[v].point == old(self).vertices@[v].point
                    },
                found ==> current < n && !self.vertices@[current as int].visited && search_inv(
                    m,
                    edges,
                    self.vertices@,
                    start as int,
                    routes,
                    current as int,
                    0,
                ),
                !found ==> is_nearest_unvisited(self.vertices@, None) && search_inv(
                    m,
                    edges,
                    self.vertices@,
                    start as int,
                    routes,
                    -1,
                    0,
                ),
                ordered(m, edges, self.vertices@, start as int, if found {
                    current as int
                } else {
                    -1
                }, 0),
                !self.vertices@[end as int].visited,
                forall|v: int|
                    0 <= v < n ==> (#[trigger] tentative(self.vertices@, v) matches Some(d) ==> d
                        <= visited_count(self.vertices@) * u64::MAX),
            decreases n - visited_count(self.vertices@),
        {
            let ghost before = self.vertices@;
            let ghost settled_so_far = visited_count(before);
            proof {
                lemma_visited_below_bound(before, before.len());
                assert(!before[current as int].visited);
                assert(settled_so_far < n);
                assert(settled_so_far * u64::MAX + u64::MAX <= u128::MAX) by (nonlinear_arith)
                    requires
                        settled_so_far < n,
                        n <= u64::MAX,
                ;
            }
            let later = self.relax_neighbours(
                current,
                Ghost(start as int),
                Ghost(routes),
                Ghost(settled_so_far * u64::MAX as nat),
            );
            let ghost relaxed = self.vertices@;
            self.vertices[current].visited = true;
            proof {
                routes = later@;
                lemma_visited_below_same(before, relaxed, before.len());
                lemma_visited_below_mark(relaxed, self.vertices@, current as int, relaxed.len());
                lemma_visit_done(
                    m,
                    edges,
                    relaxed,
                    self.vertices@,
                    start as int,
                    routes,
                    current as int,
                );
                lemma_order_visit_done(
                    m,
                    edges,
                    relaxed,
                    self.vertices@,
                    start as int,
                    current as int,
                );
                assert forall|v: int| 0 <= v < n implies (#[trigger] tentative(self.vertices@, v)
                    matches Some(d) ==> d <= visited_count(self.vertices@) * u64::MAX) by {
                    assert(tentative(self.vertices@, v) == tentative(relaxed, v));
                    assert((settled_so_far + 1) * u64::MAX == settled_so_far * u64::MAX
                        + u64::MAX) by (nonlinear_arith);
                }
            }
            match self.nearest_unvisited() {
                Some(next) => {
                    proof {
                        lemma_order_visit_nearest(
                            m,
                            edges,
                            self.vertices@,
                            start as int,
                            routes,
                            next,
                        );
                        lemma_visit_nearest(m, edges, self.vertices@, start as int, routes, next);
                    }
                    current = next;
                },
                None => {
                    found = false;
                },
            }
        }
        if self.vertices[end].tentative_distance.is_none() {
            proof {
                assert(!found) by {
                    if found {
                        lemma_current_reached(
                            m,
                            edges,
                            self.vertices@,
                            start as int,
                            routes,
                            current as int,
                            0,
                        );
                    }
                }
                assert forall|steps: Seq<MatrixIndex>|
                    !#[trigger] is_route(m, steps, start as int, end as int) by {
                    if is_route(m, steps, start as int, end as int) {
                        lemma_search_exhausted(
                            m,
                            edges,
                            self.vertices@,
                            start as int,
                            routes,
                            steps,
                            end as int,
                        );
                    }
                }
                self.lemma_wf_kept(*old(self));
                assert forall|v: int| 0 <= v < self.vertices@.len() implies #[trigger] is_sound_at(
                    m,
                    edges,
                    self.vertices@,
                    start as int,
                    v,
                ) by {
                    lemma_search_is_sound(m, edges, self.vertices@, start as int, routes, -1, 0, v);
                }
            }
            return Err(Error::PathPlanningPathDoesNotExist);
        }
        let ghost at: int = if found {
            current as int
        } else {
            -1
        };
        let indices = self.trace_back(start, end, Ghost(routes), Ghost(at));
        proof {
            assert(found) by {
                if !found {
                    assert(self.vertices@[end as int].visited || tentative(
                        self.vertices@,
                        end as int,
                    ) is None);
                }
            }
            lemma_route_on_record(m, edges, self.vertices@, start as int, routes, at, 0, end);
            lemma_current_is_final(m, edges, self.vertices@, start as int, routes, at, 0);
            lemma_route_follows_parents(m, edges, self.vertices@, start as int, routes, at, 0, end);
            if positive_links(m, edges) {
                lemma_route_takes_least_parents(
                    m,
                    edges,
                    self.vertices@,
                    start as int,
                    routes,
                    at,
                    end,
                );
            }
            assert(is_route(m, indices@, start as int, end as int));
            self.lemma_wf_kept(*old(self));
            assert forall|k: int| 0 <= k < indices@.len() implies (#[trigger] indices@[k]).ith
                < self.vertices@.len() && indices@[k].jth < self.vertices@.len()
                && indices@[k].is_connection_of(self) by {
                assert(is_step(m, indices@[k]));
            }
            assert forall|v: int| 0 <= v < self.vertices@.len() implies #[trigger] is_sound_at(
                m,
                edges,
                self.vertices@,
                start as int,
                v,
            ) by {
                lemma_search_is_sound(m, edges, self.vertices@, start as int, routes, at, 0, v);
            }
        }
        Ok(Path { indices })
    }

    /// A graph stays well formed when only the working storage of its
    /// vertices changes.
    proof fn lemma_wf_kept(&self, before: Graph)
        requires
            self.edges == before.edges,
            self.connection_matrix == before.connection_matrix,
            self.vertices@.len() == before.vertices@.len(),
            forall|v: int|
                0 <= v < before.vertices@.len() ==> (#[trigger] self.vertices@[v]).point
                    == before.vertices@[v].point,
        ensures
            before.wf() ==> self.wf(),
    {
        if before.wf() {
            assert forall|i: int, j: int|
                0 <= i < self.vertices@.len() && 0 <= j < self.vertices@.len() implies (
            #[trigger] self.cell(i, j) matches Some(e) ==> joins(
                self.edges@[e as int],
                self.vertices@[i].point,
                self.vertices@[j].point,
            )) by {
                assert(before.cell(i, j) == self.cell(i, j));
                assert(self.vertices@[i].point == before.vertices@[i].point);
                assert(self.vertices@[j].point == before.vertices@[j].point);
            }
        }
    }
}

/// The vertices that a sequence of steps names, in order: for each step the
/// vertex it leaves and the vertex it reaches.
pub open spec fn step_ends(steps: Seq<MatrixIndex>) -> Seq<usize>
    decreases steps.len(),
{
    if steps.len() == 0 {
        Seq::empty()
    } else {
        step_ends(steps.drop_last()).push(steps.last().ith).push(steps.last().jth)
    }
}

/// The sequence without the items that repeat the item just before them.
pub open spec fn without_repeats(items: Seq<usize>) -> Seq<usize>
    decreases items.len(),
{
    if items.len() == 0 {
        Seq::empty()
    } else if items.len() >= 2 && items[items.len() - 2] == items.last() {
        without_repeats(items.drop_last())
    } else {
        without_repeats(items.drop_last()).push(items.last())
    }
}

/// Appending an item that repeats the last one changes nothing; appending
/// any other item appends it to the result.
pub proof fn lemma_without_repeats_push(items: Seq<usize>, item: usize)
    ensures
        without_repeats(items.push(item)) == if items.len() > 0 && items.last() == item {
            without_repeats(items)
        } else {
            without_repeats(items).push(item)
        },
{
    assert(items.push(item).drop_last() =~= items);
}

impl Path {
    /// Every step of the path is realised by an edge of the graph.
    pub open spec fn lies_in(&self, graph: &Graph) -> bool {
        forall|k: int|
            0 <= k < self.indices@.len() ==> (#[trigger] self.indices@[k]).is_connection_of(graph)
    }

    /// The indices of the vertices along the path: the ends of its steps,
    /// where a vertex that a step reaches and the next step leaves is named
    /// once.
    pub open spec fn vertex_indices(&self) -> Seq<usize> {
        without_repeats(step_ends(self.indices@))
    }
}

/// A path involves the edges of its steps.
impl Edges for Path {
    open spec fn has_edges_in(&self, graph: &Graph) -> bool {
        self.lies_in(graph)
    }

    open spec fn edges_in(&self, graph: &Graph) -> Seq<Edge> {
        Seq::new(
            self.indices@.len(),
            |k: int|
                graph.edges@[graph.cell(
                    self.indices@[k].ith as int,
                    self.indices@[k].jth as int,
                ).unwrap() as int],
        )
    }

    fn has_edges(&self, graph: &Graph) -> (yes: bool) {
        let mut i: usize = 0;
        while i < self.indices.len()
            invariant
                i <= self.indices@.len(),
                forall|k: int| 0 <= k < i ==> (#[trigger] self.indices@[k]).is_connection_of(graph),
            decreases self.indices@.len() - i,
        {
            if !self.indices[i].connects(graph) {
                return false;
            }
            i = i + 1;
        }
        true
    }

    fn edges<'a, 'b>(&'a self, graph: &'b Graph) -> (edges: Vec<&'b Edge>) {
        let mut edges: Vec<&'b Edge> = Vec::with_capacity(self.indices.len());
        let mut i: usize = 0;
        while i < self.indices.len()
            invariant
                self.lies_in(graph),
                i <= self.indices@.len(),
                edges@.len() == i,
                forall|k: int|
                    0 <= k < i ==> *(#[trigger] edges@[k]) == self.edges_in(graph)[k],
            decreases self.indices@.len() - i,
        {
            edges.push(self.indices[i].edge(graph));
            i = i + 1;
        }
        edges
    }
}

/// A path involves the vertices along it.
impl Vertices for Path {
    open spec fn has_vertices_in(&self, graph: &Graph) -> bool {
        forall|k: int|
            0 <= k < self.indices@.len() ==> (#[trigger] self.indices@[k]).ith
                < graph.vertices@.len() && self.indices@[k].jth < graph.vertices@.len()
    }

    open spec fn vertices_in(&self, graph: &Graph) -> Seq<Vertex> {
        Seq::new(
            self.vertex_indices().len(),
            |k: int| graph.vertices@[self.vertex_indices()[k] as int],
        )
    }

    fn has_vertices(&self, graph: &Graph) -> (yes: bool) {
        let mut i: usize = 0;
        while i < self.indices.len()
            invariant
                i <= self.indices@.len(),
                forall|k: int|
                    0 <= k < i ==> (#[trigger] self.indices@[k]).ith < graph.vertices@.len()
                        && self.indices@[k].jth < graph.vertices@.len(),
            decreases self.indices@.len() - i,
        {
            if self.indices[i].ith >= graph.vertices.len() || self.indices[i].jth
                >= graph.vertices.len() {
                return false;
            }
            i = i + 1;
        }
        true
    }

    fn vertices<'a, 'b>(&'a self, graph: &'b Graph) -> (vertices: Vec<&'b Vertex>) {
        let mut vertices: Vec<&'b Vertex> = Vec::new();
        let mut latest: Option<usize> = None;
        let ghost mut named: Seq<usize> = Seq::empty();
        let mut i: usize = 0;
        while i < self.indices.len()
            invariant
                self.has_vertices_in(graph),
                i <= self.indices@.len(),
                named == step_ends(self.indices@.take(i as int)),
                latest == if named.len() == 0 {
                    None
                } else {
                    Some(named.last())
                },
                vertices@.len() == without_repeats(named).len(),
                forall|k: int|
                    0 <= k < vertices@.len() ==> #[trigger] is_vertex_at(
                        graph,
                        vertices@[k],
                        without_repeats(named)[k],
                    ),
            decreases self.indices@.len() - i,
        {
            let step = self.indices[i];
            let ghost kept = without_repeats(named);
            let ghost listed = vertices@;
            proof {
                let upto = self.indices@.take(i + 1);
                assert(upto.drop_last() =~= self.indices@.take(i as int));
                assert(upto.last() == step);
                lemma_without_repeats_push(named, step.ith);
                lemma_without_repeats_push(named.push(step.ith), step.jth);
            }
            if latest != Some(step.ith) {
                vertices.push(&graph.vertices[step.ith]);
            }
            let ghost kept_more = without_repeats(named.push(step.ith));
            let ghost listed_more = vertices@;
            assert forall|k: int| 0 <= k < listed_more.len() implies #[trigger] is_vertex_at(
                graph,
                listed_more[k],
                kept_more[k],
            ) by {
                if k < listed.len() {
                    assert(is_vertex_at(graph, listed[k], kept[k]));
                }
            }
            if step.jth != step.ith {
                vertices.push(&graph.vertices[step.jth]);
            }
            latest = Some(step.jth);
            proof {
                named = named.push(step.ith).push(step.jth);
                assert forall|k: int| 0 <= k < vertices@.len() implies #[trigger] is_vertex_at(
                    graph,
                    vertices@[k],
                    without_repeats(named)[k],
                ) by {
                    if k < listed_more.len() {
                        assert(is_vertex_at(graph, listed_more[k], kept_more[k]));
                    }
                }
            }
            i = i + 1;
        }
        proof {
            assert(self.indices@.take(i as int) =~= self.indices@);
            assert forall|k: int| 0 <= k < vertices@.len() implies *(#[trigger] vertices@[k])
                == self.vertices_in(graph)[k] by {
                assert(is_vertex_at(graph, vertices@[k], without_repeats(named)[k]));
            }
        }
        vertices
    }
}

/// `listed` is the vertex of `graph` with the given index.
pub open spec fn is_vertex_at(graph: &Graph, listed: &Vertex, index: usize) -> bool {
    index < graph.vertices@.len() && *listed == graph.vertices@[index as int]
}

} // verus!
