//! Localisation: which edge of the path network a position lies on, and
//! which cell of the connection matrix stands for an edge.

use vstd::prelude::*;

use crate::error::Error;
use crate::graph::matrix::{matrix_width, ConnectionMatrix};
use crate::graph::point::TangentialPoint;
use crate::graph::{holds_edge, Graph, MatrixIndex};

verus! {

/// How many sample points are taken on each segment of a polyline.
pub const SAMPLES_PER_SEGMENT: u32 = 80;

/// How far from a sample point of an edge, in millimetres, a position may be
/// and still count as lying on that edge: the radius of the robot.
pub const ROBOT_RADIUS: u64 = 1_000;

/// Cell `(i1, j1)` comes before cell `(i2, j2)` when the matrix is read row
/// by row.
pub open spec fn cell_before(i1: int, j1: int, i2: int, j2: int) -> bool {
    i1 < i2 || (i1 == i2 && j1 < j2)
}

/// `index` is the first cell, reading row by row, that holds the edge index
/// `edge_index`.
pub open spec fn is_first_cell_of(m: ConnectionMatrix, edge_index: usize, index: MatrixIndex) -> bool {
    &&& m.in_bounds(index.ith as int, index.jth as int)
    &&& m.cell(index.ith as int, index.jth as int) == Some(edge_index)
    &&& forall|i: int, j: int|
        m.in_bounds(i, j) && cell_before(i, j, index.ith as int, index.jth as int) ==> #[trigger] m.cell(
            i,
            j,
        ) != Some(edge_index)
}

/// The coordinate of sample `k` between the coordinates `from` and `to`:
/// `k` parts of `SAMPLES_PER_SEGMENT` of the way, rounded towards `from`.
pub open spec fn interpolate(from: int, to: int, k: int) -> int {
    if to >= from {
        from + (to - from) * k / (SAMPLES_PER_SEGMENT as int)
    } else {
        from - (from - to) * k / (SAMPLES_PER_SEGMENT as int)
    }
}

/// Sample `k` on the segment from `a` to `b`.
pub open spec fn sample_point(a: TangentialPoint, b: TangentialPoint, k: int) -> TangentialPoint {
    TangentialPoint {
        x: interpolate(a.x as int, b.x as int, k) as i32,
        y: interpolate(a.y as int, b.y as int, k) as i32,
        z: interpolate(a.z as int, b.z as int, k) as i32,
    }
}

/// Sample `(e1, s1, k1)` is taken before sample `(e2, s2, k2)`: samples are
/// taken edge by edge, segment by segment, from a segment's first point on.
pub open spec fn sample_before(e1: int, s1: int, k1: int, e2: int, s2: int, k2: int) -> bool {
    e1 < e2 || (e1 == e2 && (s1 < s2 || (s1 == s2 && k1 < k2)))
}

fn interpolate_coordinate(from: i32, to: i32, k: u32) -> (at: i32)
    requires
        k < SAMPLES_PER_SEGMENT,
    ensures
        at == interpolate(from as int, to as int, k as int),
{
    if to >= from {
        let span: i64 = to as i64 - from as i64;
        assert(0 <= span * k <= span * 80) by (nonlinear_arith)
            requires
                0 <= span,
                0 <= k < 80,
        ;
        (from as i64 + span * (k as i64) / (SAMPLES_PER_SEGMENT as i64)) as i32
    } else {
        let span: i64 = from as i64 - to as i64;
        assert(0 <= span * k <= span * 80) by (nonlinear_arith)
            requires
                0 <= span,
                0 <= k < 80,
        ;
        (from as i64 - span * (k as i64) / (SAMPLES_PER_SEGMENT as i64)) as i32
    }
}

/// Sample `k` on the segment from `a` to `b`: `k` parts of
/// `SAMPLES_PER_SEGMENT` of the way, each coordinate rounded towards `a`.
pub fn sample_on_segment(a: &TangentialPoint, b: &TangentialPoint, k: u32) -> (sample:
    TangentialPoint)
    requires
        k < SAMPLES_PER_SEGMENT,
    ensures
        sample == sample_point(*a, *b, k as int),
{
    TangentialPoint {
        x: interpolate_coordinate(a.x, b.x, k),
        y: interpolate_coordinate(a.y, b.y, k),
        z: interpolate_coordinate(a.z, b.z, k),
    }
}

impl Graph {
    /// `(e, s, k)` names a sample: sample `k` on segment `s` of edge `e`.
    pub open spec fn is_sample(&self, e: int, s: int, k: int) -> bool {
        &&& 0 <= e < self.edges@.len()
        &&& 0 <= s && s + 1 < self.edges@[e].points@.len()
        &&& 0 <= k < SAMPLES_PER_SEGMENT
    }

    /// Where sample `(e, s, k)` lies.
    pub open spec fn sample(&self, e: int, s: int, k: int) -> TangentialPoint {
        sample_point(
            self.edges@[e].points@[s].tangential,
            self.edges@[e].points@[s + 1].tangential,
            k,
        )
    }

    /// The square of the distance from sample `(e, s, k)` to `location`.
    pub open spec fn sample_gap(&self, location: TangentialPoint, e: int, s: int, k: int) -> nat {
        self.sample(e, s, k).distance_squared(&location)
    }

    /// Some sample lies within the robot's radius of `location`.
    pub open spec fn on_map(&self, location: TangentialPoint) -> bool {
        exists|e: int, s: int, k: int|
            self.is_sample(e, s, k) && #[trigger] self.sample_gap(location, e, s, k) <= ROBOT_RADIUS
                * ROBOT_RADIUS
    }

    /// Sample `(e, s, k)` lies within the robot's radius of `location`, no
    /// sample is closer, and every sample taken before it is farther.
    pub open spec fn is_closest_sample(
        &self,
        location: TangentialPoint,
        e: int,
        s: int,
        k: int,
    ) -> bool {
        &&& self.is_sample(e, s, k)
        &&& self.sample_gap(location, e, s, k) <= ROBOT_RADIUS * ROBOT_RADIUS
        &&& forall|e2: int, s2: int, k2: int|
            self.is_sample(e2, s2, k2) ==> {
                &&& self.sample_gap(location, e, s, k) <= #[trigger] self.sample_gap(
                    location,
                    e2,
                    s2,
                    k2,
                )
                &&& sample_before(e2, s2, k2, e, s, k) ==> self.sample_gap(location, e, s, k)
                    < self.sample_gap(location, e2, s2, k2)
            }
    }

    /// The first cell of the connection matrix, reading row by row, that
    /// holds `edge_index`. It fails when no cell holds it.
    pub fn connection_matrix_index_from(&self, edge_index: usize) -> (result: Result<
        MatrixIndex,
        Error,
    >)
        ensures
            result is Ok <==> holds_edge(self.connection_matrix, edge_index as int),
            result matches Ok(index) ==> is_first_cell_of(self.connection_matrix, edge_index, index),
            result matches Err(e) ==> e is PathPlanningEdgeIndexNotInConnectionMatrix,
    {
        let rows = self.connection_matrix.row_count();
        let columns = self.connection_matrix.column_count();
        let mut row: usize = 0;
        while row < rows
            invariant
                rows == self.connection_matrix.height(),
                columns == matrix_width(self.connection_matrix),
                row <= rows,
                forall|i: int, j: int|
                    self.connection_matrix.in_bounds(i, j) && i < row
                        ==> #[trigger] self.connection_matrix.cell(i, j) != Some(edge_index),
            decreases rows - row,
        {
            let mut col: usize = 0;
            while col < columns
                invariant
                    rows == self.connection_matrix.height(),
                    columns == matrix_width(self.connection_matrix),
                    row < rows,
                    col <= columns,
                    forall|i: int, j: int|
                        self.connection_matrix.in_bounds(i, j) && cell_before(
                            i,
                            j,
                            row as int,
                            col as int,
                        ) ==> #[trigger] self.connection_matrix.cell(i, j) != Some(edge_index),
                decreases columns - col,
            {
                match self.connection_matrix.read(row, col) {
                    Some(found) => {
                        if found == edge_index {
                            return Ok(MatrixIndex { ith: row, jth: col });
                        }
                    },
                    None => {},
                }
                col = col + 1;
            }
            row = row + 1;
        }
        Err(Error::PathPlanningEdgeIndexNotInConnectionMatrix)
    }
    /// Of the samples taken before `(e0, s0, k0)`: if `found`, sample
    /// `(e, s, k)` is one of them, lies within the robot's radius, none of
    /// them is closer and the earlier ones are farther; if not, none of them
    /// lies within the radius.
    pub open spec fn closest_before(
        &self,
        location: TangentialPoint,
        e0: int,
        s0: int,
        k0: int,
        found: bool,
        e: int,
        s: int,
        k: int,
    ) -> bool {
        if found {
            &&& self.is_sample(e, s, k)
            &&& sample_before(e, s, k, e0, s0, k0)
            &&& self.sample_gap(location, e, s, k) <= ROBOT_RADIUS * ROBOT_RADIUS
            &&& forall|e2: int, s2: int, k2: int|
                self.is_sample(e2, s2, k2) && sample_before(e2, s2, k2, e0, s0, k0) ==> {
                    &&& self.sample_gap(location, e, s, k) <= #[trigger] self.sample_gap(
                        location,
                        e2,
                        s2,
                        k2,
                    )
                    &&& sample_before(e2, s2, k2, e, s, k) ==> self.sample_gap(location, e, s, k)
                        < self.sample_gap(location, e2, s2, k2)
                }
        } else {
            forall|e2: int, s2: int, k2: int|
                self.is_sample(e2, s2, k2) && sample_before(e2, s2, k2, e0, s0, k0)
                    ==> #[trigger] self.sample_gap(location, e2, s2, k2) > ROBOT_RADIUS
                    * ROBOT_RADIUS
        }
    }

    /// The edge on which the robot stands.
    ///
    /// Every segment of every edge is sampled at `SAMPLES_PER_SEGMENT`
    /// points, from its first point towards its second. The edge chosen is the one that owns the
    /// sample closest to `robot_loc`, the first such sample where several
    /// are equally close, provided that it lies within the robot's radius.
    /// The answer is the first cell of the connection matrix that holds that
    /// edge. Where no sample lies within the radius, the robot is not on the
    /// map. In a well-formed graph there is no other way to fail.
    pub fn closest_edge_to(&self, robot_loc: &TangentialPoint) -> (result: Result<
        MatrixIndex,
        Error,
    >)
        ensures
            match result {
                Ok(index) => exists|e: int, s: int, k: int|
                    #![trigger self.sample_gap(*robot_loc, e, s, k)]
                    self.is_closest_sample(*robot_loc, e, s, k) && is_first_cell_of(
                        self.connection_matrix,
                        e as usize,
                        index,
                    ),
                Err(Error::PathPlanningNotOnMap) => !self.on_map(*robot_loc),
                Err(Error::PathPlanningEdgeIndexNotInConnectionMatrix) => exists|
                    e: int,
                    s: int,
                    k: int,
                |
                    #![trigger self.sample_gap(*robot_loc, e, s, k)]
                    self.is_closest_sample(*robot_loc, e, s, k) && !holds_edge(
                        self.connection_matrix,
                        e,
                    ),
                Err(_) => false,
            },
            self.wf() ==> (result is Ok <==> self.on_map(*robot_loc)),
            self.wf() && result is Err ==> result->Err_0 is PathPlanningNotOnMap,
    {
        let mut closest_edge_index: Option<usize> = None;
        let mut closest_gap: u128 = 0;
        let ghost mut be: int = 0;
        let ghost mut bs: int = 0;
        let ghost mut bk: int = 0;
        let mut e: usize = 0;
        while e < self.edges.len()
            invariant
                e <= self.edges@.len(),
                self.closest_before(
                    *robot_loc,
                    e as int,
                    0,
                    0,
                    closest_edge_index is Some,
                    be,
                    bs,
                    bk,
                ),
                closest_edge_index matches Some(edge_index) ==> edge_index == be && closest_gap
                    == self.sample_gap(*robot_loc, be, bs, bk),
            decreases self.edges@.len() - e,
        {
            let edge = &self.edges[e];
            let mut next: usize = 1;
            while next < edge.points.len()
                invariant
                    e < self.edges@.len(),
                    *edge == self.edges@[e as int],
                    1 <= next,
                    self.closest_before(
                        *robot_loc,
                        e as int,
                        next - 1,
                        0,
                        closest_edge_index is Some,
                        be,
                        bs,
                        bk,
                    ),
                    closest_edge_index matches Some(edge_index) ==> edge_index == be
                        && closest_gap == self.sample_gap(*robot_loc, be, bs, bk),
                decreases edge.points@.len() - next,
            {
                let s: usize = next - 1;
                let mut k: u32 = 0;
                while k < SAMPLES_PER_SEGMENT
                    invariant
                        e < self.edges@.len(),
                        *edge == self.edges@[e as int],
                        s + 1 == next,
                        next < edge.points@.len(),
                        k <= SAMPLES_PER_SEGMENT,
                        self.closest_before(
                            *robot_loc,
                            e as int,
                            s as int,
                            k as int,
                            closest_edge_index is Some,
                            be,
                            bs,
                            bk,
                        ),
                        closest_edge_index matches Some(edge_index) ==> edge_index == be
                            && closest_gap == self.sample_gap(*robot_loc, be, bs, bk),
                    decreases SAMPLES_PER_SEGMENT - k,
                {
                    let sample = sample_on_segment(
                        &edge.points[s].tangential,
                        &edge.points[next].tangential,
                        k,
                    );
                    let gap = sample.squared_distance(robot_loc);
                    assert(gap == self.sample_gap(*robot_loc, e as int, s as int, k as int));
                    if gap <= (ROBOT_RADIUS as u128) * (ROBOT_RADIUS as u128) && (
                    closest_edge_index.is_none() || gap < closest_gap) {
                        closest_edge_index = Some(e);
                        closest_gap = gap;
                        proof {
                            be = e as int;
                            bs = s as int;
                            bk = k as int;
                        }
                    }
                    k = k + 1;
                }
                next = next + 1;
            }
            e = e + 1;
        }
        match closest_edge_index {
            None => {
                assert(!self.on_map(*robot_loc));
                Err(Error::PathPlanningNotOnMap)
            },
            Some(edge_index) => {
                assert(self.is_closest_sample(*robot_loc, be, bs, bk));
                assert(self.on_map(*robot_loc));
                self.connection_matrix_index_from(edge_index)
            },
        }
    }
}

/// A robot that stands exactly on a sample of an edge is on the map, and the
/// sample that decides where it is lies exactly where the robot stands and
/// is taken no later than that sample. So the robot is found on that edge,
/// unless an edge before it in the list passes through the same point.
pub proof fn lemma_robot_on_a_sample(graph: Graph, e: int, s: int, k: int, e2: int, s2: int, k2: int)
    requires
        graph.is_sample(e, s, k),
        graph.is_closest_sample(graph.sample(e, s, k), e2, s2, k2),
    ensures
        graph.on_map(graph.sample(e, s, k)),
        graph.sample_gap(graph.sample(e, s, k), e2, s2, k2) == 0,
        !sample_before(e, s, k, e2, s2, k2),
        e2 <= e,
{
    let here = graph.sample(e, s, k);
    assert(graph.sample_gap(here, e, s, k) == 0) by (nonlinear_arith)
        requires
            graph.sample_gap(here, e, s, k) == (here.x - here.x) * (here.x - here.x) + (here.y
                - here.y) * (here.y - here.y) + (here.z - here.z) * (here.z - here.z),
    ;
}

} // verus!
