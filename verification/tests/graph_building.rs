use guidance::error::Error;
use guidance::graph::{
    connect_vertices_with_edges, Edge, Edges, GPSPointDeg, Graph, MatrixIndex, Point,
    TangentialPoint, Vertex, Vertices,
};

/// A surveyed point: latitude and longitude in 1e-7 degree, height and
/// tangential coordinates in millimetres.
fn building_point(lat: i32, long: i32, height: i32, x: i32, y: i32, z: i32) -> Point {
    Point { gps: GPSPointDeg { lat, long, height }, tangential: TangentialPoint::new(x, y, z) }
}

fn building_vertex(name: &str, point: Point) -> Vertex {
    Vertex::new(String::from(name), point)
}

fn building_edge(name: &str, points: Vec<Point>) -> Edge {
    Edge::new(String::from(name), points)
}

/// The three points of the single edge of the smallest test map.
fn single_edge_points() -> Vec<Point> {
    vec![
        building_point(346158710, -1124484608, 1580000, -120162, -229403, -1555),
        building_point(346157165, -1124484635, 1580000, -102862, -229155, -1663),
        building_point(346155377, -1124484742, 1580000, -82841, -228174, -1788),
    ]
}

/// One edge, "Line 3", between "Point 1" and "Point 2".
fn single_edge_graph() -> Graph {
    let points = single_edge_points();
    let vertices = vec![
        building_vertex("Point 1", points[0]),
        building_vertex("Point 2", points[2]),
    ];
    let edges = vec![building_edge("Line 3", points)];
    connect_vertices_with_edges(edges, vertices).unwrap()
}

fn triangle_corners() -> Vec<Point> {
    vec![
        building_point(346150000, -1124500000, 1580000, 0, 0, 0),
        building_point(346150000, -1124496000, 1580000, 30000, 0, 0),
        building_point(346153000, -1124500000, 1580000, 0, 40000, 0),
    ]
}

/// Three vertices, each pair joined by an edge.
fn triangle_graph() -> Graph {
    let c = triangle_corners();
    let vertices = vec![
        building_vertex("Point 1", c[0]),
        building_vertex("Point 2", c[1]),
        building_vertex("Point 3", c[2]),
    ];
    let edges = vec![
        building_edge("Line 4", vec![c[0], c[1]]),
        building_edge("Line 5", vec![c[1], c[2]]),
        building_edge("Line 6", vec![c[2], c[0]]),
    ];
    connect_vertices_with_edges(edges, vertices).unwrap()
}

#[test]
fn initialize_from_gpx_file_test_triangle() {
    let graph = triangle_graph();

    // The diagonal of the matrix is empty: no vertex has an edge to itself.
    // In a triangle every other cell is filled.
    assert_eq!(graph.connection_matrix.nrows(), 3);
    assert_eq!(graph.connection_matrix.ncols(), 3);
    for row in 0..graph.connection_matrix.nrows() {
        for column in 0..graph.connection_matrix.ncols() {
            if row == column {
                assert_eq!(graph.connection_matrix.get(row, column), None);
            } else {
                assert_ne!(graph.connection_matrix.get(row, column), None);
            }
        }
    }
}

#[test]
fn triangle_cells_hold_the_edge_between_their_vertices() {
    let graph = triangle_graph();
    let m = &graph.connection_matrix;
    assert_eq!(m.get(0, 1), Some(0));
    assert_eq!(m.get(1, 0), Some(0));
    assert_eq!(m.get(1, 2), Some(1));
    assert_eq!(m.get(2, 1), Some(1));
    assert_eq!(m.get(2, 0), Some(2));
    assert_eq!(m.get(0, 2), Some(2));
    // outside the matrix there is nothing
    assert_eq!(m.get(3, 0), None);
    assert_eq!(m.get(0, 3), None);
}

#[test]
fn full_graph_no_dangling_edge() {
    let c = triangle_corners();
    let far = building_point(346160000, -1124480000, 1580000, 90000, 90000, 0);
    let farther = building_point(346170000, -1124470000, 1580000, 190000, 90000, 0);
    let vertices = vec![
        building_vertex("Point 1", c[0]),
        building_vertex("Point 2", c[1]),
        building_vertex("Point 3", c[2]),
        building_vertex("Point 4", far),
        building_vertex("Point 5", farther),
    ];
    let edges = vec![
        building_edge("Line 4", vec![c[0], c[1]]),
        building_edge("Line 5", vec![c[1], c[2]]),
        building_edge("Line 7", vec![far, c[1], farther]),
    ];
    let graph = connect_vertices_with_edges(edges, vertices).unwrap();

    // The matrix is symmetrical across its diagonal, and the diagonal is
    // empty.
    let mut filled = 0;
    for row_i in 0..graph.connection_matrix.nrows() {
        assert_eq!(graph.connection_matrix.get(row_i, row_i), None);
        for col_i in 0..graph.connection_matrix.ncols() {
            assert_eq!(
                graph.connection_matrix.get(row_i, col_i),
                graph.connection_matrix.get(col_i, row_i)
            );
            if graph.connection_matrix.get(row_i, col_i).is_some() {
                assert!(graph.connection_matrix.get(col_i, row_i).is_some());
                filled += 1;
            }
        }
    }
    assert_eq!(filled, 6);
    assert_eq!(graph.connection_matrix.get(3, 4), Some(2));
}

#[test]
fn initialize_from_gpx_file_single_edge() {
    let graph = single_edge_graph();

    let edges = &graph.edges;
    let edge = &edges[0];

    assert_eq!(edges.len(), 1);
    assert_eq!(edge.points.len(), 3);
    assert_eq!(edge.points[0].gps.long, -1124484608);
    assert_eq!(edge.points[0].gps.lat, 346158710);
    assert_eq!(edge.points[1].gps.long, -1124484635);
    assert_eq!(edge.points[1].gps.lat, 346157165);
    assert_eq!(edge.points[2].gps.long, -1124484742);
    assert_eq!(edge.points[2].gps.lat, 346155377);
}

#[test]
fn single_edge_gives_one_symmetric_pair() {
    let graph = single_edge_graph();
    let m = &graph.connection_matrix;
    assert_eq!((m.nrows(), m.ncols()), (2, 2));
    assert_eq!(m.get(0, 0), None);
    assert_eq!(m.get(1, 1), None);
    assert_eq!(m.get(0, 1), Some(0));
    assert_eq!(m.get(1, 0), Some(0));
    assert_eq!(graph.vertices.len(), 2);
    assert_eq!(graph.vertices[0].name, "Point 1");
    assert_eq!(graph.vertices[1].name, "Point 2");
}

#[test]
fn edge_running_backwards_is_attached_all_the_same() {
    let points = single_edge_points();
    // the vertices in the other order: the edge starts at vertex 1
    let vertices = vec![
        building_vertex("Point 2", points[2]),
        building_vertex("Point 1", points[0]),
    ];
    let graph =
        connect_vertices_with_edges(vec![building_edge("Line 3", points)], vertices).unwrap();
    assert_eq!(graph.connection_matrix.get(1, 0), Some(0));
    assert_eq!(graph.connection_matrix.get(0, 1), Some(0));
}

#[test]
fn edge_initialization() {
    let points = vec![
        building_point(-10000000, -10000000, -1000, 0, 0, 0),
        building_point(-10000000, -10000000, -1000, 1000, 1000, 1000),
    ];

    let name = String::from("the slight");

    assert_eq!(
        Edge::new(name.clone(), points.clone()),
        Edge { name, points, distance: (3.0_f64.sqrt() * 1000.0).floor() as u64 }
    )
}

#[test]
fn edge_length_sums_the_segments() {
    let edge = building_edge("Line 3", single_edge_points());
    let p = single_edge_points();
    let first = p[0].tangential.distance(&p[1].tangential);
    let second = p[1].tangential.distance(&p[2].tangential);
    assert_eq!(first, 17302);
    assert_eq!(second, 20045);
    assert_eq!(edge.distance, first + second);

    let bent = building_edge(
        "bent",
        vec![
            building_point(0, 0, 0, 0, 0, 0),
            building_point(0, 1, 0, 3000, 4000, 0),
            building_point(0, 2, 0, 3000, 4000, 12000),
            building_point(0, 3, 0, 0, 0, 12000),
        ],
    );
    assert_eq!(bent.distance, 5000 + 12000 + 5000);
}

#[test]
fn vertex_starts_with_fresh_working_storage() {
    let point = building_point(1, 2, 3, 4, 5, 6);
    let vertex = Vertex::new(String::from("Library"), point);
    assert_eq!(vertex.name, "Library");
    assert_eq!(vertex.point, point);
    assert_eq!(vertex.parent_vertex_index, None);
    assert_eq!(vertex.tentative_distance, None);
    assert!(!vertex.visited);
}

#[test]
fn edge_from_connection_index() {
    let graph = single_edge_graph();
    let vertex_index_0 = 0;
    let vertex_index_1 = 1;

    let matrix_index = MatrixIndex { ith: vertex_index_0, jth: vertex_index_1 };

    assert_eq!(&graph.edges[0], matrix_index.edge(&graph));
}

#[test]
fn vertices_from_connection_matrix() {
    let graph = single_edge_graph();

    let matrix_index = MatrixIndex { ith: 0, jth: 1 };

    assert_eq!(matrix_index.vertices(&graph), (&graph.vertices[0], &graph.vertices[1]))
}

#[test]
fn graph_lists_all_its_edges_and_vertices() {
    let graph = triangle_graph();
    let edges = graph.edges(&graph);
    let vertices = graph.vertices(&graph);
    assert_eq!(edges.len(), 3);
    assert_eq!(vertices.len(), 3);
    for i in 0..3 {
        assert_eq!(edges[i], &graph.edges[i]);
        assert_eq!(vertices[i], &graph.vertices[i]);
    }
    assert_eq!(edges[1].name, "Line 5");
    assert_eq!(vertices[2].name, "Point 3");
}

#[test]
fn dangling_edge_is_rejected_with_its_name() {
    let c = triangle_corners();
    let nowhere = building_point(346199999, -1124499999, 1580000, 777, 777, 0);
    let vertices = vec![building_vertex("Point 1", c[0]), building_vertex("Point 2", c[1])];
    let edges = vec![
        building_edge("Line 4", vec![c[0], c[1]]),
        building_edge("Line 9", vec![c[1], nowhere]),
    ];
    assert_eq!(
        connect_vertices_with_edges(edges, vertices),
        Err(Error::DanglingEdge(String::from("Line 9")))
    );
}

#[test]
fn edge_with_a_dangling_start_is_rejected() {
    let c = triangle_corners();
    let nowhere = building_point(346199999, -1124499999, 1580000, 777, 777, 0);
    let vertices = vec![building_vertex("Point 1", c[0]), building_vertex("Point 2", c[1])];
    let edges = vec![building_edge("Line 9", vec![nowhere, c[0]])];
    assert_eq!(
        connect_vertices_with_edges(edges, vertices),
        Err(Error::DanglingEdge(String::from("Line 9")))
    );
}

#[test]
fn edge_that_returns_to_its_start_is_dangling() {
    let c = triangle_corners();
    let vertices = vec![building_vertex("Point 1", c[0]), building_vertex("Point 2", c[1])];
    let edges = vec![building_edge("Loop", vec![c[0], c[1], c[0]])];
    assert_eq!(
        connect_vertices_with_edges(edges, vertices),
        Err(Error::DanglingEdge(String::from("Loop")))
    );
}

#[test]
fn second_edge_between_two_vertices_is_rejected() {
    let c = triangle_corners();
    let detour = building_point(346151111, -1124498888, 1580000, 15000, 9000, 0);
    let vertices = vec![building_vertex("Point 1", c[0]), building_vertex("Point 2", c[1])];
    let edges = vec![
        building_edge("Line 4", vec![c[0], c[1]]),
        building_edge("Line 4b", vec![c[1], detour, c[0]]),
    ];
    assert_eq!(
        connect_vertices_with_edges(edges, vertices),
        Err(Error::ConflictingEdge(String::from("Line 4b")))
    );
}

#[test]
fn first_faulty_edge_is_the_one_reported() {
    let c = triangle_corners();
    let nowhere = building_point(346199999, -1124499999, 1580000, 777, 777, 0);
    let vertices = vec![building_vertex("Point 1", c[0]), building_vertex("Point 2", c[1])];
    let edges = vec![
        building_edge("Line 4", vec![c[0], c[1]]),
        building_edge("Line 4 again", vec![c[0], c[1]]),
        building_edge("Line 9", vec![c[1], nowhere]),
    ];
    assert_eq!(
        connect_vertices_with_edges(edges, vertices),
        Err(Error::ConflictingEdge(String::from("Line 4 again")))
    );
}

#[test]
fn height_does_not_matter_when_attaching_an_edge() {
    let c = triangle_corners();
    let mut start_higher = c[0];
    start_higher.gps.height += 5000;
    let vertices = vec![building_vertex("Point 1", c[0]), building_vertex("Point 2", c[1])];
    let edges = vec![building_edge("Line 4", vec![start_higher, c[1]])];
    let graph = connect_vertices_with_edges(edges, vertices).unwrap();
    assert_eq!(graph.connection_matrix.get(0, 1), Some(0));
}

#[test]
fn of_two_vertices_at_one_place_the_last_is_attached() {
    let c = triangle_corners();
    let vertices = vec![
        building_vertex("Point 1", c[0]),
        building_vertex("Point 1 again", c[0]),
        building_vertex("Point 2", c[1]),
    ];
    let edges = vec![building_edge("Line 4", vec![c[0], c[1]])];
    let graph = connect_vertices_with_edges(edges, vertices).unwrap();
    assert_eq!(graph.connection_matrix.get(1, 2), Some(0));
    assert_eq!(graph.connection_matrix.get(2, 1), Some(0));
    assert_eq!(graph.connection_matrix.get(0, 2), None);
}

#[test]
fn graph_without_vertices_and_edges() {
    let graph = connect_vertices_with_edges(Vec::new(), Vec::new()).unwrap();
    assert_eq!(graph.connection_matrix.nrows(), 0);
    assert_eq!(graph.connection_matrix.ncols(), 0);
    assert_eq!(graph.connection_matrix.get(0, 0), None);
}

#[test]
fn step_knows_whether_an_edge_realises_it() {
    let graph = triangle_graph();
    assert!(MatrixIndex { ith: 0, jth: 1 }.connects(&graph));
    assert!(MatrixIndex { ith: 2, jth: 0 }.connects(&graph));
    assert!(!MatrixIndex { ith: 1, jth: 1 }.connects(&graph));
    assert!(!MatrixIndex { ith: 0, jth: 3 }.connects(&graph));
    assert!(!MatrixIndex { ith: 3, jth: 0 }.connects(&graph));
    let mut fewer_edges = triangle_graph();
    fewer_edges.edges.pop();
    // the cell still names edge 2, which is gone
    assert!(!MatrixIndex { ith: 2, jth: 0 }.connects(&fewer_edges));
    assert!(MatrixIndex { ith: 0, jth: 1 }.connects(&fewer_edges));
}

#[test]
fn matrix_of_a_built_graph_is_well_formed() {
    assert!(triangle_graph().has_well_formed_matrix());
    assert!(single_edge_graph().has_well_formed_matrix());
    assert!(connect_vertices_with_edges(Vec::new(), Vec::new()).unwrap().has_well_formed_matrix());
}

#[test]
fn matrix_that_does_not_fit_the_graph_is_not_well_formed() {
    let mut fewer_vertices = triangle_graph();
    fewer_vertices.vertices.pop();
    assert!(!fewer_vertices.has_well_formed_matrix());
    let mut fewer_edges = triangle_graph();
    fewer_edges.edges.pop();
    assert!(!fewer_edges.has_well_formed_matrix());
    let mut more_vertices = single_edge_graph();
    let extra = building_vertex("Point 3", building_point(1, 1, 1, 1, 1, 1));
    more_vertices.vertices.push(extra);
    assert!(!more_vertices.has_well_formed_matrix());
}

#[test]
fn edge_knows_whether_it_is_well_formed() {
    let mut edge = building_edge("Line 3", single_edge_points());
    assert!(edge.is_well_formed());
    edge.distance += 1;
    assert!(!edge.is_well_formed());
    edge.distance -= 1;
    edge.points.pop();
    assert!(!edge.is_well_formed());
    let single = Edge { name: String::from("dot"), points: vec![single_edge_points()[0]], distance: 0 };
    assert!(!single.is_well_formed());
    let none = Edge { name: String::from("nothing"), points: Vec::new(), distance: 0 };
    assert!(!none.is_well_formed());
}

#[test]
fn built_graph_is_well_formed() {
    assert!(triangle_graph().is_well_formed());
    assert!(single_edge_graph().is_well_formed());
    assert!(connect_vertices_with_edges(Vec::new(), Vec::new()).unwrap().is_well_formed());
}

#[test]
fn graph_changed_by_hand_is_not_well_formed() {
    let mut wrong_length = triangle_graph();
    wrong_length.edges[1].distance = 1;
    assert!(wrong_length.has_well_formed_matrix());
    assert!(!wrong_length.is_well_formed());

    let mut moved_vertex = triangle_graph();
    moved_vertex.vertices[0].point.gps.lat += 1;
    assert!(moved_vertex.has_well_formed_matrix());
    assert!(!moved_vertex.is_well_formed());

    let mut unrecorded_edge = single_edge_graph();
    let extra = building_edge("Line 3 again", single_edge_points());
    unrecorded_edge.edges.push(extra);
    assert!(unrecorded_edge.has_well_formed_matrix());
    assert!(!unrecorded_edge.is_well_formed());

    let mut fewer_edges = triangle_graph();
    fewer_edges.edges.pop();
    assert!(!fewer_edges.is_well_formed());
}

#[test]
fn search_keeps_the_graph_well_formed() {
    let mut graph = triangle_graph();
    graph.shortest_path(0, 2).unwrap();
    assert!(graph.is_well_formed());
}
