use geojson::{feature::Id, Feature, FeatureCollection, Geometry, Value};

use guidance::graph::conversions::{geo_json_features, MapFeature, Shape};
use guidance::graph::{
    connect_vertices_with_edges, Edge, GPSPointDeg, Graph, MatrixIndex, Point, TangentialPoint,
    Vertex,
};
use guidance::path_planning::Path;

fn feature_point(lat: i32, long: i32, x: i32, y: i32, z: i32) -> Point {
    Point {
        gps: GPSPointDeg { lat, long, height: 1580000 },
        tangential: TangentialPoint::new(x, y, z),
    }
}

/// One edge, "Line 3", between "Point 1" and "Point 2".
fn feature_single_edge_graph() -> Graph {
    let points = vec![
        feature_point(346158710, -1124484608, -120162, -229403, -1555),
        feature_point(346157165, -1124484635, -102862, -229155, -1663),
        feature_point(346155377, -1124484742, -82841, -228174, -1788),
    ];
    let vertices = vec![
        Vertex::new(String::from("Point 1"), points[0]),
        Vertex::new(String::from("Point 2"), points[2]),
    ];
    let edges = vec![Edge::new(String::from("Line 3"), points)];
    connect_vertices_with_edges(edges, vertices).unwrap()
}

fn feature_position(place: GPSPointDeg) -> Vec<f64> {
    vec![place.long as f64 / 1e7, place.lat as f64 / 1e7]
}

/// The features as GeoJSON text.
fn feature_text(features: Vec<MapFeature>) -> String {
    let features = features
        .into_iter()
        .map(|feature| {
            let geometry = Geometry::new(match feature.shape {
                Shape::LineString(places) => {
                    Value::LineString(places.into_iter().map(feature_position).collect())
                }
                Shape::Point(place) => Value::Point(feature_position(place)),
            });
            Feature {
                bbox: None,
                geometry: Some(geometry),
                id: Some(Id::String(feature.id)),
                properties: None,
                foreign_members: None,
            }
        })
        .collect();
    FeatureCollection { bbox: None, features, foreign_members: None }.to_string()
}

#[test]
fn graph_to_geo_json_string() {
    let graph = feature_single_edge_graph();

    let json_string = feature_text(geo_json_features(&graph, &graph));
    let expected_json_string = r#"{"features":[{"geometry":{"coordinates":[[-112.4484608,34.615871],[-112.4484635,34.6157165],[-112.4484742,34.6155377]],"type":"LineString"},"id":"Line 3","properties":{},"type":"Feature"},{"geometry":{"coordinates":[-112.4484608,34.615871],"type":"Point"},"id":"Point 1","properties":{},"type":"Feature"},{"geometry":{"coordinates":[-112.4484742,34.6155377],"type":"Point"},"id":"Point 2","properties":{},"type":"Feature"}],"type":"FeatureCollection"}"#;

    assert_eq!(json_string, expected_json_string);
}

#[test]
fn features_of_a_graph_are_its_edges_and_then_its_vertices() {
    let graph = feature_single_edge_graph();
    let features = geo_json_features(&graph, &graph);
    let place = |k: usize| graph.edges[0].points[k].gps;
    assert_eq!(
        features,
        vec![
            MapFeature {
                id: String::from("Line 3"),
                shape: Shape::LineString(vec![place(0), place(1), place(2)]),
            },
            MapFeature { id: String::from("Point 1"), shape: Shape::Point(place(0)) },
            MapFeature { id: String::from("Point 2"), shape: Shape::Point(place(2)) },
        ]
    );
}

#[test]
fn features_of_a_path_are_the_edges_and_vertices_along_it() {
    let graph = feature_single_edge_graph();
    let there_and_back = Path {
        indices: vec![MatrixIndex { ith: 1, jth: 0 }, MatrixIndex { ith: 0, jth: 1 }],
    };
    let ids: Vec<String> =
        geo_json_features(&there_and_back, &graph).into_iter().map(|feature| feature.id).collect();
    assert_eq!(ids, ["Line 3", "Line 3", "Point 2", "Point 1", "Point 2"]);
    let nothing = Path { indices: Vec::new() };
    assert!(geo_json_features(&nothing, &graph).is_empty());
}
