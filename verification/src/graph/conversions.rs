//! From a graph, or a path through it, to the features of a map: one line
//! per edge and one point per vertex, each under its name.

use vstd::prelude::*;

use crate::graph::{Edge, Edges, GPSPointDeg, Graph, Point, Vertex, Vertices};

verus! {

/// What a feature of the map looks like.
#[derive(Debug, PartialEq)]
pub enum Shape {
    /// A line through the given places, in order.
    LineString(Vec<GPSPointDeg>),
    /// A single place.
    Point(GPSPointDeg),
}

/// A named feature of the map.
#[derive(Debug, PartialEq)]
pub struct MapFeature {
    pub id: String,
    pub shape: Shape,
}

/// The places of the given points, in order.
pub open spec fn places_of(points: Seq<Point>) -> Seq<GPSPointDeg> {
    Seq::new(points.len(), |k: int| points[k].gps)
}

impl MapFeature {
    /// The feature is the line of the given edge, under the edge's name.
    pub open spec fn shows_edge(&self, edge: Edge) -> bool {
        &&& self.id@ == edge.name@
        &&& self.shape matches Shape::LineString(places) && places@ == places_of(edge.points@)
    }

    /// The feature is the point of the given vertex, under the vertex's name.
    pub open spec fn shows_vertex(&self, vertex: Vertex) -> bool {
        &&& self.id@ == vertex.name@
        &&& self.shape == Shape::Point(vertex.point.gps)
    }
}

fn line_of(edge: &Edge) -> (feature: MapFeature)
    ensures
        feature.shows_edge(*edge),
{
    let mut places: Vec<GPSPointDeg> = Vec::with_capacity(edge.points.len());
    let mut i: usize = 0;
    while i < edge.points.len()
        invariant
            i <= edge.points@.len(),
            places@.len() == i,
            forall|k: int| 0 <= k < i ==> #[trigger] places@[k] == edge.points@[k].gps,
        decreases edge.points@.len() - i,
    {
        places.push(edge.points[i].gps);
        i = i + 1;
    }
    assert(places@ =~= places_of(edge.points@));
    MapFeature { id: edge.name.clone(), shape: Shape::LineString(places) }
}

/// The features of the map that shows `elements`: first a line for each edge
/// involved, then a point for each vertex involved, each in the order in
/// which `elements` lists them.
pub fn geo_json_features<T>(elements: &T, graph: &Graph) -> (features: Vec<MapFeature>) where
    T: Edges + Vertices,

    requires
        elements.has_edges_in(graph),
        elements.has_vertices_in(graph),
    ensures
        features@.len() == elements.edges_in(graph).len() + elements.vertices_in(graph).len(),
        forall|k: int|
            0 <= k < elements.edges_in(graph).len() ==> (#[trigger] features@[k]).shows_edge(
                elements.edges_in(graph)[k],
            ),
        forall|k: int|
            0 <= k < elements.vertices_in(graph).len() ==> (#[trigger] features@[elements.edges_in(
                graph,
            ).len() + k]).shows_vertex(elements.vertices_in(graph)[k]),
{
    let edges = elements.edges(graph);
    let vertices = elements.vertices(graph);
    let mut features: Vec<MapFeature> = Vec::new();
    let mut i: usize = 0;
    while i < edges.len()
        invariant
            i <= edges@.len(),
            edges@.len() == elements.edges_in(graph).len(),
            forall|k: int|
                0 <= k < edges@.len() ==> *(#[trigger] edges@[k]) == elements.edges_in(graph)[k],
            features@.len() == i,
            forall|k: int|
                0 <= k < i ==> (#[trigger] features@[k]).shows_edge(elements.edges_in(graph)[k]),
        decreases edges@.len() - i,
    {
        let ghost before = features@;
        let edge = edges[i];
        assert(*edge == elements.edges_in(graph)[i as int]);
        features.push(line_of(edge));
        assert forall|k: int| 0 <= k < i + 1 implies (#[trigger] features@[k]).shows_edge(
            elements.edges_in(graph)[k],
        ) by {
            if k < i {
                assert(features@[k] == before[k]);
            }
        }
        i = i + 1;
    }
    let ghost lines = features@;
    let mut j: usize = 0;
    while j < vertices.len()
        invariant
            j <= vertices@.len(),
            vertices@.len() == elements.vertices_in(graph).len(),
            lines.len() == elements.edges_in(graph).len(),
            forall|k: int|
                0 <= k < vertices@.len() ==> *(#[trigger] vertices@[k]) == elements.vertices_in(
                    graph,
                )[k],
            features@.len() == lines.len() + j,
            forall|k: int| 0 <= k < lines.len() ==> #[trigger] features@[k] == lines[k],
            forall|k: int|
                0 <= k < j ==> (#[trigger] features@[lines.len() + k]).shows_vertex(
                    elements.vertices_in(graph)[k],
                ),
        decreases vertices@.len() - j,
    {
        let ghost before = features@;
        let vertex = vertices[j];
        assert(*vertex == elements.vertices_in(graph)[j as int]);
        features.push(MapFeature { id: vertex.name.clone(), shape: Shape::Point(vertex.point.gps) });
        assert forall|k: int| 0 <= k < lines.len() implies #[trigger] features@[k] == lines[k] by {
            assert(features@[k] == before[k]);
        }
        assert forall|k: int| 0 <= k < j + 1 implies (#[trigger] features@[lines.len()
            + k]).shows_vertex(elements.vertices_in(graph)[k]) by {
            if k < j {
                assert(features@[lines.len() + k] == before[lines.len() + k]);
            }
        }
        j = j + 1;
    }
    features
}

} // verus!
