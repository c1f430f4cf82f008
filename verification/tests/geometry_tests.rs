use dfuji::bins::group_by_bin;
use dfuji::geometry::{geometry_of, Geometry};
use dfuji::ring::{assemble_ring, BinEdge};

fn to_geojson(coords: &[(f64, f64)]) -> String {
    let ends_meet = !coords.is_empty() && coords[0] == coords[coords.len() - 1];
    let pos = |&(lon, lat): &(f64, f64)| vec![lon, lat];
    let features = match geometry_of(&coords.to_vec(), ends_meet) {
        Geometry::Empty => Vec::new(),
        Geometry::Point(p) => vec![geojson::Value::Point(pos(&p))],
        Geometry::LineString(line) => vec![geojson::Value::LineString(line.iter().map(pos).collect())],
        Geometry::Polygon(ring) => vec![geojson::Value::Polygon(vec![ring.iter().map(pos).collect()])],
    };
    let collection = geojson::FeatureCollection {
        features: features
            .into_iter()
            .map(|value| geojson::Feature {
                geometry: Some(geojson::Geometry::new(value)),
                properties: None,
                id: None,
                bbox: None,
                foreign_members: None,
            })
            .collect(),
        bbox: None,
        foreign_members: None,
    };
    geojson::GeoJson::from(collection).to_string()
}

#[test]
fn test_vec2geojson_open_polygon() {
    let coords = vec![(139.0, 35.0), (140.0, 36.0), (141.0, 35.5)];
    let geojson_str = to_geojson(&coords);
    let expected = r#"{"type":"FeatureCollection","features":[{"type":"Feature","geometry":{"type":"Polygon","coordinates":[[[139.0,35.0],[140.0,36.0],[141.0,35.5],[139.0,35.0]]]},"properties":null}]}"#;
    assert_eq!(geojson_str, expected);
}

#[test]
fn test_vec2geojson_already_closed_polygon() {
    let coords = vec![(139.0, 35.0), (140.0, 36.0), (139.0, 35.0)];
    let geojson_str = to_geojson(&coords);
    let expected = r#"{"type":"FeatureCollection","features":[{"type":"Feature","geometry":{"type":"Polygon","coordinates":[[[139.0,35.0],[140.0,36.0],[139.0,35.0]]]},"properties":null}]}"#;
    assert_eq!(geojson_str, expected);
}

#[test]
fn geometry_of_few_coordinates() {
    assert!(matches!(geometry_of::<u8>(&Vec::new(), false), Geometry::Empty));
    assert!(matches!(geometry_of(&vec![7u8], false), Geometry::Point(7)));
    match geometry_of(&vec![1u8, 2], false) {
        Geometry::LineString(line) => assert_eq!(line, vec![1, 2]),
        _ => panic!("two coordinates make a line"),
    }
    assert_eq!(to_geojson(&[]), r#"{"type":"FeatureCollection","features":[]}"#);
}

#[test]
fn ring_goes_out_along_far_and_back_along_near() {
    let edges: Vec<BinEdge<u32>> = (0..4).map(|i| BinEdge { near: i, far: 10 + i }).collect();
    assert_eq!(assemble_ring(&edges), vec![10, 11, 12, 13, 3, 2, 1, 0]);
}

#[test]
fn ring_needs_three_bins() {
    let edges: Vec<BinEdge<u32>> = (0..2).map(|i| BinEdge { near: i, far: 10 + i }).collect();
    assert!(assemble_ring(&edges).is_empty());
    let edges: Vec<BinEdge<u32>> = (0..3).map(|i| BinEdge { near: i, far: 10 + i }).collect();
    assert_eq!(assemble_ring(&edges), vec![10, 11, 12, 2, 1, 0]);
}

#[test]
fn samples_group_into_ordered_bins() {
    let samples = vec![(2, 300), (-1, 50), (2, 100), (0, 7), (2, 300), (-1, 40), (2, 200)];
    let bins = group_by_bin(&samples);
    let got: Vec<(i32, Vec<i64>)> = bins.into_iter().map(|b| (b.key, b.times)).collect();
    assert_eq!(
        got,
        vec![(-1, vec![40, 50]), (0, vec![7]), (2, vec![100, 200, 300])]
    );
    assert!(group_by_bin(&Vec::new()).is_empty());
}
