//! Containment and empty-engine behaviour. Coordinates are in units of
//! 1e-7 degree throughout.

use reversejp::Point;
use reversejp::Polygon;
use reversejp::ReverseJp;

fn rect(x1: i32, y1: i32, x2: i32, y2: i32) -> Polygon {
    Polygon {
        outer: vec![
            Point { x: x1, y: y2 },
            Point { x: x1, y: y1 },
            Point { x: x2, y: y1 },
            Point { x: x2, y: y2 },
            Point { x: x1, y: y2 },
        ],
        holes: vec![],
    }
}

#[test]
fn test_polygon_contains_point() {
    // the rectangle spanning 90.48826291293898..122.83201291294 degrees of
    // longitude and 27.99437617512571..45.951129815858565 of latitude
    let poly = rect(904882629, 279943761, 1228320129, 459511298);

    // (130.74216916294148, 37.649011392900306) lies east of the box
    assert!(!poly.contains(1307421691, 376490113));
    // (99.9804504129416, 39.70716466970461) lies inside it
    assert!(poly.contains(999804504, 397071646));
}

#[test]
fn test_polygon_hole_excludes() {
    let mut poly = rect(0, 0, 1_000_000, 1_000_000);
    poly.holes.push(vec![
        Point { x: 400_000, y: 400_000 },
        Point { x: 600_000, y: 400_000 },
        Point { x: 600_000, y: 600_000 },
        Point { x: 400_000, y: 600_000 },
    ]);
    // inside the outer ring but outside the hole
    assert!(poly.contains(200_000, 200_000));
    // inside the hole
    assert!(!poly.contains(500_000, 500_000));
    // outside the outer ring
    assert!(!poly.contains(2_000_000, 500_000));
}

#[test]
fn test_new_reverse_jp() {
    let reverse_jp = ReverseJp::new();
    assert_eq!(reverse_jp.polygon_count(), 0);
}

#[test]
fn test_find_properties_empty() {
    let reverse_jp = ReverseJp::new();
    let properties = reverse_jp.find_properties(1397670000, 356812000);
    assert_eq!(properties.len(), 0);
}

#[test]
fn test_find_properties_as_hashmap_empty() {
    let reverse_jp = ReverseJp::new();
    let properties = reverse_jp.find_properties_as_hashmap(1397670000, 356812000);
    assert_eq!(properties.len(), 0);
}

#[test]
fn test_empty_engine_extreme_coordinates() {
    let reverse_jp = ReverseJp::new();
    assert_eq!(reverse_jp.find_properties(0, 0).len(), 0);
    assert_eq!(reverse_jp.find_properties(i32::MAX, i32::MAX).len(), 0);
    assert_eq!(reverse_jp.find_properties(i32::MIN, i32::MIN).len(), 0);
    assert_eq!(reverse_jp.find_properties(i32::MIN, i32::MAX).len(), 0);
    assert!(reverse_jp.find_properties_as_hashmap(0, 0).is_empty());
}

#[test]
fn test_find_deterministic() {
    let mut rj = ReverseJp::new();
    let doc = r#"{"type":"FeatureCollection","features":[
        {"type":"Feature",
         "geometry":{"type":"MultiPolygon","coordinates":[[[[139.0,35.0],[140.0,35.0],[140.0,36.0],[139.0,36.0]]]]},
         "properties":{"code":"130000","name":"A","enName":"B"}}]}"#;
    rj.load_from_str(doc).unwrap();
    let r1 = rj.find_properties(1395000000, 355000000);
    let r2 = rj.find_properties(1395000000, 355000000);
    assert_eq!(r1, r2);
    assert_eq!(r1.len(), 1);
}
