//! The document grammar: accepted documents, value decoding, rejected
//! documents, and the map presentation of query results.

use reversejp::DataError;
use reversejp::ReverseJp;

fn one_feature_doc(coords: &str, props: &str) -> String {
    format!(
        "{{\"type\":\"FeatureCollection\",\"features\":[{{\"type\":\"Feature\",\
         \"geometry\":{{\"type\":\"MultiPolygon\",\"coordinates\":{}}},\
         \"properties\":{}}}]}}",
        coords, props
    )
}

fn square_around(lon: &str, lat: &str, lon2: &str, lat2: &str) -> String {
    format!(
        "[[[[{a},{b}],[{c},{b}],[{c},{d}],[{a},{d}]]]]",
        a = lon,
        b = lat,
        c = lon2,
        d = lat2
    )
}

#[test]
fn test_load_one_feature() {
    let mut rj = ReverseJp::new();
    let coords = square_around("139.0", "35.0", "140.0", "36.0");
    let doc = one_feature_doc(&coords, "{\"code\":\"130000\",\"name\":\"東京都\",\"enName\":\"Tokyo\"}");
    rj.load_from_str(&doc).unwrap();
    assert_eq!(rj.polygon_count(), 1);
    let found = rj.find_properties(1395000000, 355000000);
    assert_eq!(found.len(), 1);
    assert_eq!(found[0].code, "130000");
    assert_eq!(found[0].name, "東京都");
    assert_eq!(found[0].en_name, "Tokyo");
}

#[test]
fn test_en_name_defaults_to_empty() {
    let mut rj = ReverseJp::new();
    let coords = square_around("10.0", "10.0", "11.0", "11.0");
    let doc = one_feature_doc(&coords, "{\"code\":\"X\",\"name\":\"N\"}");
    rj.load_from_str(&doc).unwrap();
    let found = rj.find_properties(105000000, 105000000);
    assert_eq!(found.len(), 1);
    assert_eq!(found[0].en_name, "");
}

#[test]
fn test_other_geometry_type_skipped() {
    let mut rj = ReverseJp::new();
    let doc = "{\"type\":\"FeatureCollection\",\"features\":[{\"type\":\"Feature\",\
        \"geometry\":{\"type\":\"Point\",\"coordinates\":[139.0,35.0]},\
        \"properties\":{\"code\":\"X\",\"name\":\"N\"}}]}";
    rj.load_from_str(doc).unwrap();
    assert_eq!(rj.polygon_count(), 0);
}

#[test]
fn test_multi_part_feature_shares_properties() {
    let mut rj = ReverseJp::new();
    // two disjoint squares in one MultiPolygon feature
    let coords = "[[[[1.0,1.0],[2.0,1.0],[2.0,2.0],[1.0,2.0]]],\
                   [[[5.0,5.0],[6.0,5.0],[6.0,6.0],[5.0,6.0]]]]";
    let doc = one_feature_doc(coords, "{\"code\":\"C\",\"name\":\"N\"}");
    rj.load_from_str(&doc).unwrap();
    assert_eq!(rj.polygon_count(), 2);
    let a = rj.find_properties(15000000, 15000000);
    let b = rj.find_properties(55000000, 55000000);
    assert_eq!(a.len(), 1);
    assert_eq!(b.len(), 1);
    assert_eq!(a[0], b[0]);
}

#[test]
fn test_malformed_json_rejected() {
    let mut rj = ReverseJp::new();
    assert_eq!(rj.load_from_str("not json"), Err(DataError::Parse));
    assert_eq!(rj.load_from_str(""), Err(DataError::Parse));
    assert_eq!(rj.load_from_str("{\"type\":\"x\"}"), Err(DataError::Parse));
    assert_eq!(rj.load_from_str("{\"features\":[]}"), Err(DataError::Parse));
    // trailing garbage after the document
    assert_eq!(
        rj.load_from_str("{\"type\":\"x\",\"features\":[]} x"),
        Err(DataError::Parse)
    );
    // a failed load leaves the index unchanged
    assert_eq!(rj.polygon_count(), 0);
}

#[test]
fn test_missing_required_property_rejected() {
    let mut rj = ReverseJp::new();
    let coords = square_around("1.0", "1.0", "2.0", "2.0");
    let doc = one_feature_doc(&coords, "{\"name\":\"N\"}");
    assert_eq!(rj.load_from_str(&doc), Err(DataError::Parse));
    let doc2 = one_feature_doc(&coords, "{\"code\":\"C\"}");
    assert_eq!(rj.load_from_str(&doc2), Err(DataError::Parse));
}

#[test]
fn test_duplicate_member_rejected() {
    let mut rj = ReverseJp::new();
    let coords = square_around("1.0", "1.0", "2.0", "2.0");
    let doc = one_feature_doc(&coords, "{\"code\":\"C\",\"code\":\"D\",\"name\":\"N\"}");
    assert_eq!(rj.load_from_str(&doc), Err(DataError::Parse));
}

#[test]
fn test_unknown_members_skipped() {
    let mut rj = ReverseJp::new();
    let doc = "{\"type\":\"FeatureCollection\",\"extra\":[1,2,{\"a\":null}],\
        \"features\":[{\"type\":\"Feature\",\"bbox\":[0,0,1,1],\
        \"geometry\":{\"type\":\"MultiPolygon\",\"crs\":true,\
        \"coordinates\":[[[[1.0,1.0],[2.0,1.0],[2.0,2.0],[1.0,2.0]]]]},\
        \"properties\":{\"code\":\"C\",\"name\":\"N\",\"note\":\"x\"}}]}";
    rj.load_from_str(doc).unwrap();
    assert_eq!(rj.polygon_count(), 1);
}

#[test]
fn test_number_decoding_exact() {
    let mut rj = ReverseJp::new();
    // a thin box whose west edge sits at exactly 139.7669999 degrees
    let coords = square_around("139.7669999", "35.6811999", "139.7670001", "35.6812001");
    let doc = one_feature_doc(&coords, "{\"code\":\"C\",\"name\":\"N\"}");
    rj.load_from_str(&doc).unwrap();
    // the exact centre (139.7670000, 35.6812000) must match without probes
    let found = rj.find_properties(1397670000, 356812000);
    assert_eq!(found.len(), 1);
}

#[test]
fn test_number_exponent_and_sign() {
    let mut rj = ReverseJp::new();
    // 1.0e1 = 10 degrees; -2.5E1 = -25 degrees
    let coords = "[[[[1.0e1,-2.5E1],[2.0e1,-2.5E1],[2.0e1,-1.5E1],[1.0e1,-1.5E1]]]]";
    let doc = one_feature_doc(coords, "{\"code\":\"C\",\"name\":\"N\"}");
    rj.load_from_str(&doc).unwrap();
    let found = rj.find_properties(150000000, -200000000);
    assert_eq!(found.len(), 1);
}

#[test]
fn test_number_bad_forms_rejected() {
    let mut rj = ReverseJp::new();
    for bad in ["01", "1.", ".5", "1e", "+1", "--1", "1.2.3"] {
        let coords = format!("[[[[{},1.0],[2.0,1.0],[2.0,2.0]]]]", bad);
        let doc = one_feature_doc(&coords, "{\"code\":\"C\",\"name\":\"N\"}");
        assert_eq!(rj.load_from_str(&doc), Err(DataError::Parse), "accepted {}", bad);
    }
}

#[test]
fn test_string_escapes() {
    let mut rj = ReverseJp::new();
    let coords = square_around("1.0", "1.0", "2.0", "2.0");
    // the BMP escapes decode to 東京, the surrogate pair to an emoji,
    // and the single-character escapes to themselves
    let doc = one_feature_doc(
        &coords,
        "{\"code\":\"\\u6771\\u4eac\",\"name\":\"a\\\"b\\\\c\\nd\",\"enName\":\"\\uD83D\\uDE00\"}",
    );
    rj.load_from_str(&doc).unwrap();
    let found = rj.find_properties(15000000, 15000000);
    assert_eq!(found.len(), 1);
    assert_eq!(found[0].code, "東京");
    assert_eq!(found[0].name, "a\"b\\c\nd");
    assert_eq!(found[0].en_name, "😀");
}

#[test]
fn test_map_view_last_write_wins() {
    let mut rj = ReverseJp::new();
    // two features with the same code but different names, both holding
    // the query point
    let doc = "{\"type\":\"FeatureCollection\",\"features\":[\
        {\"type\":\"Feature\",\"geometry\":{\"type\":\"MultiPolygon\",\
         \"coordinates\":[[[[1.0,1.0],[2.0,1.0],[2.0,2.0],[1.0,2.0]]]]},\
         \"properties\":{\"code\":\"C\",\"name\":\"first\"}},\
        {\"type\":\"Feature\",\"geometry\":{\"type\":\"MultiPolygon\",\
         \"coordinates\":[[[[1.0,1.0],[2.0,1.0],[2.0,2.0],[1.0,2.0]]]]},\
         \"properties\":{\"code\":\"C\",\"name\":\"second\"}}]}";
    rj.load_from_str(doc).unwrap();
    let seq = rj.find_properties(15000000, 15000000);
    assert_eq!(seq.len(), 2);
    let map = rj.find_properties_as_hashmap(15000000, 15000000);
    // the key set is the distinct codes, smaller than the sequence
    assert_eq!(map.len(), 1);
    let key = String::from("C");
    let got = map.get(&key).unwrap();
    assert_eq!(got.name, "second");
}

#[test]
fn test_map_view_distinct_codes() {
    let mut rj = ReverseJp::new();
    let doc = "{\"type\":\"FeatureCollection\",\"features\":[\
        {\"type\":\"Feature\",\"geometry\":{\"type\":\"MultiPolygon\",\
         \"coordinates\":[[[[1.0,1.0],[2.0,1.0],[2.0,2.0],[1.0,2.0]]]]},\
         \"properties\":{\"code\":\"A\",\"name\":\"a\"}},\
        {\"type\":\"Feature\",\"geometry\":{\"type\":\"MultiPolygon\",\
         \"coordinates\":[[[[1.0,1.0],[2.0,1.0],[2.0,2.0],[1.0,2.0]]]]},\
         \"properties\":{\"code\":\"B\",\"name\":\"b\"}}]}";
    rj.load_from_str(doc).unwrap();
    let seq = rj.find_properties(15000000, 15000000);
    let map = rj.find_properties_as_hashmap(15000000, 15000000);
    // no duplicate codes: the map is as large as the sequence
    assert_eq!(map.len(), seq.len());
    let ka = String::from("A");
    let kb = String::from("B");
    let kc = String::from("C");
    assert_eq!(map.get(&ka).unwrap().name, "a");
    assert_eq!(map.get(&kb).unwrap().name, "b");
    assert!(map.get(&kc).is_none());
    let held = map.records();
    assert_eq!(held.len(), 2);
    assert_ne!(held[0].code, held[1].code);
}

#[test]
fn test_probe_ordering_fallback() {
    let mut rj = ReverseJp::new();
    // one polygon containing the point shifted by (+0.002, 0.0) but not
    // the exact query point nor any smaller-offset probe
    let coords = square_around("139.0015", "34.9990", "139.0025", "35.0010");
    let doc = one_feature_doc(&coords, "{\"code\":\"C\",\"name\":\"N\"}");
    rj.load_from_str(&doc).unwrap();
    let exact = (1390000000, 350000000);
    // the polygon does not contain the exact point
    let probed = rj.find_properties(exact.0, exact.1);
    assert_eq!(probed.len(), 1);
    assert_eq!(probed[0].code, "C");
    // while a far-away point stays unmatched
    assert_eq!(rj.find_properties(1500000000, 350000000).len(), 0);
}
