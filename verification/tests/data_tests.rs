//! Archive extraction and construction from the fixed shard set, with
//! archives built in memory.

use std::io::Write;

use reversejp::DataError;
use reversejp::ReverseJp;
use reversejp::get_class10s_data;
use reversejp::get_landslide_data;

fn make_zip(entry_name: &str, contents: &str) -> Vec<u8> {
    let cursor = std::io::Cursor::new(Vec::new());
    let mut writer = zip::ZipWriter::new(cursor);
    let options = zip::write::SimpleFileOptions::default()
        .compression_method(zip::CompressionMethod::Deflated);
    writer.start_file(entry_name, options).unwrap();
    writer.write_all(contents.as_bytes()).unwrap();
    writer.finish().unwrap().into_inner()
}

fn empty_collection() -> &'static str {
    "{\"type\":\"FeatureCollection\",\"features\":[]}"
}

fn square_doc(code: &str, name: &str) -> String {
    format!(
        "{{\"type\":\"FeatureCollection\",\"features\":[{{\"type\":\"Feature\",\
         \"geometry\":{{\"type\":\"MultiPolygon\",\
         \"coordinates\":[[[[139.0,35.0],[140.0,35.0],[140.0,36.0],[139.0,36.0]]]]}},\
         \"properties\":{{\"code\":\"{}\",\"name\":\"{}\"}}}}]}}",
        code, name
    )
}

#[test]
fn test_extract_entry() {
    let archive = make_zip("class10s.json", empty_collection());
    let text = get_class10s_data(&archive).unwrap();
    assert_eq!(text, empty_collection());
}

#[test]
fn test_extract_missing_entry() {
    let archive = make_zip("other.json", empty_collection());
    assert_eq!(get_class10s_data(&archive), Err(DataError::Archive));
}

#[test]
fn test_extract_corrupt_archive() {
    let garbage = vec![1u8, 2, 3, 4, 5];
    assert_eq!(get_class10s_data(&garbage), Err(DataError::Archive));
}

#[test]
fn test_landslide_entry_names() {
    let archive = make_zip("landslides_3.json", empty_collection());
    assert!(get_landslide_data(&archive, 3).is_ok());
    // the same archive lacks the entry other indices ask for
    assert_eq!(get_landslide_data(&archive, 4), Err(DataError::Archive));
}

#[test]
fn test_landslide_invalid_index() {
    let archive = make_zip("landslides_0.json", empty_collection());
    assert_eq!(get_landslide_data(&archive, 10), Err(DataError::InvalidIndex));
    assert_eq!(get_landslide_data(&archive, usize::MAX), Err(DataError::InvalidIndex));
}

#[test]
fn test_with_embedded_data_builds() {
    let class10s = make_zip("class10s.json", &square_doc("130000", "T"));
    let landslides: [Vec<u8>; 10] = core::array::from_fn(|i| {
        make_zip(&format!("landslides_{}.json", i), empty_collection())
    });
    let rj = ReverseJp::with_embedded_data(&class10s, &landslides).unwrap();
    assert_eq!(rj.polygon_count(), 1);
    let found = rj.find_properties(1395000000, 355000000);
    assert_eq!(found.len(), 1);
    assert_eq!(found[0].code, "130000");
}

#[test]
fn test_with_embedded_data_reports_failing_shard() {
    let class10s = make_zip("class10s.json", &square_doc("130000", "T"));
    // shard 5 (landslides_4) holds a malformed document
    let landslides: [Vec<u8>; 10] = core::array::from_fn(|i| {
        if i == 4 {
            make_zip("landslides_4.json", "{broken")
        } else {
            make_zip(&format!("landslides_{}.json", i), empty_collection())
        }
    });
    let err = ReverseJp::with_embedded_data(&class10s, &landslides).unwrap_err();
    assert_eq!(err.shard, 5);
    assert_eq!(err.cause, DataError::Parse);

    // a missing entry surfaces as an archive error on the first bad shard
    let bad_first = make_zip("wrong.json", empty_collection());
    let landslides2: [Vec<u8>; 10] = core::array::from_fn(|i| {
        make_zip(&format!("landslides_{}.json", i), empty_collection())
    });
    let err2 = ReverseJp::with_embedded_data(&bad_first, &landslides2).unwrap_err();
    assert_eq!(err2.shard, 0);
    assert_eq!(err2.cause, DataError::Archive);
}

#[test]
fn test_shards_accumulate() {
    let class10s = make_zip("class10s.json", &square_doc("130000", "T"));
    let landslides: [Vec<u8>; 10] = core::array::from_fn(|i| {
        if i == 2 {
            make_zip("landslides_2.json", &square_doc("130000", "slide"))
        } else {
            make_zip(&format!("landslides_{}.json", i), empty_collection())
        }
    });
    let rj = ReverseJp::with_embedded_data(&class10s, &landslides).unwrap();
    assert_eq!(rj.polygon_count(), 2);
    // the same code from two shards: the sequence keeps both, the map
    // keeps the later one
    let seq = rj.find_properties(1395000000, 355000000);
    assert_eq!(seq.len(), 2);
    assert_eq!(seq[0].name, "T");
    assert_eq!(seq[1].name, "slide");
    let map = rj.find_properties_as_hashmap(1395000000, 355000000);
    assert_eq!(map.len(), 1);
    let key = String::from("130000");
    assert_eq!(map.get(&key).unwrap().name, "slide");
}
