//! Shard ingestion: decompressing a named entry from a compressed
//! archive, and the error kinds that construction can surface.

use vstd::prelude::*;

verus! {

/// What can go wrong while loading a dataset shard.
#[derive(Clone, Copy, Debug, PartialEq, Eq, Structural)]
pub enum DataError {
    /// The named entry is absent from the archive, or the archive is
    /// corrupt (or not valid UTF-8).
    Archive,
    /// The decompressed document is not well-formed against the
    /// feature-collection schema.
    Parse,
    /// A hazard-zone shard index outside the known range 0..=9.
    InvalidIndex,
}

/// The first shard-level failure, which aborts the whole build: no
/// partial engine is ever returned.
#[derive(Clone, Copy, Debug, PartialEq, Eq, Structural)]
pub struct ConstructionError {
    /// Which shard failed: 0 is the regions shard, 1 through 10 the
    /// hazard-zone shards 0 through 9.
    pub shard: usize,
    /// Why it failed.
    pub cause: DataError,
}

/// What decompressing the named entry of an archive yields: the entry's
/// UTF-8 text, or nothing when the entry is absent, the archive corrupt,
/// or the contents not UTF-8. A pure function of the archive bytes and
/// the entry name.
pub uninterp spec fn zip_entry_chars(data: Seq<u8>, name: Seq<char>) -> Option<Seq<char>>;

/// Relies on zip's ZipArchive: `new` reads an archive from bytes,
/// `by_name` finds the named entry, and reading it yields the entry's
/// decompressed contents, a function of the archive bytes and the name
/// alone.
#[verifier::external_body]
pub(crate) fn extract_json_from_zip(zip_data: &Vec<u8>, filename: &str) -> (r: Result<
    String,
    DataError,
>)
    ensures
        (r is Ok) <==> (zip_entry_chars(zip_data@, filename@) is Some),
        r is Ok ==> r.unwrap()@ == zip_entry_chars(zip_data@, filename@).unwrap(),
        r is Err ==> r.unwrap_err() == DataError::Archive,
{
    let cursor = std::io::Cursor::new(zip_data.as_slice());
    let mut archive = zip::ZipArchive::new(cursor).map_err(|_| DataError::Archive)?;
    let mut file = archive.by_name(filename).map_err(|_| DataError::Archive)?;
    let mut contents = String::new();
    std::io::Read::read_to_string(&mut file, &mut contents).map_err(|_| DataError::Archive)?;
    Ok(contents)
}

/// Relies on str::chars: the iterator yields exactly the string's
/// characters, in order.
#[verifier::external_body]
pub(crate) fn str_to_chars(s: &str) -> (r: Vec<char>)
    ensures
        r@ == s@,
{
    s.chars().collect()
}

/// The entry name of the hazard-zone shard with the given index.
pub open spec fn landslide_entry_name(k: int) -> Seq<char> {
    if k == 0 {
        "landslides_0.json"@
    } else if k == 1 {
        "landslides_1.json"@
    } else if k == 2 {
        "landslides_2.json"@
    } else if k == 3 {
        "landslides_3.json"@
    } else if k == 4 {
        "landslides_4.json"@
    } else if k == 5 {
        "landslides_5.json"@
    } else if k == 6 {
        "landslides_6.json"@
    } else if k == 7 {
        "landslides_7.json"@
    } else if k == 8 {
        "landslides_8.json"@
    } else {
        "landslides_9.json"@
    }
}

/// The regions shard: decompress the `class10s.json` entry of the given
/// archive.
pub fn get_class10s_data(archive: &Vec<u8>) -> (r: Result<String, DataError>)
    ensures
        (r is Ok) <==> (zip_entry_chars(archive@, "class10s.json"@) is Some),
        r is Ok ==> r.unwrap()@ == zip_entry_chars(archive@, "class10s.json"@).unwrap(),
        r is Err ==> r.unwrap_err() == DataError::Archive,
{
    extract_json_from_zip(archive, "class10s.json")
}

/// A hazard-zone shard: decompress the `landslides_<idx>.json` entry of
/// the given archive. An index outside 0..=9 is rejected.
pub fn get_landslide_data(archive: &Vec<u8>, idx: usize) -> (r: Result<String, DataError>)
    ensures
        idx >= 10 ==> r == Err::<String, DataError>(DataError::InvalidIndex),
        idx < 10 ==> {
            &&& (r is Ok) <==> (zip_entry_chars(archive@, landslide_entry_name(idx as int))
                is Some)
            &&& r is Ok ==> r.unwrap()@ == zip_entry_chars(
                archive@,
                landslide_entry_name(idx as int),
            ).unwrap()
            &&& r is Err ==> r.unwrap_err() == DataError::Archive
        },
{
    match idx {
        0 => extract_json_from_zip(archive, "landslides_0.json"),
        1 => extract_json_from_zip(archive, "landslides_1.json"),
        2 => extract_json_from_zip(archive, "landslides_2.json"),
        3 => extract_json_from_zip(archive, "landslides_3.json"),
        4 => extract_json_from_zip(archive, "landslides_4.json"),
        5 => extract_json_from_zip(archive, "landslides_5.json"),
        6 => extract_json_from_zip(archive, "landslides_6.json"),
        7 => extract_json_from_zip(archive, "landslides_7.json"),
        8 => extract_json_from_zip(archive, "landslides_8.json"),
        9 => extract_json_from_zip(archive, "landslides_9.json"),
        _ => Err(DataError::InvalidIndex),
    }
}

} // verus!
