//! The spatial index and the boundary-tolerant probe search.

use vstd::prelude::*;
use crate::geometry::Polygon;
use crate::geometry::polygon_contains;
use crate::geojson::PolySpec;
use crate::geojson::PropsSpec;
use crate::geojson::entries_view;
use crate::geojson::parse_doc;
use crate::geojson::parse_document_exec;
use crate::ingest::ConstructionError;
use crate::ingest::DataError;
use crate::ingest::get_class10s_data;
use crate::ingest::get_landslide_data;
use crate::ingest::landslide_entry_name;
use crate::ingest::str_to_chars;
use crate::ingest::zip_entry_chars;
use crate::propmap::PropertiesMap;
use crate::propmap::map_of;
use crate::props::Properties;

verus! {

/// The probe offset sequence, in units of 1e-7 degree: 0, +0.001, -0.001,
/// +0.002, -0.002, +0.005 and -0.005 degrees, smallest magnitude first.
pub open spec fn shift(k: int) -> int {
    if k == 0 {
        0
    } else if k == 1 {
        10_000
    } else if k == 2 {
        -10_000
    } else if k == 3 {
        20_000
    } else if k == 4 {
        -20_000
    } else if k == 5 {
        50_000
    } else {
        -50_000
    }
}

/// The records of the first `k` index entries whose polygon contains
/// `(px, py)`, in index order, duplicates kept.
pub open spec fn matches_upto(
    entries: Seq<(Polygon, Properties)>,
    px: int,
    py: int,
    k: int,
) -> Seq<Properties>
    decreases k,
{
    if k <= 0 {
        Seq::empty()
    } else {
        matches_upto(entries, px, py, k - 1) + (if polygon_contains(entries[k - 1].0, px, py) {
            seq![entries[k - 1].1]
        } else {
            Seq::empty()
        })
    }
}

/// The records of every index entry whose polygon contains `(px, py)`,
/// in index order, duplicates kept.
pub open spec fn matches_at(
    entries: Seq<(Polygon, Properties)>,
    px: int,
    py: int,
) -> Seq<Properties> {
    matches_upto(entries, px, py, entries.len() as int)
}

/// The probe search from combination `k` on. Combination `k` of the 49
/// probes perturbs the longitude by `shift(k / 7)` and the latitude by
/// `shift(k % 7)`, so the longitude offset is the outer loop and the
/// latitude offset the inner one, both in the literal offset order. The
/// first combination with a non-empty match set decides the result; when
/// all 49 come up empty the result is empty.
pub open spec fn probe_from(
    entries: Seq<(Polygon, Properties)>,
    x: int,
    y: int,
    k: int,
) -> Seq<Properties>
    decreases 49 - k,
{
    if k < 0 || k >= 49 {
        Seq::empty()
    } else {
        let m = matches_at(entries, x + shift(k / 7), y + shift(k % 7));
        if m.len() > 0 {
            m
        } else {
            probe_from(entries, x, y, k + 1)
        }
    }
}

/// What a query returns: the first non-empty probe result over the 49
/// probe combinations, tried in their fixed order.
pub open spec fn find_spec(entries: Seq<(Polygon, Properties)>, x: int, y: int) -> Seq<
    Properties,
> {
    probe_from(entries, x, y, 0)
}

/// The reverse-geocoding engine: an immutable flat list of polygons, each
/// carrying the record of the region it belongs to. Built by ingesting
/// dataset shards, then queried read-only.
#[derive(Debug)]
pub struct ReverseJp {
    polygons: Vec<(Polygon, Properties)>,
}

fn shift_exec(j: usize) -> (r: i64)
    requires
        j < 7,
    ensures
        r == shift(j as int),
{
    if j == 0 {
        0
    } else if j == 1 {
        10_000
    } else if j == 2 {
        -10_000
    } else if j == 3 {
        20_000
    } else if j == 4 {
        -20_000
    } else if j == 5 {
        50_000
    } else {
        -50_000
    }
}

impl ReverseJp {
    /// The index contents: the (polygon, record) entries in ingestion order.
    pub closed spec fn entries(&self) -> Seq<(Polygon, Properties)> {
        self.polygons@
    }

    /// Create an engine with no data.
    pub fn new() -> (r: ReverseJp)
        ensures
            r.entries() == Seq::<(Polygon, Properties)>::empty(),
    {
        ReverseJp { polygons: Vec::new() }
    }

    /// The number of polygon entries in the index.
    pub fn polygon_count(&self) -> (n: usize)
        ensures
            n == self.entries().len(),
    {
        self.polygons.len()
    }

    fn matches_exec(&self, px: i64, py: i64) -> (r: Vec<Properties>)
        ensures
            r@ == matches_at(self.entries(), px as int, py as int),
    {
        let n: usize = self.polygons.len();
        let mut acc: Vec<Properties> = Vec::new();
        let mut i: usize = 0;
        while i < n
            invariant
                i <= n,
                n == self.polygons@.len(),
                acc@ == matches_upto(self.polygons@, px as int, py as int, i as int),
            decreases n - i,
        {
            let ghost acc0 = acc@;
            if self.polygons[i].0.contains(px, py) {
                let p = self.polygons[i].1.duplicate();
                acc.push(p);
            }
            proof {
                assert(matches_upto(self.polygons@, px as int, py as int, i as int + 1)
                    == matches_upto(self.polygons@, px as int, py as int, i as int) + (
                if polygon_contains(self.polygons@[i as int].0, px as int, py as int) {
                    seq![self.polygons@[i as int].1]
                } else {
                    Seq::empty()
                }));
                if polygon_contains(self.polygons@[i as int].0, px as int, py as int) {
                    assert(acc@ =~= acc0 + seq![self.polygons@[i as int].1]);
                } else {
                    assert(acc@ =~= acc0 + Seq::<Properties>::empty());
                }
            }
            i = i + 1;
        }
        acc
    }

    /// Find every region containing the queried coordinate, probing the 49
    /// offset combinations in order and returning the first non-empty match
    /// set; the result keeps index order and duplicates. `longitude` and
    /// `latitude` are in units of 1e-7 degree.
    pub fn find_properties(&self, longitude: i32, latitude: i32) -> (r: Vec<Properties>)
        ensures
            r@ == find_spec(self.entries(), longitude as int, latitude as int),
    {
        let mut k: usize = 0;
        while k < 49
            invariant
                k <= 49,
                probe_from(self.entries(), longitude as int, latitude as int, 0) == probe_from(
                    self.entries(),
                    longitude as int,
                    latitude as int,
                    k as int,
                ),
            decreases 49 - k,
        {
            let dx: i64 = shift_exec(k / 7);
            let dy: i64 = shift_exec(k % 7);
            let px: i64 = longitude as i64 + dx;
            let py: i64 = latitude as i64 + dy;
            let m = self.matches_exec(px, py);
            if m.len() > 0 {
                return m;
            }
            k = k + 1;
        }
        Vec::new()
    }

    /// Find every region containing the queried coordinate and present the
    /// result as a map keyed by region code, built by inserting the
    /// sequence returned by `find_properties` in order: when two records
    /// share a code the later one wins, so the map drops duplicates that
    /// the sequence keeps. `longitude` and `latitude` are in units of
    /// 1e-7 degree.
    pub fn find_properties_as_hashmap(&self, longitude: i32, latitude: i32) -> (r: PropertiesMap)
        ensures
            r.wf(),
            r@ == map_of(find_spec(self.entries(), longitude as int, latitude as int)),
    {
        let results = self.find_properties(longitude, latitude);
        let n: usize = results.len();
        let mut m = PropertiesMap::new();
        let mut j: usize = 0;
        proof {
            assert(results@.take(0) =~= Seq::<Properties>::empty());
        }
        while j < n
            invariant
                j <= n,
                n == results@.len(),
                m.wf(),
                m@ == map_of(results@.take(j as int)),
            decreases n - j,
        {
            let p = results[j].duplicate();
            m.insert(p);
            proof {
                assert(results@.take(j as int + 1).drop_last() =~= results@.take(j as int));
                assert(results@.take(j as int + 1).last() == results@[j as int]);
            }
            j = j + 1;
        }
        proof {
            assert(results@.take(n as int) =~= results@);
        }
        m
    }
}

/// The byte views of a sequence of shard archives.
pub open spec fn shards_view(a: Seq<Vec<u8>>) -> Seq<Seq<u8>> {
    a.map_values(|v: Vec<u8>| v@)
}

/// The document text of shard `k` of the embedded set: shard 0 is the
/// regions shard (entry `class10s.json` of the first archive), shards 1
/// through 10 the hazard-zone shards (entry `landslides_<k-1>.json` of
/// the matching archive).
pub open spec fn shard_doc(class10s: Seq<u8>, lands: Seq<Seq<u8>>, k: int) -> Option<Seq<char>> {
    if k == 0 {
        zip_entry_chars(class10s, "class10s.json"@)
    } else {
        zip_entry_chars(lands[k - 1], landslide_entry_name(k - 1))
    }
}

/// What loading shard `k` alone yields: its entries, or the error kind
/// of the first stage that fails (decompression, then parsing).
pub open spec fn shard_step(class10s: Seq<u8>, lands: Seq<Seq<u8>>, k: int) -> Result<
    Seq<(PolySpec, PropsSpec)>,
    DataError,
> {
    match shard_doc(class10s, lands, k) {
        None => Err(DataError::Archive),
        Some(doc) => match parse_doc(doc) {
            None => Err(DataError::Parse),
            Some(es) => Ok(es),
        },
    }
}

/// Loading the first `k` shards in order: the concatenation of their
/// entries, or the first shard-level failure, which aborts the build.
pub open spec fn build_upto(class10s: Seq<u8>, lands: Seq<Seq<u8>>, k: int) -> Result<
    Seq<(PolySpec, PropsSpec)>,
    ConstructionError,
>
    decreases k,
{
    if k <= 0 {
        Ok(Seq::empty())
    } else {
        match build_upto(class10s, lands, k - 1) {
            Err(e) => Err(e),
            Ok(acc) => match shard_step(class10s, lands, k - 1) {
                Err(c) => Err(ConstructionError { shard: (k - 1) as usize, cause: c }),
                Ok(es) => Ok(acc + es),
            },
        }
    }
}

/// Once some shard has failed, loading further shards changes nothing:
/// the build keeps the first failure.
pub proof fn lemma_build_err_persists(class10s: Seq<u8>, lands: Seq<Seq<u8>>, k: int, k2: int)
    requires
        0 <= k <= k2,
        build_upto(class10s, lands, k) is Err,
    ensures
        build_upto(class10s, lands, k2) == build_upto(class10s, lands, k),
    decreases k2 - k,
{
    if k < k2 {
        lemma_build_err_persists(class10s, lands, k, k2 - 1);
    }
}

impl Default for ReverseJp {
    /// An engine with no data.
    fn default() -> (r: ReverseJp)
        ensures
            r.entries() == Seq::<(Polygon, Properties)>::empty(),
    {
        ReverseJp::new()
    }
}

impl ReverseJp {
    /// Load one dataset shard document, appending its entries to the
    /// index. A malformed document is rejected and leaves the index
    /// unchanged.
    pub fn load_from_str(&mut self, json_str: &str) -> (r: Result<(), DataError>)
        ensures
            match parse_doc(json_str@) {
                Some(es) => {
                    &&& r is Ok
                    &&& entries_view(final(self).entries()) == entries_view(old(self).entries())
                        + es
                },
                None => {
                    &&& r == Err::<(), DataError>(DataError::Parse)
                    &&& final(self).entries() == old(self).entries()
                },
            },
    {
        let chars = str_to_chars(json_str);
        match parse_document_exec(&chars) {
            None => Err(DataError::Parse),
            Some(mut entries) => {
                let ghost added = entries@;
                self.polygons.append(&mut entries);
                proof {
                    assert(entries_view(self.polygons@) =~= entries_view(old(self).polygons@)
                        + entries_view(added));
                }
                Ok(())
            },
        }
    }

    /// Build an engine from the fixed, known set of dataset shards: one
    /// regions archive plus the ten hazard-zone archives, loaded in
    /// order. The first shard that fails to decompress or parse aborts
    /// the whole build with a typed error naming it; no partial engine
    /// is ever returned.
    #[verifier::rlimit(100)]
    #[verifier::spinoff_prover]
    pub fn with_embedded_data(class10s: &Vec<u8>, landslides: &[Vec<u8>; 10]) -> (r: Result<
        ReverseJp,
        ConstructionError,
    >)
        ensures
            match build_upto(class10s@, shards_view(landslides@), 11) {
                Ok(es) => {
                    &&& r is Ok
                    &&& entries_view(r.unwrap().entries()) == es
                },
                Err(e) => r == Err::<ReverseJp, ConstructionError>(e),
            },
    {
        let ghost c = class10s@;
        let ghost l = shards_view(landslides@);
        let mut rj = ReverseJp::new();
        proof {
            assert(entries_view(rj.entries()) =~= Seq::<(PolySpec, PropsSpec)>::empty());
            assert(build_upto(c, l, 0) == Ok::<Seq<(PolySpec, PropsSpec)>, ConstructionError>(
                Seq::empty(),
            ));
        }
        let doc0 = match get_class10s_data(class10s) {
            Ok(d) => d,
            Err(e) => {
                proof {
                    assert(shard_step(c, l, 0) == Err::<Seq<(PolySpec, PropsSpec)>, DataError>(
                        e,
                    ));
                    assert(build_upto(c, l, 1) == Err::<
                        Seq<(PolySpec, PropsSpec)>,
                        ConstructionError,
                    >(ConstructionError { shard: 0, cause: e }));
                    lemma_build_err_persists(c, l, 1, 11);
                }
                return Err(ConstructionError { shard: 0, cause: e });
            },
        };
        match rj.load_from_str(doc0.as_str()) {
            Ok(()) => {
                proof {
                    assert(shard_step(c, l, 0) == Ok::<Seq<(PolySpec, PropsSpec)>, DataError>(
                        parse_doc(doc0@).unwrap(),
                    ));
                    assert(Seq::<(PolySpec, PropsSpec)>::empty() + parse_doc(
                        doc0@,
                    ).unwrap() =~= parse_doc(doc0@).unwrap());
                    assert(build_upto(c, l, 1) == Ok::<
                        Seq<(PolySpec, PropsSpec)>,
                        ConstructionError,
                    >(entries_view(rj.entries())));
                }
            },
            Err(e) => {
                proof {
                    assert(shard_step(c, l, 0) == Err::<Seq<(PolySpec, PropsSpec)>, DataError>(
                        e,
                    ));
                    assert(build_upto(c, l, 1) == Err::<
                        Seq<(PolySpec, PropsSpec)>,
                        ConstructionError,
                    >(ConstructionError { shard: 0, cause: e }));
                    lemma_build_err_persists(c, l, 1, 11);
                }
                return Err(ConstructionError { shard: 0, cause: e });
            },
        }
        let mut i: usize = 0;
        while i < 10
            invariant
                i <= 10,
                c == class10s@,
                l == shards_view(landslides@),
                landslides@.len() == 10,
                build_upto(c, l, i as int + 1) == Ok::<
                    Seq<(PolySpec, PropsSpec)>,
                    ConstructionError,
                >(entries_view(rj.entries())),
            decreases 10 - i,
        {
            let ghost before = entries_view(rj.entries());
            proof {
                assert(l[i as int] == landslides@[i as int]@);
                assert(build_upto(c, l, i as int + 1) == Ok::<
                    Seq<(PolySpec, PropsSpec)>,
                    ConstructionError,
                >(before));
            }
            let doc = match get_landslide_data(&landslides[i], i) {
                Ok(d) => d,
                Err(e) => {
                    proof {
                        assert(shard_step(c, l, i as int + 1) == Err::<
                            Seq<(PolySpec, PropsSpec)>,
                            DataError,
                        >(e));
                        assert(build_upto(c, l, i as int + 2) == Err::<
                            Seq<(PolySpec, PropsSpec)>,
                            ConstructionError,
                        >(ConstructionError { shard: (i + 1) as usize, cause: e }));
                        lemma_build_err_persists(c, l, i as int + 2, 11);
                    }
                    return Err(ConstructionError { shard: i + 1, cause: e });
                },
            };
            match rj.load_from_str(doc.as_str()) {
                Ok(()) => {
                    proof {
                        assert(shard_step(c, l, i as int + 1) == Ok::<
                            Seq<(PolySpec, PropsSpec)>,
                            DataError,
                        >(parse_doc(doc@).unwrap()));
                        assert(build_upto(c, l, i as int + 2) == Ok::<
                            Seq<(PolySpec, PropsSpec)>,
                            ConstructionError,
                        >(entries_view(rj.entries())));
                    }
                },
                Err(e) => {
                    proof {
                        assert(shard_step(c, l, i as int + 1) == Err::<
                            Seq<(PolySpec, PropsSpec)>,
                            DataError,
                        >(e));
                        assert(build_upto(c, l, i as int + 2) == Err::<
                            Seq<(PolySpec, PropsSpec)>,
                            ConstructionError,
                        >(ConstructionError { shard: (i + 1) as usize, cause: e }));
                        lemma_build_err_persists(c, l, i as int + 2, 11);
                    }
                    return Err(ConstructionError { shard: i + 1, cause: e });
                },
            }
            i = i + 1;
        }
        Ok(rj)
    }
}

} // verus!
