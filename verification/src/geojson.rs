//! The dataset document grammar: a feature-collection document holding
//! features whose MultiPolygon geometries are flattened into (polygon,
//! record) entries. The grammar is written as deterministic specification
//! functions over the document's characters; the executable parser
//! returns exactly what they say, so "well-formed" and "accepted" agree
//! by construction.
//!
//! Schema: the document is an object with a `type` string and a
//! `features` array; a feature is an object with a `type` string, a
//! `geometry` object and a `properties` object; a geometry carries a
//! `type` string and, when the type is `MultiPolygon`, `coordinates`
//! nested as groups of rings of `[longitude, latitude]` positions; the
//! first ring of a group is the outer ring, the rest are holes, and each
//! group yields one entry. Features of any other geometry type are
//! silently skipped. `properties` must hold `code` and `name` strings;
//! `enName` is optional and defaults to the empty string. Unknown object
//! members are skipped; a duplicated known member is an error.

use vstd::prelude::*;
use crate::geometry::Point;
use crate::geometry::Polygon;
use crate::props::Properties;
use crate::json::ws;
use crate::json::str_body;
use crate::json::parse_number;
use crate::json::skip_value;

verus! {

/// The abstract value of a polygon: its outer ring and hole rings.
pub struct PolySpec {
    pub outer: Seq<Point>,
    pub holes: Seq<Seq<Point>>,
}

/// The abstract value of a record.
pub struct PropsSpec {
    pub code: Seq<char>,
    pub name: Seq<char>,
    pub en_name: Seq<char>,
}

impl View for Polygon {
    type V = PolySpec;

    open spec fn view(&self) -> PolySpec {
        PolySpec { outer: self.outer@, holes: self.holes@.map_values(|h: Vec<Point>| h@) }
    }
}

impl View for Properties {
    type V = PropsSpec;

    open spec fn view(&self) -> PropsSpec {
        PropsSpec { code: self.code@, name: self.name@, en_name: self.en_name@ }
    }
}

/// The abstract value of the index entries a document contributes.
pub open spec fn entries_view(v: Seq<(Polygon, Properties)>) -> Seq<(PolySpec, PropsSpec)> {
    v.map_values(|e: (Polygon, Properties)| (e.0@, e.1@))
}

pub open spec fn type_chars() -> Seq<char> {
    seq!['t', 'y', 'p', 'e']
}

pub open spec fn features_chars() -> Seq<char> {
    seq!['f', 'e', 'a', 't', 'u', 'r', 'e', 's']
}

pub open spec fn geometry_chars() -> Seq<char> {
    seq!['g', 'e', 'o', 'm', 'e', 't', 'r', 'y']
}

pub open spec fn properties_chars() -> Seq<char> {
    seq!['p', 'r', 'o', 'p', 'e', 'r', 't', 'i', 'e', 's']
}

pub open spec fn coordinates_chars() -> Seq<char> {
    seq!['c', 'o', 'o', 'r', 'd', 'i', 'n', 'a', 't', 'e', 's']
}

pub open spec fn multipolygon_chars() -> Seq<char> {
    seq!['M', 'u', 'l', 't', 'i', 'P', 'o', 'l', 'y', 'g', 'o', 'n']
}

pub open spec fn code_chars() -> Seq<char> {
    seq!['c', 'o', 'd', 'e']
}

pub open spec fn name_chars() -> Seq<char> {
    seq!['n', 'a', 'm', 'e']
}

pub open spec fn en_name_chars() -> Seq<char> {
    seq!['e', 'n', 'N', 'a', 'm', 'e']
}

/// A `[longitude, latitude]` position, read into a fixed-point point.
pub open spec fn parse_position(s: Seq<char>, i: int) -> Option<(Point, int)> {
    if !(0 <= i < s.len() && s[i] == '[') {
        None
    } else {
        let j = ws(s, i + 1);
        if !(i < j <= s.len()) {
            None
        } else {
            match parse_number(s, j) {
                None => None,
                Some((x, j2)) => if !(j < j2 <= s.len()) {
                    None
                } else {
                    let j3 = ws(s, j2);
                    if !(j2 <= j3 <= s.len() && j3 < s.len() && s[j3] == ',') {
                        None
                    } else {
                        let j4 = ws(s, j3 + 1);
                        if !(j3 < j4 <= s.len()) {
                            None
                        } else {
                            match parse_number(s, j4) {
                                None => None,
                                Some((y, j5)) => if !(j4 < j5 <= s.len()) {
                                    None
                                } else {
                                    let j6 = ws(s, j5);
                                    if !(j5 <= j6 <= s.len() && j6 < s.len() && s[j6] == ']') {
                                        None
                                    } else {
                                        Some((Point { x: x as i32, y: y as i32 }, j6 + 1))
                                    }
                                },
                            }
                        }
                    }
                },
            }
        }
    }
}

/// The remaining positions of a ring, `i` standing at the start of one.
pub open spec fn parse_positions(s: Seq<char>, i: int) -> Option<(Seq<Point>, int)>
    decreases s.len() - i
        when 0 <= i <= s.len()
{
    match parse_position(s, i) {
        None => None,
        Some((p, j)) => if !(i < j <= s.len()) {
            None
        } else {
            let j2 = ws(s, j);
            if !(j <= j2 <= s.len()) {
                None
            } else if j2 < s.len() && s[j2] == ',' {
                let j3 = ws(s, j2 + 1);
                if !(j2 < j3 <= s.len()) {
                    None
                } else {
                    match parse_positions(s, j3) {
                        None => None,
                        Some((t, j4)) => Some((seq![p] + t, j4)),
                    }
                }
            } else if j2 < s.len() && s[j2] == ']' {
                Some((seq![p], j2 + 1))
            } else {
                None
            }
        },
    }
}

/// A ring: an array of positions, possibly empty.
pub open spec fn parse_ring(s: Seq<char>, i: int) -> Option<(Seq<Point>, int)> {
    if !(0 <= i < s.len() && s[i] == '[') {
        None
    } else {
        let j = ws(s, i + 1);
        if !(i < j <= s.len()) {
            None
        } else if j < s.len() && s[j] == ']' {
            Some((Seq::empty(), j + 1))
        } else {
            parse_positions(s, j)
        }
    }
}

/// The remaining rings of a polygon group, `i` standing at the start of
/// one.
pub open spec fn parse_rings(s: Seq<char>, i: int) -> Option<(Seq<Seq<Point>>, int)>
    decreases s.len() - i
        when 0 <= i <= s.len()
{
    match parse_ring(s, i) {
        None => None,
        Some((rg, j)) => if !(i < j <= s.len()) {
            None
        } else {
            let j2 = ws(s, j);
            if !(j <= j2 <= s.len()) {
                None
            } else if j2 < s.len() && s[j2] == ',' {
                let j3 = ws(s, j2 + 1);
                if !(j2 < j3 <= s.len()) {
                    None
                } else {
                    match parse_rings(s, j3) {
                        None => None,
                        Some((t, j4)) => Some((seq![rg] + t, j4)),
                    }
                }
            } else if j2 < s.len() && s[j2] == ']' {
                Some((seq![rg], j2 + 1))
            } else {
                None
            }
        },
    }
}

/// A polygon group: an array of rings. The first ring is the outer
/// boundary, the rest are holes; a group without rings yields a polygon
/// with an empty outer ring, which contains nothing.
pub open spec fn parse_group(s: Seq<char>, i: int) -> Option<(PolySpec, int)> {
    if !(0 <= i < s.len() && s[i] == '[') {
        None
    } else {
        let j = ws(s, i + 1);
        if !(i < j <= s.len()) {
            None
        } else if j < s.len() && s[j] == ']' {
            Some((PolySpec { outer: Seq::empty(), holes: Seq::empty() }, j + 1))
        } else {
            match parse_rings(s, j) {
                None => None,
                Some((rs, j2)) => Some(
                    (PolySpec { outer: rs[0], holes: rs.drop_first() }, j2),
                ),
            }
        }
    }
}

/// The remaining polygon groups, `i` standing at the start of one.
pub open spec fn parse_groups(s: Seq<char>, i: int) -> Option<(Seq<PolySpec>, int)>
    decreases s.len() - i
        when 0 <= i <= s.len()
{
    match parse_group(s, i) {
        None => None,
        Some((g, j)) => if !(i < j <= s.len()) {
            None
        } else {
            let j2 = ws(s, j);
            if !(j <= j2 <= s.len()) {
                None
            } else if j2 < s.len() && s[j2] == ',' {
                let j3 = ws(s, j2 + 1);
                if !(j2 < j3 <= s.len()) {
                    None
                } else {
                    match parse_groups(s, j3) {
                        None => None,
                        Some((t, j4)) => Some((seq![g] + t, j4)),
                    }
                }
            } else if j2 < s.len() && s[j2] == ']' {
                Some((seq![g], j2 + 1))
            } else {
                None
            }
        },
    }
}

/// A MultiPolygon's `coordinates` value: an array of polygon groups.
pub open spec fn parse_coords(s: Seq<char>, i: int) -> Option<(Seq<PolySpec>, int)> {
    if !(0 <= i < s.len() && s[i] == '[') {
        None
    } else {
        let j = ws(s, i + 1);
        if !(i < j <= s.len()) {
            None
        } else if j < s.len() && s[j] == ']' {
            Some((Seq::empty(), j + 1))
        } else {
            parse_groups(s, j)
        }
    }
}

/// The remaining members of a `properties` object, with the fields
/// gathered so far. `code` and `name` are required strings, `enName` an
/// optional string defaulting to empty; unknown members are skipped and
/// a duplicated known member is an error.
pub open spec fn parse_props_members(
    s: Seq<char>,
    i: int,
    code: Option<Seq<char>>,
    name: Option<Seq<char>>,
    en: Option<Seq<char>>,
) -> Option<(PropsSpec, int)>
    decreases s.len() - i
        when 0 <= i <= s.len()
{
    if !(i < s.len() && s[i] == '"') {
        None
    } else {
        match str_body(s, i + 1) {
            None => None,
            Some((k, j)) => if !(i < j <= s.len()) {
                None
            } else {
                let j2 = ws(s, j);
                if !(j <= j2 <= s.len() && j2 < s.len() && s[j2] == ':') {
                    None
                } else {
                    let j3 = ws(s, j2 + 1);
                    if !(j2 < j3 <= s.len()) {
                        None
                    } else {
                        let known = k == code_chars() || k == name_chars() || k
                            == en_name_chars();
                        let strval = if known {
                            if j3 < s.len() && s[j3] == '"' {
                                str_body(s, j3 + 1)
                            } else {
                                None
                            }
                        } else {
                            None
                        };
                        if known && strval is None {
                            None
                        } else if k == code_chars() && code is Some {
                            None
                        } else if k == name_chars() && name is Some {
                            None
                        } else if k == en_name_chars() && en is Some {
                            None
                        } else {
                            let j4 = if known {
                                strval.unwrap().1
                            } else {
                                match skip_value(s, j3) {
                                    None => -1,
                                    Some(j4) => j4,
                                }
                            };
                            let code2 = if k == code_chars() {
                                Some(strval.unwrap().0)
                            } else {
                                code
                            };
                            let name2 = if k == name_chars() {
                                Some(strval.unwrap().0)
                            } else {
                                name
                            };
                            let en2 = if k == en_name_chars() {
                                Some(strval.unwrap().0)
                            } else {
                                en
                            };
                            if !(j3 < j4 <= s.len()) {
                                None
                            } else {
                                let j5 = ws(s, j4);
                                if !(j4 <= j5 <= s.len()) {
                                    None
                                } else if j5 < s.len() && s[j5] == ',' {
                                    let j6 = ws(s, j5 + 1);
                                    if !(j5 < j6 <= s.len()) {
                                        None
                                    } else {
                                        parse_props_members(s, j6, code2, name2, en2)
                                    }
                                } else if j5 < s.len() && s[j5] == '}' {
                                    if code2 is Some && name2 is Some {
                                        Some(
                                            (
                                                PropsSpec {
                                                    code: code2.unwrap(),
                                                    name: name2.unwrap(),
                                                    en_name: if en2 is Some {
                                                        en2.unwrap()
                                                    } else {
                                                        Seq::empty()
                                                    },
                                                },
                                                j5 + 1,
                                            ),
                                        )
                                    } else {
                                        None
                                    }
                                } else {
                                    None
                                }
                            }
                        }
                    }
                }
            },
        }
    }
}

/// A `properties` object. An empty object lacks the required fields, so
/// it is an error.
pub open spec fn parse_props(s: Seq<char>, i: int) -> Option<(PropsSpec, int)> {
    if !(0 <= i < s.len() && s[i] == '{') {
        None
    } else {
        let j = ws(s, i + 1);
        if !(i < j <= s.len()) {
            None
        } else if j < s.len() && s[j] == '}' {
            None
        } else {
            parse_props_members(s, j, None, None, None)
        }
    }
}

/// The remaining members of a `geometry` object: the gathered state is
/// the geometry's `type` string and the position where its
/// `coordinates` value begins.
pub open spec fn parse_geom_members(
    s: Seq<char>,
    i: int,
    gtype: Option<Seq<char>>,
    cpos: Option<int>,
) -> Option<(Option<Seq<char>>, Option<int>, int)>
    decreases s.len() - i
        when 0 <= i <= s.len()
{
    if !(i < s.len() && s[i] == '"') {
        None
    } else {
        match str_body(s, i + 1) {
            None => None,
            Some((k, j)) => if !(i < j <= s.len()) {
                None
            } else {
                let j2 = ws(s, j);
                if !(j <= j2 <= s.len() && j2 < s.len() && s[j2] == ':') {
                    None
                } else {
                    let j3 = ws(s, j2 + 1);
                    if !(j2 < j3 <= s.len()) {
                        None
                    } else {
                        let stepped: Option<(Option<Seq<char>>, Option<int>, int)> = if k
                            == type_chars() {
                            if gtype is Some {
                                None
                            } else if !(j3 < s.len() && s[j3] == '"') {
                                None
                            } else {
                                match str_body(s, j3 + 1) {
                                    None => None,
                                    Some((v, j4)) => Some((Some(v), cpos, j4)),
                                }
                            }
                        } else if k == coordinates_chars() {
                            if cpos is Some {
                                None
                            } else {
                                match skip_value(s, j3) {
                                    None => None,
                                    Some(j4) => Some((gtype, Some(j3), j4)),
                                }
                            }
                        } else {
                            match skip_value(s, j3) {
                                None => None,
                                Some(j4) => Some((gtype, cpos, j4)),
                            }
                        };
                        match stepped {
                            None => None,
                            Some((gt2, cp2, j4)) => if !(j3 < j4 <= s.len()) {
                                None
                            } else {
                                let j5 = ws(s, j4);
                                if !(j4 <= j5 <= s.len()) {
                                    None
                                } else if j5 < s.len() && s[j5] == ',' {
                                    let j6 = ws(s, j5 + 1);
                                    if !(j5 < j6 <= s.len()) {
                                        None
                                    } else {
                                        parse_geom_members(s, j6, gt2, cp2)
                                    }
                                } else if j5 < s.len() && s[j5] == '}' {
                                    Some((gt2, cp2, j5 + 1))
                                } else {
                                    None
                                }
                            },
                        }
                    }
                }
            },
        }
    }
}

/// A `geometry` object: its `type` string is required; `coordinates` is
/// validated only when the type asks for a MultiPolygon decode.
pub open spec fn parse_geom(s: Seq<char>, i: int) -> Option<(Option<int>, int)> {
    if !(0 <= i < s.len() && s[i] == '{') {
        None
    } else {
        let j = ws(s, i + 1);
        if !(i < j <= s.len()) {
            None
        } else if j < s.len() && s[j] == '}' {
            None
        } else {
            match parse_geom_members(s, j, None, None) {
                None => None,
                Some((gtype, cpos, j2)) => if gtype is None {
                    None
                } else if gtype.unwrap() == multipolygon_chars() {
                    if cpos is Some {
                        Some((cpos, j2))
                    } else {
                        None
                    }
                } else {
                    Some((None, j2))
                },
            }
        }
    }
}

/// The remaining members of a feature object. The gathered state:
/// whether `type` was seen, the parsed `geometry` outcome (the start of
/// its MultiPolygon coordinates, or `None` for a skipped geometry type),
/// and the parsed `properties`.
pub open spec fn parse_feat_members(
    s: Seq<char>,
    i: int,
    ft: bool,
    geom: Option<Option<int>>,
    props: Option<PropsSpec>,
) -> Option<(Option<int>, PropsSpec, int)>
    decreases s.len() - i
        when 0 <= i <= s.len()
{
    if !(i < s.len() && s[i] == '"') {
        None
    } else {
        match str_body(s, i + 1) {
            None => None,
            Some((k, j)) => if !(i < j <= s.len()) {
                None
            } else {
                let j2 = ws(s, j);
                if !(j <= j2 <= s.len() && j2 < s.len() && s[j2] == ':') {
                    None
                } else {
                    let j3 = ws(s, j2 + 1);
                    if !(j2 < j3 <= s.len()) {
                        None
                    } else {
                        let stepped: Option<(bool, Option<Option<int>>, Option<PropsSpec>, int)> =
                            if k == type_chars() {
                            if ft {
                                None
                            } else if !(j3 < s.len() && s[j3] == '"') {
                                None
                            } else {
                                match str_body(s, j3 + 1) {
                                    None => None,
                                    Some((v, j4)) => Some((true, geom, props, j4)),
                                }
                            }
                        } else if k == geometry_chars() {
                            if geom is Some {
                                None
                            } else {
                                match parse_geom(s, j3) {
                                    None => None,
                                    Some((cpos, j4)) => Some((ft, Some(cpos), props, j4)),
                                }
                            }
                        } else if k == properties_chars() {
                            if props is Some {
                                None
                            } else {
                                match parse_props(s, j3) {
                                    None => None,
                                    Some((pr, j4)) => Some((ft, geom, Some(pr), j4)),
                                }
                            }
                        } else {
                            match skip_value(s, j3) {
                                None => None,
                                Some(j4) => Some((ft, geom, props, j4)),
                            }
                        };
                        match stepped {
                            None => None,
                            Some((ft2, g2, p2, j4)) => if !(j3 < j4 <= s.len()) {
                                None
                            } else {
                                let j5 = ws(s, j4);
                                if !(j4 <= j5 <= s.len()) {
                                    None
                                } else if j5 < s.len() && s[j5] == ',' {
                                    let j6 = ws(s, j5 + 1);
                                    if !(j5 < j6 <= s.len()) {
                                        None
                                    } else {
                                        parse_feat_members(s, j6, ft2, g2, p2)
                                    }
                                } else if j5 < s.len() && s[j5] == '}' {
                                    if ft2 && g2 is Some && p2 is Some {
                                        Some((g2.unwrap(), p2.unwrap(), j5 + 1))
                                    } else {
                                        None
                                    }
                                } else {
                                    None
                                }
                            },
                        }
                    }
                }
            },
        }
    }
}

/// One feature: its entries are one (polygon, record) pair per
/// MultiPolygon group, or nothing when the geometry has another type.
pub open spec fn parse_feature(s: Seq<char>, i: int) -> Option<(Seq<(PolySpec, PropsSpec)>, int)> {
    if !(0 <= i < s.len() && s[i] == '{') {
        None
    } else {
        let j = ws(s, i + 1);
        if !(i < j <= s.len()) {
            None
        } else if j < s.len() && s[j] == '}' {
            None
        } else {
            match parse_feat_members(s, j, false, None, None) {
                None => None,
                Some((cpos, pr, j2)) => if cpos is None {
                    Some((Seq::empty(), j2))
                } else {
                    match parse_coords(s, cpos.unwrap()) {
                        None => None,
                        Some((gs, cend)) => Some(
                            (gs.map_values(|g: PolySpec| (g, pr)), j2),
                        ),
                    }
                },
            }
        }
    }
}

/// The remaining features of the `features` array, `i` standing at the
/// start of one; their entries are concatenated in order.
pub open spec fn parse_feat_items(s: Seq<char>, i: int) -> Option<
    (Seq<(PolySpec, PropsSpec)>, int),
>
    decreases s.len() - i
        when 0 <= i <= s.len()
{
    match parse_feature(s, i) {
        None => None,
        Some((es, j)) => if !(i < j <= s.len()) {
            None
        } else {
            let j2 = ws(s, j);
            if !(j <= j2 <= s.len()) {
                None
            } else if j2 < s.len() && s[j2] == ',' {
                let j3 = ws(s, j2 + 1);
                if !(j2 < j3 <= s.len()) {
                    None
                } else {
                    match parse_feat_items(s, j3) {
                        None => None,
                        Some((t, j4)) => Some((es + t, j4)),
                    }
                }
            } else if j2 < s.len() && s[j2] == ']' {
                Some((es, j2 + 1))
            } else {
                None
            }
        },
    }
}

/// The `features` array.
pub open spec fn parse_features(s: Seq<char>, i: int) -> Option<
    (Seq<(PolySpec, PropsSpec)>, int),
> {
    if !(0 <= i < s.len() && s[i] == '[') {
        None
    } else {
        let j = ws(s, i + 1);
        if !(i < j <= s.len()) {
            None
        } else if j < s.len() && s[j] == ']' {
            Some((Seq::empty(), j + 1))
        } else {
            parse_feat_items(s, j)
        }
    }
}

/// The remaining members of the top-level object. The state: whether
/// `type` was seen and the parsed `features` entries.
pub open spec fn parse_doc_members(
    s: Seq<char>,
    i: int,
    ty: bool,
    feats: Option<Seq<(PolySpec, PropsSpec)>>,
) -> Option<(Seq<(PolySpec, PropsSpec)>, int)>
    decreases s.len() - i
        when 0 <= i <= s.len()
{
    if !(i < s.len() && s[i] == '"') {
        None
    } else {
        match str_body(s, i + 1) {
            None => None,
            Some((k, j)) => if !(i < j <= s.len()) {
                None
            } else {
                let j2 = ws(s, j);
                if !(j <= j2 <= s.len() && j2 < s.len() && s[j2] == ':') {
                    None
                } else {
                    let j3 = ws(s, j2 + 1);
                    if !(j2 < j3 <= s.len()) {
                        None
                    } else {
                        let stepped: Option<(bool, Option<Seq<(PolySpec, PropsSpec)>>, int)> = if k
                            == type_chars() {
                            if ty {
                                None
                            } else if !(j3 < s.len() && s[j3] == '"') {
                                None
                            } else {
                                match str_body(s, j3 + 1) {
                                    None => None,
                                    Some((v, j4)) => Some((true, feats, j4)),
                                }
                            }
                        } else if k == features_chars() {
                            if feats is Some {
                                None
                            } else {
                                match parse_features(s, j3) {
                                    None => None,
                                    Some((es, j4)) => Some((ty, Some(es), j4)),
                                }
                            }
                        } else {
                            match skip_value(s, j3) {
                                None => None,
                                Some(j4) => Some((ty, feats, j4)),
                            }
                        };
                        match stepped {
                            None => None,
                            Some((ty2, f2, j4)) => if !(j3 < j4 <= s.len()) {
                                None
                            } else {
                                let j5 = ws(s, j4);
                                if !(j4 <= j5 <= s.len()) {
                                    None
                                } else if j5 < s.len() && s[j5] == ',' {
                                    let j6 = ws(s, j5 + 1);
                                    if !(j5 < j6 <= s.len()) {
                                        None
                                    } else {
                                        parse_doc_members(s, j6, ty2, f2)
                                    }
                                } else if j5 < s.len() && s[j5] == '}' {
                                    if ty2 && f2 is Some {
                                        Some((f2.unwrap(), j5 + 1))
                                    } else {
                                        None
                                    }
                                } else {
                                    None
                                }
                            },
                        }
                    }
                }
            },
        }
    }
}

/// A whole dataset document: a feature-collection object, padded by
/// whitespace and nothing else. `Some` holds the (polygon, record)
/// entries the document contributes to the index, in document order;
/// `None` means the document is not well-formed against the schema.
#[verifier::opaque]
pub open spec fn parse_doc(s: Seq<char>) -> Option<Seq<(PolySpec, PropsSpec)>> {
    let j = ws(s, 0);
    if !(0 <= j <= s.len() && j < s.len() && s[j] == '{') {
        None
    } else {
        let j2 = ws(s, j + 1);
        if !(j < j2 <= s.len()) {
            None
        } else if j2 < s.len() && s[j2] == '}' {
            None
        } else {
            match parse_doc_members(s, j2, false, None) {
                None => None,
                Some((es, j3)) => if !(j2 < j3 <= s.len()) {
                    None
                } else if ws(s, j3) == s.len() {
                    Some(es)
                } else {
                    None
                },
            }
        }
    }
}

/// Char-sequence views of the two vectors are equal exactly when the
/// vectors hold the same characters.
fn chars_eq(a: &Vec<char>, b: &Vec<char>) -> (r: bool)
    ensures
        r == (a@ == b@),
{
    if a.len() != b.len() {
        return false;
    }
    let n: usize = a.len();
    let mut i: usize = 0;
    while i < n
        invariant
            i <= n,
            n == a@.len() == b@.len(),
            forall|t: int| 0 <= t < i ==> a@[t] == b@[t],
        decreases n - i,
    {
        if a[i] != b[i] {
            return false;
        }
        i = i + 1;
    }
    proof {
        assert(a@ =~= b@);
    }
    true
}

fn kw_type() -> (r: Vec<char>)
    ensures
        r@ == type_chars(),
{
    let mut v: Vec<char> = Vec::new();
    v.push('t');
    v.push('y');
    v.push('p');
    v.push('e');
    proof {
        assert(v@ =~= type_chars());
    }
    v
}

fn kw_features() -> (r: Vec<char>)
    ensures
        r@ == features_chars(),
{
    let mut v: Vec<char> = Vec::new();
    v.push('f');
    v.push('e');
    v.push('a');
    v.push('t');
    v.push('u');
    v.push('r');
    v.push('e');
    v.push('s');
    proof {
        assert(v@ =~= features_chars());
    }
    v
}

fn kw_geometry() -> (r: Vec<char>)
    ensures
        r@ == geometry_chars(),
{
    let mut v: Vec<char> = Vec::new();
    v.push('g');
    v.push('e');
    v.push('o');
    v.push('m');
    v.push('e');
    v.push('t');
    v.push('r');
    v.push('y');
    proof {
        assert(v@ =~= geometry_chars());
    }
    v
}

fn kw_properties() -> (r: Vec<char>)
    ensures
        r@ == properties_chars(),
{
    let mut v: Vec<char> = Vec::new();
    v.push('p');
    v.push('r');
    v.push('o');
    v.push('p');
    v.push('e');
    v.push('r');
    v.push('t');
    v.push('i');
    v.push('e');
    v.push('s');
    proof {
        assert(v@ =~= properties_chars());
    }
    v
}

fn kw_coordinates() -> (r: Vec<char>)
    ensures
        r@ == coordinates_chars(),
{
    let mut v: Vec<char> = Vec::new();
    v.push('c');
    v.push('o');
    v.push('o');
    v.push('r');
    v.push('d');
    v.push('i');
    v.push('n');
    v.push('a');
    v.push('t');
    v.push('e');
    v.push('s');
    proof {
        assert(v@ =~= coordinates_chars());
    }
    v
}

fn kw_multipolygon() -> (r: Vec<char>)
    ensures
        r@ == multipolygon_chars(),
{
    let mut v: Vec<char> = Vec::new();
    v.push('M');
    v.push('u');
    v.push('l');
    v.push('t');
    v.push('i');
    v.push('P');
    v.push('o');
    v.push('l');
    v.push('y');
    v.push('g');
    v.push('o');
    v.push('n');
    proof {
        assert(v@ =~= multipolygon_chars());
    }
    v
}

fn kw_code() -> (r: Vec<char>)
    ensures
        r@ == code_chars(),
{
    let mut v: Vec<char> = Vec::new();
    v.push('c');
    v.push('o');
    v.push('d');
    v.push('e');
    proof {
        assert(v@ =~= code_chars());
    }
    v
}

fn kw_name() -> (r: Vec<char>)
    ensures
        r@ == name_chars(),
{
    let mut v: Vec<char> = Vec::new();
    v.push('n');
    v.push('a');
    v.push('m');
    v.push('e');
    proof {
        assert(v@ =~= name_chars());
    }
    v
}

fn kw_en_name() -> (r: Vec<char>)
    ensures
        r@ == en_name_chars(),
{
    let mut v: Vec<char> = Vec::new();
    v.push('e');
    v.push('n');
    v.push('N');
    v.push('a');
    v.push('m');
    v.push('e');
    proof {
        assert(v@ =~= en_name_chars());
    }
    v
}

fn parse_position_exec(s: &Vec<char>, i: usize) -> (r: Option<(Point, usize)>)
    requires
        i <= s@.len(),
    ensures
        match parse_position(s@, i as int) {
            Some((p, j)) => {
                &&& r is Some
                &&& r.unwrap().0 == p
                &&& r.unwrap().1 == j
                &&& i < j <= s@.len()
            },
            None => r is None,
        },
{
    let n: usize = s.len();
    if !(i < n && s[i] == '[') {
        return None;
    }
    let j = crate::json::ws_exec(s, i + 1);
    let (x, j2) = match crate::json::parse_number_exec(s, j) {
        Some(v) => v,
        None => {
            return None;
        },
    };
    let j3 = crate::json::ws_exec(s, j2);
    if !(j3 < n && s[j3] == ',') {
        return None;
    }
    let j4 = crate::json::ws_exec(s, j3 + 1);
    let (y, j5) = match crate::json::parse_number_exec(s, j4) {
        Some(v) => v,
        None => {
            return None;
        },
    };
    let j6 = crate::json::ws_exec(s, j5);
    if !(j6 < n && s[j6] == ']') {
        return None;
    }
    Some((Point { x, y }, j6 + 1))
}

/// The ring views of a vector of point vectors.
pub open spec fn rings_view(v: Seq<Vec<Point>>) -> Seq<Seq<Point>> {
    v.map_values(|h: Vec<Point>| h@)
}

/// The polygon views of a vector of polygons.
pub open spec fn polys_view(v: Seq<Polygon>) -> Seq<PolySpec> {
    v.map_values(|p: Polygon| p@)
}

fn parse_ring_exec(s: &Vec<char>, i: usize) -> (r: Option<(Vec<Point>, usize)>)
    requires
        i <= s@.len(),
    ensures
        match parse_ring(s@, i as int) {
            Some((rg, j)) => {
                &&& r is Some
                &&& r.unwrap().0@ == rg
                &&& r.unwrap().1 == j
                &&& i < j <= s@.len()
            },
            None => r is None,
        },
{
    let n: usize = s.len();
    if !(i < n && s[i] == '[') {
        return None;
    }
    let j = crate::json::ws_exec(s, i + 1);
    if j < n && s[j] == ']' {
        let empty: Vec<Point> = Vec::new();
        proof {
            assert(empty@ =~= Seq::<Point>::empty());
        }
        return Some((empty, j + 1));
    }
    let mut acc: Vec<Point> = Vec::new();
    let mut cur: usize = j;
    loop
        invariant
            i < cur <= s@.len(),
            n == s@.len(),
            match parse_positions(s@, cur as int) {
                Some((t, j2)) => parse_positions(s@, j as int) == Some::<(Seq<Point>, int)>(
                    (acc@ + t, j2),
                ),
                None => parse_positions(s@, j as int) is None,
            },
            parse_ring(s@, i as int) == parse_positions(s@, j as int),
        decreases s@.len() - cur,
    {
        let (p, j1) = match parse_position_exec(s, cur) {
            Some(v) => v,
            None => {
                return None;
            },
        };
        let ghost acc0 = acc@;
        acc.push(p);
        let j2 = crate::json::ws_exec(s, j1);
        if j2 < n && s[j2] == ',' {
            let j3 = crate::json::ws_exec(s, j2 + 1);
            proof {
                if let Some((t, j4)) = parse_positions(s@, j3 as int) {
                    assert(acc0 + (seq![p] + t) =~= acc@ + t);
                }
            }
            cur = j3;
        } else if j2 < n && s[j2] == ']' {
            proof {
                assert(acc0 + seq![p] =~= acc@);
            }
            return Some((acc, j2 + 1));
        } else {
            return None;
        }
    }
}

fn parse_group_exec(s: &Vec<char>, i: usize) -> (r: Option<(Polygon, usize)>)
    requires
        i <= s@.len(),
    ensures
        match parse_group(s@, i as int) {
            Some((g, j)) => {
                &&& r is Some
                &&& r.unwrap().0@ == g
                &&& r.unwrap().1 == j
                &&& i < j <= s@.len()
            },
            None => r is None,
        },
{
    let n: usize = s.len();
    if !(i < n && s[i] == '[') {
        return None;
    }
    let j = crate::json::ws_exec(s, i + 1);
    if j < n && s[j] == ']' {
        let p = Polygon { outer: Vec::new(), holes: Vec::new() };
        proof {
            assert(p@.outer =~= Seq::<Point>::empty());
            assert(p@.holes =~= Seq::<Seq<Point>>::empty());
        }
        return Some((p, j + 1));
    }
    let mut acc: Vec<Vec<Point>> = Vec::new();
    let mut cur: usize = j;
    loop
        invariant
            i < cur <= s@.len(),
            n == s@.len(),
            match parse_rings(s@, cur as int) {
                Some((t, j2)) => parse_rings(s@, j as int) == Some::<(Seq<Seq<Point>>, int)>(
                    (rings_view(acc@) + t, j2),
                ),
                None => parse_rings(s@, j as int) is None,
            },
            (match parse_group(s@, i as int) {
                Some((g, j2)) => match parse_rings(s@, j as int) {
                    Some((rs, j3)) => g == (PolySpec { outer: rs[0], holes: rs.drop_first() })
                        && j2 == j3 && rs.len() > 0,
                    None => false,
                },
                None => parse_rings(s@, j as int) is None,
            }),
        decreases s@.len() - cur,
    {
        let (rg, j1) = match parse_ring_exec(s, cur) {
            Some(v) => v,
            None => {
                return None;
            },
        };
        let ghost acc0 = acc@;
        acc.push(rg);
        let j2 = crate::json::ws_exec(s, j1);
        if j2 < n && s[j2] == ',' {
            let j3 = crate::json::ws_exec(s, j2 + 1);
            proof {
                if let Some((t, j4)) = parse_rings(s@, j3 as int) {
                    assert(rings_view(acc0) + (seq![rg@] + t) =~= rings_view(acc@) + t);
                }
            }
            cur = j3;
        } else if j2 < n && s[j2] == ']' {
            proof {
                assert(rings_view(acc0) + seq![rg@] =~= rings_view(acc@));
            }
            let mut rest = acc;
            let outer = rest.remove(0);
            let poly = Polygon { outer, holes: rest };
            proof {
                let ghost rs = rings_view(acc@);
                assert(poly@.outer == rs[0]);
                assert(poly@.holes =~= rs.drop_first());
            }
            return Some((poly, j2 + 1));
        } else {
            return None;
        }
    }
}

fn parse_coords_exec(s: &Vec<char>, i: usize) -> (r: Option<(Vec<Polygon>, usize)>)
    requires
        i <= s@.len(),
    ensures
        match parse_coords(s@, i as int) {
            Some((gs, j)) => {
                &&& r is Some
                &&& polys_view(r.unwrap().0@) == gs
                &&& r.unwrap().1 == j
                &&& i < j <= s@.len()
            },
            None => r is None,
        },
{
    let n: usize = s.len();
    if !(i < n && s[i] == '[') {
        return None;
    }
    let j = crate::json::ws_exec(s, i + 1);
    if j < n && s[j] == ']' {
        let empty: Vec<Polygon> = Vec::new();
        proof {
            assert(polys_view(empty@) =~= Seq::<PolySpec>::empty());
        }
        return Some((empty, j + 1));
    }
    let mut acc: Vec<Polygon> = Vec::new();
    let mut cur: usize = j;
    loop
        invariant
            i < cur <= s@.len(),
            n == s@.len(),
            match parse_groups(s@, cur as int) {
                Some((t, j2)) => parse_groups(s@, j as int) == Some::<(Seq<PolySpec>, int)>(
                    (polys_view(acc@) + t, j2),
                ),
                None => parse_groups(s@, j as int) is None,
            },
            parse_coords(s@, i as int) == parse_groups(s@, j as int),
        decreases s@.len() - cur,
    {
        let (g, j1) = match parse_group_exec(s, cur) {
            Some(v) => v,
            None => {
                return None;
            },
        };
        let ghost g_view = g@;
        let ghost acc0 = acc@;
        acc.push(g);
        let j2 = crate::json::ws_exec(s, j1);
        if j2 < n && s[j2] == ',' {
            let j3 = crate::json::ws_exec(s, j2 + 1);
            proof {
                if let Some((t, j4)) = parse_groups(s@, j3 as int) {
                    assert(polys_view(acc0) + (seq![g_view] + t) =~= polys_view(acc@) + t);
                }
            }
            cur = j3;
        } else if j2 < n && s[j2] == ']' {
            proof {
                assert(polys_view(acc0) + seq![g_view] =~= polys_view(acc@));
            }
            return Some((acc, j2 + 1));
        } else {
            return None;
        }
    }
}

/// The view of an optional character vector.
pub open spec fn optv(o: Option<Vec<char>>) -> Option<Seq<char>> {
    match o {
        Some(v) => Some(v@),
        None => None,
    }
}

/// The view of an optional record.
pub open spec fn optp(o: Option<Properties>) -> Option<PropsSpec> {
    match o {
        Some(p) => Some(p@),
        None => None,
    }
}

/// The view of an optional coordinate position.
pub open spec fn optu(o: Option<usize>) -> Option<int> {
    match o {
        Some(u) => Some(u as int),
        None => None,
    }
}

#[verifier::rlimit(100)]
#[verifier::spinoff_prover]
fn parse_props_exec(s: &Vec<char>, i: usize) -> (r: Option<(Properties, usize)>)
    requires
        i <= s@.len(),
    ensures
        match parse_props(s@, i as int) {
            Some((pr, j)) => {
                &&& r is Some
                &&& r.unwrap().0@ == pr
                &&& r.unwrap().1 == j
                &&& i < j <= s@.len()
            },
            None => r is None,
        },
{
    let n: usize = s.len();
    if !(i < n && s[i] == '{') {
        return None;
    }
    let j = crate::json::ws_exec(s, i + 1);
    if j < n && s[j] == '}' {
        return None;
    }
    let mut ocode: Option<Vec<char>> = None;
    let mut oname: Option<Vec<char>> = None;
    let mut oen: Option<Vec<char>> = None;
    let mut cur: usize = j;
    loop
        invariant
            i < cur <= s@.len(),
            n == s@.len(),
            parse_props_members(s@, cur as int, optv(ocode), optv(oname), optv(oen))
                == parse_props_members(s@, j as int, None, None, None),
            parse_props(s@, i as int) == parse_props_members(s@, j as int, None, None, None),
        decreases s@.len() - cur,
    {
        if !(cur < n && s[cur] == '"') {
            return None;
        }
        let (k, j1) = match crate::json::str_body_exec(s, cur + 1) {
            Some(v) => v,
            None => {
                return None;
            },
        };
        let j2 = crate::json::ws_exec(s, j1);
        if !(j2 < n && s[j2] == ':') {
            return None;
        }
        let j3 = crate::json::ws_exec(s, j2 + 1);
        let is_code = chars_eq(&k, &kw_code());
        let is_name = chars_eq(&k, &kw_name());
        let is_en = chars_eq(&k, &kw_en_name());
        let known = is_code || is_name || is_en;
        let j4: usize;
        let mut strval: Option<Vec<char>> = None;
        if known {
            if !(j3 < n && s[j3] == '"') {
                return None;
            }
            let (v, vend) = match crate::json::str_body_exec(s, j3 + 1) {
                Some(v) => v,
                None => {
                    return None;
                },
            };
            if is_code && ocode.is_some() {
                return None;
            }
            if is_name && oname.is_some() {
                return None;
            }
            if is_en && oen.is_some() {
                return None;
            }
            strval = Some(v);
            j4 = vend;
        } else {
            j4 = match crate::json::skip_value_exec(s, j3) {
                Some(v) => v,
                None => {
                    return None;
                },
            };
        }
        let ghost ocode0 = ocode;
        let ghost oname0 = oname;
        let ghost oen0 = oen;
        if is_code {
            ocode = strval;
        } else if is_name {
            oname = match strval {
                Some(v) => Some(v),
                None => None,
            };
        } else if is_en {
            oen = match strval {
                Some(v) => Some(v),
                None => None,
            };
        }
        let j5 = crate::json::ws_exec(s, j4);
        if j5 < n && s[j5] == ',' {
            let j6 = crate::json::ws_exec(s, j5 + 1);
            cur = j6;
        } else if j5 < n && s[j5] == '}' {
            let code_v = match ocode {
                Some(v) => v,
                None => {
                    return None;
                },
            };
            let name_v = match oname {
                Some(v) => v,
                None => {
                    return None;
                },
            };
            let ghost oen_fin = optv(oen);
            let en_v: Vec<char> = match oen {
                Some(v) => v,
                None => Vec::new(),
            };
            let props = Properties {
                code: crate::json::chars_to_string(&code_v),
                name: crate::json::chars_to_string(&name_v),
                en_name: crate::json::chars_to_string(&en_v),
            };
            proof {
                if oen_fin is None {
                    assert(en_v@ =~= Seq::<char>::empty());
                }
            }
            return Some((props, j5 + 1));
        } else {
            return None;
        }
    }
}

#[verifier::rlimit(100)]
#[verifier::spinoff_prover]
fn parse_geom_members_exec(s: &Vec<char>, j0: usize) -> (r: Option<
    (Option<Vec<char>>, Option<usize>, usize),
>)
    requires
        j0 <= s@.len(),
    ensures
        match parse_geom_members(s@, j0 as int, None, None) {
            Some((gt, cp, j)) => {
                &&& r is Some
                &&& optv(r.unwrap().0) == gt
                &&& optu(r.unwrap().1) == cp
                &&& r.unwrap().2 == j
                &&& j0 < j <= s@.len()
                &&& (r.unwrap().1 is Some ==> r.unwrap().1.unwrap() < s@.len())
            },
            None => r is None,
        },
{
    let n: usize = s.len();
    let mut ogtype: Option<Vec<char>> = None;
    let mut ocpos: Option<usize> = None;
    let mut cur: usize = j0;
    loop
        invariant
            j0 <= cur <= s@.len(),
            n == s@.len(),
            ocpos is Some ==> ocpos.unwrap() < s@.len(),
            parse_geom_members(s@, cur as int, optv(ogtype), optu(ocpos)) == parse_geom_members(
                s@,
                j0 as int,
                None,
                None,
            ),
        decreases s@.len() - cur,
    {
        let ghost gt0 = optv(ogtype);
        let ghost cp0 = optu(ocpos);
        if !(cur < n && s[cur] == '"') {
            return None;
        }
        let (k, j1) = match crate::json::str_body_exec(s, cur + 1) {
            Some(v) => v,
            None => {
                return None;
            },
        };
        let j2 = crate::json::ws_exec(s, j1);
        if !(j2 < n && s[j2] == ':') {
            return None;
        }
        let j3 = crate::json::ws_exec(s, j2 + 1);
        let j4: usize;
        if chars_eq(&k, &kw_type()) {
            if ogtype.is_some() {
                return None;
            }
            if !(j3 < n && s[j3] == '"') {
                return None;
            }
            let (v, vend) = match crate::json::str_body_exec(s, j3 + 1) {
                Some(v) => v,
                None => {
                    return None;
                },
            };
            ogtype = Some(v);
            j4 = vend;
        } else if chars_eq(&k, &kw_coordinates()) {
            if ocpos.is_some() {
                return None;
            }
            j4 = match crate::json::skip_value_exec(s, j3) {
                Some(v) => v,
                None => {
                    return None;
                },
            };
            ocpos = Some(j3);
        } else {
            j4 = match crate::json::skip_value_exec(s, j3) {
                Some(v) => v,
                None => {
                    return None;
                },
            };
        }
        let j5 = crate::json::ws_exec(s, j4);
        if j5 < n && s[j5] == ',' {
            let j6 = crate::json::ws_exec(s, j5 + 1);
            proof {
                assert(parse_geom_members(s@, cur as int, gt0, cp0) == parse_geom_members(
                    s@,
                    j6 as int,
                    optv(ogtype),
                    optu(ocpos),
                ));
            }
            cur = j6;
        } else if j5 < n && s[j5] == '}' {
            proof {
                assert(parse_geom_members(s@, cur as int, gt0, cp0) == Some::<
                    (Option<Seq<char>>, Option<int>, int),
                >((optv(ogtype), optu(ocpos), j5 as int + 1)));
            }
            return Some((ogtype, ocpos, j5 + 1));
        } else {
            return None;
        }
    }
}

fn parse_geom_exec(s: &Vec<char>, i: usize) -> (r: Option<(Option<usize>, usize)>)
    requires
        i <= s@.len(),
    ensures
        match parse_geom(s@, i as int) {
            Some((cpos, j)) => {
                &&& r is Some
                &&& optu(r.unwrap().0) == cpos
                &&& r.unwrap().1 == j
                &&& i < j <= s@.len()
                &&& (r.unwrap().0 is Some ==> r.unwrap().0.unwrap() < s@.len())
            },
            None => r is None,
        },
{
    let n: usize = s.len();
    if !(i < n && s[i] == '{') {
        return None;
    }
    let j = crate::json::ws_exec(s, i + 1);
    if j < n && s[j] == '}' {
        return None;
    }
    let (ogtype, ocpos, end) = match parse_geom_members_exec(s, j) {
        Some(v) => v,
        None => {
            return None;
        },
    };
    let gt = match ogtype {
        Some(v) => v,
        None => {
            return None;
        },
    };
    if chars_eq(&gt, &kw_multipolygon()) {
        match ocpos {
            Some(cp) => Some((Some(cp), end)),
            None => None,
        }
    } else {
        Some((None, end))
    }
}

/// Each polygon of a group list paired with one shared record.
pub open spec fn pair_with(gs: Seq<PolySpec>, pr: PropsSpec) -> Seq<(PolySpec, PropsSpec)> {
    gs.map_values(|g: PolySpec| (g, pr))
}

/// Pair every polygon of a group list with copies of one shared record.
fn pair_entries(groups: Vec<Polygon>, props: &Properties) -> (r: Vec<(Polygon, Properties)>)
    ensures
        entries_view(r@) == pair_with(polys_view(groups@), props@),
{
    let ghost gs = polys_view(groups@);
    let ghost prv = props@;
    let mut gvec = groups;
    let mut out: Vec<(Polygon, Properties)> = Vec::new();
    proof {
        assert(entries_view(out@) + pair_with(polys_view(gvec@), prv) =~= pair_with(gs, prv));
    }
    while gvec.len() > 0
        invariant
            entries_view(out@) + pair_with(polys_view(gvec@), prv) =~= pair_with(gs, prv),
            props@ == prv,
        decreases gvec.len(),
    {
        let ghost out0 = out@;
        let ghost gvec0 = gvec@;
        let g = gvec.remove(0);
        let p2 = props.duplicate();
        out.push((g, p2));
        proof {
            assert(entries_view(out@) =~= entries_view(out0) + seq![(gvec0[0]@, prv)]);
            assert(polys_view(gvec@) =~= polys_view(gvec0).drop_first());
            assert(pair_with(polys_view(gvec0), prv) =~= seq![(gvec0[0]@, prv)] + pair_with(
                polys_view(gvec0).drop_first(),
                prv,
            ));
        }
    }
    proof {
        assert(pair_with(polys_view(gvec@), prv) =~= Seq::<(PolySpec, PropsSpec)>::empty());
        assert(entries_view(out@) =~= pair_with(gs, prv));
    }
    out
}

#[verifier::rlimit(100)]
#[verifier::spinoff_prover]
fn parse_feat_members_exec(s: &Vec<char>, j0: usize) -> (r: Option<
    (Option<usize>, Properties, usize),
>)
    requires
        j0 <= s@.len(),
    ensures
        match parse_feat_members(s@, j0 as int, false, None, None) {
            Some((cpos, pr, j)) => {
                &&& r is Some
                &&& optu(r.unwrap().0) == cpos
                &&& r.unwrap().1@ == pr
                &&& r.unwrap().2 == j
                &&& j0 < j <= s@.len()
                &&& (r.unwrap().0 is Some ==> r.unwrap().0.unwrap() < s@.len())
            },
            None => r is None,
        },
{
    let n: usize = s.len();
    let mut ft: bool = false;
    let mut ogeom: Option<Option<usize>> = None;
    let mut oprops: Option<Properties> = None;
    let mut cur: usize = j0;
    loop
        invariant
            j0 <= cur <= s@.len(),
            n == s@.len(),
            (match ogeom {
                Some(c) => c is Some ==> c.unwrap() < s@.len(),
                None => true,
            }),
            parse_feat_members(
                s@,
                cur as int,
                ft,
                match ogeom {
                    Some(c) => Some(optu(c)),
                    None => None,
                },
                optp(oprops),
            ) == parse_feat_members(s@, j0 as int, false, None, None),
        decreases s@.len() - cur,
    {
        let ghost ft0 = ft;
        let ghost og0: Option<Option<int>> = match ogeom {
            Some(c) => Some(optu(c)),
            None => None,
        };
        let ghost op0 = optp(oprops);
        if !(cur < n && s[cur] == '"') {
            return None;
        }
        let (k, j1) = match crate::json::str_body_exec(s, cur + 1) {
            Some(v) => v,
            None => {
                return None;
            },
        };
        let j2 = crate::json::ws_exec(s, j1);
        if !(j2 < n && s[j2] == ':') {
            return None;
        }
        let j3 = crate::json::ws_exec(s, j2 + 1);
        let j4: usize;
        if chars_eq(&k, &kw_type()) {
            if ft {
                return None;
            }
            if !(j3 < n && s[j3] == '"') {
                return None;
            }
            let (v, vend) = match crate::json::str_body_exec(s, j3 + 1) {
                Some(v) => v,
                None => {
                    return None;
                },
            };
            ft = true;
            j4 = vend;
        } else if chars_eq(&k, &kw_geometry()) {
            if ogeom.is_some() {
                return None;
            }
            let (cpos, gend) = match parse_geom_exec(s, j3) {
                Some(v) => v,
                None => {
                    return None;
                },
            };
            ogeom = Some(cpos);
            j4 = gend;
        } else if chars_eq(&k, &kw_properties()) {
            if oprops.is_some() {
                return None;
            }
            let (pr, pend) = match parse_props_exec(s, j3) {
                Some(v) => v,
                None => {
                    return None;
                },
            };
            oprops = Some(pr);
            j4 = pend;
        } else {
            j4 = match crate::json::skip_value_exec(s, j3) {
                Some(v) => v,
                None => {
                    return None;
                },
            };
        }
        let j5 = crate::json::ws_exec(s, j4);
        let ghost og1: Option<Option<int>> = match ogeom {
            Some(c) => Some(optu(c)),
            None => None,
        };
        if j5 < n && s[j5] == ',' {
            let j6 = crate::json::ws_exec(s, j5 + 1);
            proof {
                assert(parse_feat_members(s@, cur as int, ft0, og0, op0) == parse_feat_members(
                    s@,
                    j6 as int,
                    ft,
                    og1,
                    optp(oprops),
                ));
            }
            cur = j6;
        } else if j5 < n && s[j5] == '}' {
            proof {
                if ft && og1 is Some && optp(oprops) is Some {
                    assert(parse_feat_members(s@, cur as int, ft0, og0, op0) == Some::<
                        (Option<int>, PropsSpec, int),
                    >((og1.unwrap(), optp(oprops).unwrap(), j5 as int + 1)));
                } else {
                    assert(parse_feat_members(s@, cur as int, ft0, og0, op0) is None);
                }
            }
            if !ft {
                return None;
            }
            let cpos = match ogeom {
                Some(c) => c,
                None => {
                    return None;
                },
            };
            let props = match oprops {
                Some(p) => p,
                None => {
                    return None;
                },
            };
            return Some((cpos, props, j5 + 1));
        } else {
            return None;
        }
    }
}

fn parse_feature_exec(s: &Vec<char>, i: usize) -> (r: Option<(Vec<(Polygon, Properties)>, usize)>)
    requires
        i <= s@.len(),
    ensures
        match parse_feature(s@, i as int) {
            Some((es, j)) => {
                &&& r is Some
                &&& entries_view(r.unwrap().0@) == es
                &&& r.unwrap().1 == j
                &&& i < j <= s@.len()
            },
            None => r is None,
        },
{
    let n: usize = s.len();
    if !(i < n && s[i] == '{') {
        return None;
    }
    let j = crate::json::ws_exec(s, i + 1);
    if j < n && s[j] == '}' {
        return None;
    }
    let (cpos, props, end) = match parse_feat_members_exec(s, j) {
        Some(v) => v,
        None => {
            return None;
        },
    };
    match cpos {
        None => {
            let empty: Vec<(Polygon, Properties)> = Vec::new();
            proof {
                assert(entries_view(empty@) =~= Seq::<(PolySpec, PropsSpec)>::empty());
            }
            Some((empty, end))
        },
        Some(cp) => {
            let (groups, cend) = match parse_coords_exec(s, cp) {
                Some(v) => v,
                None => {
                    return None;
                },
            };
            let out = pair_entries(groups, &props);
            Some((out, end))
        },
    }
}

#[verifier::rlimit(100)]
#[verifier::spinoff_prover]
fn parse_features_exec(s: &Vec<char>, i: usize) -> (r: Option<(Vec<(Polygon, Properties)>, usize)>)
    requires
        i <= s@.len(),
    ensures
        match parse_features(s@, i as int) {
            Some((es, j)) => {
                &&& r is Some
                &&& entries_view(r.unwrap().0@) == es
                &&& r.unwrap().1 == j
                &&& i < j <= s@.len()
            },
            None => r is None,
        },
{
    let n: usize = s.len();
    if !(i < n && s[i] == '[') {
        return None;
    }
    let j = crate::json::ws_exec(s, i + 1);
    if j < n && s[j] == ']' {
        let empty: Vec<(Polygon, Properties)> = Vec::new();
        proof {
            assert(entries_view(empty@) =~= Seq::<(PolySpec, PropsSpec)>::empty());
        }
        return Some((empty, j + 1));
    }
    let mut acc: Vec<(Polygon, Properties)> = Vec::new();
    let mut cur: usize = j;
    proof {
        assert(entries_view(acc@) =~= Seq::<(PolySpec, PropsSpec)>::empty());
    }
    loop
        invariant
            i < cur <= s@.len(),
            n == s@.len(),
            match parse_feat_items(s@, cur as int) {
                Some((t, j2)) => parse_feat_items(s@, j as int) == Some::<
                    (Seq<(PolySpec, PropsSpec)>, int),
                >((entries_view(acc@) + t, j2)),
                None => parse_feat_items(s@, j as int) is None,
            },
            parse_features(s@, i as int) == parse_feat_items(s@, j as int),
        decreases s@.len() - cur,
    {
        let (mut es, j1) = match parse_feature_exec(s, cur) {
            Some(v) => v,
            None => {
                return None;
            },
        };
        let ghost es_view = entries_view(es@);
        let ghost acc0 = acc@;
        acc.append(&mut es);
        proof {
            assert(entries_view(acc@) =~= entries_view(acc0) + es_view);
        }
        let j2 = crate::json::ws_exec(s, j1);
        if j2 < n && s[j2] == ',' {
            let j3 = crate::json::ws_exec(s, j2 + 1);
            proof {
                if let Some((t, j4)) = parse_feat_items(s@, j3 as int) {
                    assert((entries_view(acc0) + es_view) + t =~= entries_view(acc0) + (es_view
                        + t));
                }
            }
            cur = j3;
        } else if j2 < n && s[j2] == ']' {
            proof {
                assert(entries_view(acc0) + es_view =~= entries_view(acc@));
            }
            return Some((acc, j2 + 1));
        } else {
            return None;
        }
    }
}

#[verifier::rlimit(100)]
#[verifier::spinoff_prover]
fn parse_doc_members_exec(s: &Vec<char>, j0: usize) -> (r: Option<
    (Vec<(Polygon, Properties)>, usize),
>)
    requires
        j0 <= s@.len(),
    ensures
        match parse_doc_members(s@, j0 as int, false, None) {
            Some((es, j)) => {
                &&& r is Some
                &&& entries_view(r.unwrap().0@) == es
                &&& r.unwrap().1 == j
                &&& j0 < j <= s@.len()
            },
            None => r is None,
        },
{
    let n: usize = s.len();
    let mut ty: bool = false;
    let mut feats: Option<Vec<(Polygon, Properties)>> = None;
    let mut cur: usize = j0;
    loop
        invariant
            j0 <= cur <= s@.len(),
            n == s@.len(),
            parse_doc_members(
                s@,
                cur as int,
                ty,
                match feats {
                    Some(v) => Some(entries_view(v@)),
                    None => None,
                },
            ) == parse_doc_members(s@, j0 as int, false, None),
        decreases s@.len() - cur,
    {
        let ghost ty0 = ty;
        let ghost f0: Option<Seq<(PolySpec, PropsSpec)>> = match &feats {
            Some(v) => Some(entries_view(v@)),
            None => None,
        };
        if !(cur < n && s[cur] == '"') {
            return None;
        }
        let (k, j1) = match crate::json::str_body_exec(s, cur + 1) {
            Some(v) => v,
            None => {
                return None;
            },
        };
        let j2 = crate::json::ws_exec(s, j1);
        if !(j2 < n && s[j2] == ':') {
            return None;
        }
        let j3 = crate::json::ws_exec(s, j2 + 1);
        let j4: usize;
        if chars_eq(&k, &kw_type()) {
            if ty {
                return None;
            }
            if !(j3 < n && s[j3] == '"') {
                return None;
            }
            let (v, vend) = match crate::json::str_body_exec(s, j3 + 1) {
                Some(v) => v,
                None => {
                    return None;
                },
            };
            ty = true;
            j4 = vend;
        } else if chars_eq(&k, &kw_features()) {
            if feats.is_some() {
                return None;
            }
            let (es, fend) = match parse_features_exec(s, j3) {
                Some(v) => v,
                None => {
                    return None;
                },
            };
            feats = Some(es);
            j4 = fend;
        } else {
            j4 = match crate::json::skip_value_exec(s, j3) {
                Some(v) => v,
                None => {
                    return None;
                },
            };
        }
        let j5 = crate::json::ws_exec(s, j4);
        let ghost f1: Option<Seq<(PolySpec, PropsSpec)>> = match &feats {
            Some(v) => Some(entries_view(v@)),
            None => None,
        };
        if j5 < n && s[j5] == ',' {
            let j6 = crate::json::ws_exec(s, j5 + 1);
            proof {
                assert(parse_doc_members(s@, cur as int, ty0, f0) == parse_doc_members(
                    s@,
                    j6 as int,
                    ty,
                    f1,
                ));
            }
            cur = j6;
        } else if j5 < n && s[j5] == '}' {
            proof {
                if ty && f1 is Some {
                    assert(parse_doc_members(s@, cur as int, ty0, f0) == Some::<
                        (Seq<(PolySpec, PropsSpec)>, int),
                    >((f1.unwrap(), j5 as int + 1)));
                } else {
                    assert(parse_doc_members(s@, cur as int, ty0, f0) is None);
                }
            }
            if !ty {
                return None;
            }
            let fv = match feats {
                Some(v) => v,
                None => {
                    return None;
                },
            };
            return Some((fv, j5 + 1));
        } else {
            return None;
        }
    }
}

/// Parse a whole dataset document; on success return the (polygon,
/// record) entries it contributes to the index, in document order.
pub(crate) fn parse_document_exec(s: &Vec<char>) -> (r: Option<Vec<(Polygon, Properties)>>)
    ensures
        match parse_doc(s@) {
            Some(es) => {
                &&& r is Some
                &&& entries_view(r.unwrap()@) == es
            },
            None => r is None,
        },
{
    proof {
        reveal(parse_doc);
    }
    let n: usize = s.len();
    let j = crate::json::ws_exec(s, 0);
    if !(j < n && s[j] == '{') {
        return None;
    }
    let j2 = crate::json::ws_exec(s, j + 1);
    if j2 < n && s[j2] == '}' {
        return None;
    }
    let (es, j3) = match parse_doc_members_exec(s, j2) {
        Some(v) => v,
        None => {
            return None;
        },
    };
    let j4 = crate::json::ws_exec(s, j3);
    if j4 == n {
        Some(es)
    } else {
        None
    }
}

} // verus!
