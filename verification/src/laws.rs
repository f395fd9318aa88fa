//! The library's stated laws: properties of the containment test, the
//! probe search and the map aggregation, proved once and for all inputs.

use vstd::prelude::*;
use crate::geometry::Point;
use crate::geometry::Polygon;
use crate::geometry::edge_crosses;
use crate::geometry::crossings_upto;
use crate::geometry::ring_contains;
use crate::geometry::polygon_contains;
use crate::engine::shift;
use crate::engine::matches_at;
use crate::engine::matches_upto;
use crate::engine::probe_from;
use crate::engine::find_spec;
use crate::propmap::map_of;
use crate::propmap::code_set;
use crate::propmap::codes_distinct;
use crate::propmap::lemma_map_of_dom;
use crate::propmap::lemma_code_set_card;
use crate::props::Properties;

verus! {

/// The closed ring of an axis-aligned rectangle with corners `(x1, y1)`
/// and `(x2, y2)`.
pub open spec fn rect_ring(x1: i32, y1: i32, x2: i32, y2: i32) -> Seq<Point> {
    seq![
        Point { x: x1, y: y2 },
        Point { x: x1, y: y1 },
        Point { x: x2, y: y1 },
        Point { x: x2, y: y2 },
        Point { x: x1, y: y2 },
    ]
}

/// For a simple axis-aligned rectangle, the ray-casting test finds every
/// point strictly inside the box inside the ring, and every point
/// strictly outside the box outside it.
pub proof fn lemma_rectangle_contains(x1: i32, y1: i32, x2: i32, y2: i32, px: int, py: int)
    requires
        x1 < x2,
        y1 < y2,
    ensures
        x1 < px < x2 && y1 < py < y2 ==> ring_contains(rect_ring(x1, y1, x2, y2), px, py),
        px < x1 || px > x2 || py < y1 || py > y2 ==> !ring_contains(
            rect_ring(x1, y1, x2, y2),
            px,
            py,
        ),
{
    let ring = rect_ring(x1, y1, x2, y2);
    reveal_with_fuel(crossings_upto, 6);
    assert((x1 - x1) * (py - y2) == 0) by (nonlinear_arith);
    assert((x2 - x2) * (py - y1) == 0) by (nonlinear_arith);
    if px < x1 {
        assert((px - x1) * (y1 - y2) > 0) by (nonlinear_arith)
            requires
                px < x1,
                y1 < y2,
        ;
    } else {
        assert((px - x1) * (y1 - y2) <= 0) by (nonlinear_arith)
            requires
                px >= x1,
                y1 < y2,
        ;
    }
    if px < x2 {
        assert((px - x2) * (y2 - y1) < 0) by (nonlinear_arith)
            requires
                px < x2,
                y1 < y2,
        ;
    } else {
        assert((px - x2) * (y2 - y1) >= 0) by (nonlinear_arith)
            requires
                px >= x2,
                y1 < y2,
        ;
    }
    assert(ring.len() == 5);
    assert(!edge_crosses(ring[1], ring[2], px, py));
    assert(!edge_crosses(ring[3], ring[4int % 5], px, py));
    assert(!edge_crosses(ring[4], ring[5int % 5], px, py));
    assert(crossings_upto(ring, px, py, 1) == crossings_upto(ring, px, py, 0) + (if edge_crosses(
        ring[0],
        ring[1int % 5],
        px,
        py,
    ) {
        1nat
    } else {
        0nat
    }));
    assert(crossings_upto(ring, px, py, 3) == crossings_upto(ring, px, py, 2) + (if edge_crosses(
        ring[2],
        ring[3int % 5],
        px,
        py,
    ) {
        1nat
    } else {
        0nat
    }));
    assert(crossings_upto(ring, px, py, 5) == crossings_upto(ring, px, py, 4) + (if edge_crosses(
        ring[4],
        ring[5int % 5],
        px,
        py,
    ) {
        1nat
    } else {
        0nat
    }));
    if px < x1 || px > x2 || py < y1 || py > y2 {
        if (y2 > py) != (y1 > py) {
            if px < x1 {
                assert(edge_crosses(ring[0], ring[1], px, py));
                assert(edge_crosses(ring[2], ring[3], px, py));
                assert(crossings_upto(ring, px, py, 5) == 2);
            } else {
                assert(!edge_crosses(ring[0], ring[1], px, py));
                assert(!edge_crosses(ring[2], ring[3], px, py));
                assert(crossings_upto(ring, px, py, 5) == 0);
            }
        } else {
            assert(!edge_crosses(ring[0], ring[1], px, py));
            assert(!edge_crosses(ring[2], ring[3], px, py));
            assert(crossings_upto(ring, px, py, 5) == 0);
        }
    }
}

/// The rectangle law lifted to a polygon value without holes.
pub proof fn lemma_rectangle_polygon(
    p: Polygon,
    x1: i32,
    y1: i32,
    x2: i32,
    y2: i32,
    px: int,
    py: int,
)
    requires
        x1 < x2,
        y1 < y2,
        p.outer@ == rect_ring(x1, y1, x2, y2),
        p.holes@.len() == 0,
    ensures
        x1 < px < x2 && y1 < py < y2 ==> polygon_contains(p, px, py),
        px < x1 || px > x2 || py < y1 || py > y2 ==> !polygon_contains(p, px, py),
{
    lemma_rectangle_contains(x1, y1, x2, y2, px, py);
}

/// When every probe combination in `[a, b)` yields no match, the search
/// outcome from combination `a` equals the outcome from combination `b`.
pub proof fn lemma_probe_skip(
    entries: Seq<(Polygon, Properties)>,
    x: int,
    y: int,
    a: int,
    b: int,
)
    requires
        0 <= a <= b <= 49,
        forall|j: int|
            a <= j < b ==> (#[trigger] matches_at(entries, x + shift(j / 7), y + shift(j % 7))).len()
                == 0,
    ensures
        probe_from(entries, x, y, a) == probe_from(entries, x, y, b),
    decreases b - a,
{
    if a < b {
        assert(matches_at(entries, x + shift(a / 7), y + shift(a % 7)).len() == 0);
        lemma_probe_skip(entries, x, y, a + 1, b);
    }
}

/// An engine with no ingested entries finds nothing, whatever the
/// coordinate.
pub proof fn lemma_empty_index_finds_nothing(x: int, y: int)
    ensures
        find_spec(Seq::<(Polygon, Properties)>::empty(), x, y) == Seq::<Properties>::empty(),
{
    let e = Seq::<(Polygon, Properties)>::empty();
    assert forall|j: int|
        0 <= j < 49 implies (#[trigger] matches_at(e, x + shift(j / 7), y + shift(j % 7))).len()
        == 0 by {
        assert(matches_upto(e, x + shift(j / 7), y + shift(j % 7), 0) == Seq::<Properties>::empty());
    }
    lemma_probe_skip(e, x, y, 0, 49);
}

/// Determinism: the query outcome is a function of the index contents and
/// the coordinate alone, so two results of the same query are equal.
pub proof fn lemma_find_deterministic(
    entries: Seq<(Polygon, Properties)>,
    x: int,
    y: int,
    r1: Seq<Properties>,
    r2: Seq<Properties>,
)
    requires
        r1 == find_spec(entries, x, y),
        r2 == find_spec(entries, x, y),
    ensures
        r1 == r2,
{
}

/// Probe ordering: when every combination before `k` yields no match and
/// combination `k` yields one, the search returns exactly combination
/// `k`'s matches — the offset fallback fires in the documented order.
pub proof fn lemma_probe_ordering(
    entries: Seq<(Polygon, Properties)>,
    x: int,
    y: int,
    k: int,
)
    requires
        0 <= k < 49,
        forall|j: int|
            0 <= j < k ==> (#[trigger] matches_at(entries, x + shift(j / 7), y + shift(j % 7))).len()
                == 0,
        matches_at(entries, x + shift(k / 7), y + shift(k % 7)).len() > 0,
    ensures
        find_spec(entries, x, y) == matches_at(entries, x + shift(k / 7), y + shift(k % 7)),
{
    lemma_probe_skip(entries, x, y, 0, k);
}

/// The map view of a query agrees with the sequence view: its key set is
/// exactly the set of distinct codes of the sequence, its size never
/// exceeds the sequence's length, and the two sizes agree exactly when
/// the sequence repeats no code.
pub proof fn lemma_map_view_of_find(entries: Seq<(Polygon, Properties)>, x: int, y: int)
    ensures
        map_of(find_spec(entries, x, y)).dom() == code_set(find_spec(entries, x, y)),
        map_of(find_spec(entries, x, y)).dom().len() <= find_spec(entries, x, y).len(),
        map_of(find_spec(entries, x, y)).dom().len() == find_spec(entries, x, y).len()
            <==> codes_distinct(find_spec(entries, x, y)),
{
    lemma_map_of_dom(find_spec(entries, x, y));
    lemma_code_set_card(find_spec(entries, x, y));
}

} // verus!
