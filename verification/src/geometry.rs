//! Geometry primitives: points, polygons, and the ray-casting containment
//! test (even-odd rule), in exact fixed-point integer arithmetic.

use vstd::prelude::*;

verus! {

/// A coordinate pair. `x` is the longitude and `y` the latitude, both in
/// units of 1e-7 decimal degree (so 139.7670 degrees is 1_397_670_000).
#[derive(Clone, Copy, PartialEq, Eq, Structural, Debug)]
pub struct Point {
    pub x: i32,
    pub y: i32,
}

/// A polygon: an outer boundary ring plus zero or more hole rings. Rings are
/// implicitly closed: the edge from the last point back to the first is part
/// of the boundary whether or not the two are equal.
#[derive(Debug)]
pub struct Polygon {
    pub outer: Vec<Point>,
    pub holes: Vec<Vec<Point>>,
}

/// Whether the horizontal ray cast from `(px, py)` towards increasing `x`
/// crosses the edge from `a` to `b`. The half-open test on the endpoints'
/// `y` values makes a crossing at a shared vertex count exactly once, and
/// the multiplied-out comparison is the exact form of
/// `px < a.x + (b.x - a.x) * (py - a.y) / (b.y - a.y)`.
pub open spec fn edge_crosses(a: Point, b: Point, px: int, py: int) -> bool {
    ((a.y > py) != (b.y > py)) && (if b.y > a.y {
        (px - a.x) * (b.y - a.y) < (b.x - a.x) * (py - a.y)
    } else {
        (px - a.x) * (b.y - a.y) > (b.x - a.x) * (py - a.y)
    })
}

/// The number of ray crossings among the first `k` edges of the ring.
/// Edge `e` runs from `ring[e]` to `ring[(e + 1) % ring.len()]`, so the
/// closing edge from the last point back to the first is edge
/// `ring.len() - 1`.
pub open spec fn crossings_upto(ring: Seq<Point>, px: int, py: int, k: int) -> nat
    decreases k,
{
    if k <= 0 {
        0
    } else {
        crossings_upto(ring, px, py, k - 1) + (if edge_crosses(
            ring[k - 1],
            ring[k % ring.len() as int],
            px,
            py,
        ) {
            1nat
        } else {
            0nat
        })
    }
}

/// A point is inside a ring when the ray from it crosses the ring's edges
/// an odd number of times (the even-odd rule).
pub open spec fn ring_contains(ring: Seq<Point>, px: int, py: int) -> bool {
    crossings_upto(ring, px, py, ring.len() as int) % 2 == 1
}

/// A point is inside the polygon when it is inside the outer ring and
/// inside none of the hole rings.
pub open spec fn polygon_contains(p: Polygon, px: int, py: int) -> bool {
    &&& ring_contains(p.outer@, px, py)
    &&& forall|h: int| 0 <= h < p.holes@.len() ==> !ring_contains(#[trigger] p.holes@[h]@, px, py)
}

proof fn lemma_mul_fits_i128(u: i128, v: i128)
    requires
        -0x2_0000_0000_0000_0000 <= u <= 0x2_0000_0000_0000_0000,
        -0x2_0000_0000 <= v <= 0x2_0000_0000,
    ensures
        -0x4_0000_0000_0000_0000_0000_0000 <= u * v <= 0x4_0000_0000_0000_0000_0000_0000,
{
    assert(-0x4_0000_0000_0000_0000_0000_0000 <= u * v <= 0x4_0000_0000_0000_0000_0000_0000)
        by (nonlinear_arith)
        requires
            -0x2_0000_0000_0000_0000 <= u <= 0x2_0000_0000_0000_0000,
            -0x2_0000_0000 <= v <= 0x2_0000_0000,
    ;
}

fn edge_crosses_exec(a: Point, b: Point, px: i64, py: i64) -> (r: bool)
    ensures
        r == edge_crosses(a, b, px as int, py as int),
{
    let ay: i64 = a.y as i64;
    let by: i64 = b.y as i64;
    if (ay > py) != (by > py) {
        let u: i128 = px as i128 - a.x as i128;
        let v: i128 = by as i128 - ay as i128;
        let w: i128 = b.x as i128 - a.x as i128;
        let z: i128 = py as i128 - ay as i128;
        proof {
            lemma_mul_fits_i128(u, v);
            lemma_mul_fits_i128(z, w);
            assert(z * w == w * z) by (nonlinear_arith);
        }
        let lhs: i128 = u * v;
        let rhs: i128 = w * z;
        if by > ay {
            lhs < rhs
        } else {
            lhs > rhs
        }
    } else {
        false
    }
}

fn ring_contains_exec(ring: &Vec<Point>, px: i64, py: i64) -> (r: bool)
    ensures
        r == ring_contains(ring@, px as int, py as int),
{
    let n: usize = ring.len();
    let mut odd: bool = false;
    let mut k: usize = 0;
    while k < n
        invariant
            k <= n,
            n == ring@.len(),
            odd == (crossings_upto(ring@, px as int, py as int, k as int) % 2 == 1),
        decreases n - k,
    {
        let j: usize = if k + 1 == n {
            0
        } else {
            k + 1
        };
        let a = ring[k];
        let b = ring[j];
        proof {
            if k + 1 == n {
                vstd::arithmetic::div_mod::lemma_mod_self_0(n as int);
            } else {
                vstd::arithmetic::div_mod::lemma_small_mod((k + 1) as nat, n as nat);
            }
            assert(j as int == (k as int + 1) % ring@.len() as int);
            assert(crossings_upto(ring@, px as int, py as int, k as int + 1)
                == crossings_upto(ring@, px as int, py as int, k as int) + (if edge_crosses(
                ring@[k as int],
                ring@[(k as int + 1) % ring@.len() as int],
                px as int,
                py as int,
            ) {
                1nat
            } else {
                0nat
            }));
        }
        if edge_crosses_exec(a, b, px, py) {
            odd = !odd;
        }
        k = k + 1;
    }
    odd
}

impl Polygon {
    /// The ray-casting containment test: true when `(px, py)` lies inside
    /// the outer ring and outside every hole ring. Points exactly on an
    /// edge may resolve either way; the probe search is built to tolerate
    /// that ambiguity.
    pub fn contains(&self, px: i64, py: i64) -> (r: bool)
        ensures
            r == polygon_contains(*self, px as int, py as int),
    {
        if !ring_contains_exec(&self.outer, px, py) {
            return false;
        }
        let nh: usize = self.holes.len();
        let mut h: usize = 0;
        while h < nh
            invariant
                h <= nh,
                nh == self.holes@.len(),
                ring_contains(self.outer@, px as int, py as int),
                forall|i: int|
                    0 <= i < h ==> !ring_contains(
                        #[trigger] self.holes@[i]@,
                        px as int,
                        py as int,
                    ),
            decreases nh - h,
        {
            if ring_contains_exec(&self.holes[h], px, py) {
                return false;
            }
            h = h + 1;
        }
        true
    }
}

} // verus!
