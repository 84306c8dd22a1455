//! Integer 3-vectors and the squared-distance arithmetic shared by all
//! spatial partitions.
//!
//! Positions are integer triples. Every coordinate a partition stores or
//! is queried at must lie in `[-COORD_LIMIT, COORD_LIMIT]`, and query
//! radii must not exceed `RADIUS_LIMIT`: these bounds keep every squared
//! distance, cell key and bounding-box computation — ours and the ones
//! the tree crates perform internally on the same values — inside `i64`.

use vstd::arithmetic::div_mod::lemma_fundamental_div_mod;
use vstd::arithmetic::div_mod::lemma_fundamental_div_mod_converse;
use vstd::prelude::*;

verus! {

/// Largest magnitude a stored or queried coordinate may have.
pub const COORD_LIMIT: i64 = 524288;

/// Largest radius a query may use.
pub const RADIUS_LIMIT: i64 = 2097152;

/// An integer 3-vector: an agent position or a cell key.
#[derive(Clone, Copy, PartialEq, Eq, Structural, Debug)]
pub struct Point3 {
    pub x: i64,
    pub y: i64,
    pub z: i64,
}

pub open spec fn sq(a: int) -> int {
    a * a
}

pub open spec fn bounded_coord(c: int) -> bool {
    -COORD_LIMIT <= c <= COORD_LIMIT
}

pub open spec fn bounded_pos(p: Point3) -> bool {
    bounded_coord(p.x as int) && bounded_coord(p.y as int) && bounded_coord(p.z as int)
}

/// Squared Euclidean distance between (ax, ay, az) and (bx, by, bz).
pub open spec fn dist2(ax: int, ay: int, az: int, bx: int, by: int, bz: int) -> int {
    sq(ax - bx) + sq(ay - by) + sq(az - bz)
}

impl Point3 {
    pub fn new(x: i64, y: i64, z: i64) -> (p: Point3)
        ensures
            p.x == x,
            p.y == y,
            p.z == z,
    {
        Point3 { x, y, z }
    }

    /// True when `other` lies within distance `r` of `self`; always false
    /// for a negative `r`, so a malformed radius selects nothing.
    pub fn within_dist(&self, other: &Point3, r: i64) -> (b: bool)
        requires
            bounded_pos(*self),
            bounded_pos(*other),
        ensures
            b == (0 <= r && dist2(
                self.x as int,
                self.y as int,
                self.z as int,
                other.x as int,
                other.y as int,
                other.z as int,
            ) <= sq(r as int)),
    {
        if r < 0 {
            return false;
        }
        let dx: i128 = self.x as i128 - other.x as i128;
        let dy: i128 = self.y as i128 - other.y as i128;
        let dz: i128 = self.z as i128 - other.z as i128;
        proof {
            let cl: int = COORD_LIMIT as int;
            assert(0 <= dx * dx <= 4 * cl * cl && 0 <= dy * dy <= 4 * cl * cl && 0 <= dz * dz
                <= 4 * cl * cl) by (nonlinear_arith)
                requires
                    -2 * cl <= dx <= 2 * cl,
                    -2 * cl <= dy <= 2 * cl,
                    -2 * cl <= dz <= 2 * cl,
            ;
            assert(0 <= (r as int) * (r as int) <= 0x4000_0000_0000_0000_0000_0000_0000_0000int)
                by (nonlinear_arith)
                requires
                    -0x8000_0000_0000_0000 <= (r as int) < 0x8000_0000_0000_0000,
            ;
        }
        let d2: i128 = dx * dx + dy * dy + dz * dz;
        d2 <= (r as i128) * (r as i128)
    }
}

pub proof fn lemma_sq_nonneg(a: int)
    ensures
        0 <= sq(a),
{
    assert(0 <= a * a) by (nonlinear_arith);
}

/// A squared distance within `sq(r)` bounds each axis by `r`.
pub proof fn lemma_axis_bound(d: int, rest: int, r: int)
    requires
        0 <= r,
        0 <= rest,
        sq(d) + rest <= sq(r),
    ensures
        -r <= d <= r,
{
    assert(-r <= d <= r) by (nonlinear_arith)
        requires
            0 <= r,
            0 <= rest,
            d * d + rest <= r * r,
    ;
}

/// Flooring division of a bounded coordinate by a positive divisor: the
/// mathematical quotient rounded toward negative infinity, which is the
/// quotient of ghost-code `/` for a positive divisor.
pub fn div_floor(a: i64, b: i64) -> (q: i64)
    requires
        1 <= b,
        bounded_coord(a as int),
    ensures
        q == (a as int) / (b as int),
        bounded_coord(q as int),
{
    if a >= 0 {
        let qa: u64 = (a as u64) / (b as u64);
        proof {
            lemma_fundamental_div_mod(a as int, b as int);
            assert((a as int) / (b as int) * (b as int) <= a as int && 0 <= (a as int) / (
            b as int)) by (nonlinear_arith)
                requires
                    0 <= a as int,
                    1 <= b as int,
                    a as int == (b as int) * ((a as int) / (b as int)) + (a as int) % (b as int),
                    0 <= (a as int) % (b as int) < b as int,
            ;
            assert((a as int) / (b as int) <= a as int) by (nonlinear_arith)
                requires
                    0 <= (a as int) / (b as int),
                    1 <= b as int,
                    (a as int) / (b as int) * (b as int) <= a as int,
            ;
        }
        qa as i64
    } else {
        let m: u64 = (-a) as u64;
        let bu: u64 = b as u64;
        let qm: u64 = (m + bu - 1) / bu;
        proof {
            let mi: int = m as int;
            let bi: int = b as int;
            lemma_fundamental_div_mod(mi - 1, bi);
            let k: int = (mi - 1) / bi;
            let s: int = (mi - 1) % bi;
            assert(0 <= k <= mi - 1) by (nonlinear_arith)
                requires
                    1 <= mi,
                    1 <= bi,
                    mi - 1 == bi * k + s,
                    0 <= s < bi,
            ;
            assert(mi + bi - 1 == (k + 1) * bi + s) by (nonlinear_arith)
                requires
                    mi - 1 == bi * k + s,
            ;
            lemma_fundamental_div_mod_converse(mi + bi - 1, bi, k + 1, s);
            assert(-mi == (-k - 1) * bi + (bi - s - 1)) by (nonlinear_arith)
                requires
                    mi - 1 == bi * k + s,
            ;
            lemma_fundamental_div_mod_converse(-mi, bi, -k - 1, bi - s - 1);
        }
        -(qm as i64)
    }
}

} // verus!
