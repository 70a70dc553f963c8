use vstd::prelude::*;

verus! {

/// Fixed-point scale: every world length is stored as an `i64` count of
/// thousandths of a world unit.
pub const SCALE: i64 = 1000;

/// Magnitude cap for a single stored coordinate, in fixed-point steps.
/// All geometry handed to the library must stay within this cube; it leaves
/// ample headroom for the squared-distance arithmetic below to stay in `i64`.
pub const COORD_LIMIT: i64 = 100_000_000;

/// A position or direction in 3-d space, in fixed-point steps.
#[derive(Clone, Copy, Debug, PartialEq, Eq, Structural)]
pub struct Vec3i {
    pub x: i64,
    pub y: i64,
    pub z: i64,
}

/// Truncating division by a positive divisor (rounds toward zero), the
/// semantics of `/` on Rust's signed integers.
pub open spec fn tdiv(a: int, b: int) -> int {
    if a >= 0 {
        a / b
    } else {
        -((-a) / b)
    }
}

impl Vec3i {
    /// Every coordinate within the supported cube.
    pub open spec fn in_bounds(self) -> bool {
        &&& -COORD_LIMIT <= self.x <= COORD_LIMIT
        &&& -COORD_LIMIT <= self.y <= COORD_LIMIT
        &&& -COORD_LIMIT <= self.z <= COORD_LIMIT
    }

    /// Every coordinate within twice the supported cube (a difference of two
    /// in-bounds points).
    pub open spec fn in_bounds2(self) -> bool {
        &&& -2 * COORD_LIMIT <= self.x <= 2 * COORD_LIMIT
        &&& -2 * COORD_LIMIT <= self.y <= 2 * COORD_LIMIT
        &&& -2 * COORD_LIMIT <= self.z <= 2 * COORD_LIMIT
    }

    pub fn new(x: i64, y: i64, z: i64) -> (r: Vec3i)
        ensures
            r == (Vec3i { x, y, z }),
    {
        Vec3i { x, y, z }
    }

    pub fn sub(self, other: Vec3i) -> (r: Vec3i)
        requires
            self.in_bounds(),
            other.in_bounds(),
        ensures
            r.x == self.x - other.x,
            r.y == self.y - other.y,
            r.z == self.z - other.z,
            r.in_bounds2(),
    {
        Vec3i { x: self.x - other.x, y: self.y - other.y, z: self.z - other.z }
    }

    /// Componentwise midpoint, each component rounded toward zero.
    pub open spec fn midpoint_spec(self, other: Vec3i) -> Vec3i {
        Vec3i {
            x: tdiv(self.x + other.x, 2) as i64,
            y: tdiv(self.y + other.y, 2) as i64,
            z: tdiv(self.z + other.z, 2) as i64,
        }
    }

    pub fn midpoint(self, other: Vec3i) -> (r: Vec3i)
        requires
            self.in_bounds(),
            other.in_bounds(),
        ensures
            r == self.midpoint_spec(other),
            r.in_bounds(),
    {
        let r = Vec3i {
            x: (self.x + other.x) / 2,
            y: (self.y + other.y) / 2,
            z: (self.z + other.z) / 2,
        };
        proof {
            lemma_tdiv_shrinks(self.x + other.x, 2, 2 * COORD_LIMIT);
            lemma_tdiv_shrinks(self.y + other.y, 2, 2 * COORD_LIMIT);
            lemma_tdiv_shrinks(self.z + other.z, 2, 2 * COORD_LIMIT);
        }
        r
    }

    /// Componentwise centroid of three points, each component rounded toward
    /// zero.
    pub open spec fn centroid_spec(self, b: Vec3i, c: Vec3i) -> Vec3i {
        Vec3i {
            x: tdiv(self.x + b.x + c.x, 3) as i64,
            y: tdiv(self.y + b.y + c.y, 3) as i64,
            z: tdiv(self.z + b.z + c.z, 3) as i64,
        }
    }

    pub fn centroid(self, b: Vec3i, c: Vec3i) -> (r: Vec3i)
        requires
            self.in_bounds(),
            b.in_bounds(),
            c.in_bounds(),
        ensures
            r == self.centroid_spec(b, c),
            r.in_bounds(),
    {
        let r = Vec3i {
            x: (self.x + b.x + c.x) / 3,
            y: (self.y + b.y + c.y) / 3,
            z: (self.z + b.z + c.z) / 3,
        };
        proof {
            lemma_tdiv_shrinks(self.x + b.x + c.x, 3, 3 * COORD_LIMIT);
            lemma_tdiv_shrinks(self.y + b.y + c.y, 3, 3 * COORD_LIMIT);
            lemma_tdiv_shrinks(self.z + b.z + c.z, 3, 3 * COORD_LIMIT);
        }
        r
    }
}

/// The squared Euclidean distance between two points, exactly.
pub open spec fn dist_sq_spec(a: Vec3i, b: Vec3i) -> int {
    (a.x - b.x) * (a.x - b.x) + (a.y - b.y) * (a.y - b.y) + (a.z - b.z) * (a.z - b.z)
}

pub fn dist_sq(a: Vec3i, b: Vec3i) -> (r: i64)
    requires
        a.in_bounds(),
        b.in_bounds(),
    ensures
        r == dist_sq_spec(a, b),
        0 <= r <= 12 * COORD_LIMIT * COORD_LIMIT,
{
    let dx = a.x - b.x;
    let dy = a.y - b.y;
    let dz = a.z - b.z;
    proof {
        lemma_coord_square_bound(dx as int);
        lemma_coord_square_bound(dy as int);
        lemma_coord_square_bound(dz as int);
    }
    dx * dx + dy * dy + dz * dz
}

/// The cross product of two difference vectors, exactly.
pub fn cross(a: Vec3i, b: Vec3i) -> (r: Vec3i)
    requires
        a.in_bounds2(),
        b.in_bounds2(),
    ensures
        r.x == a.y * b.z - a.z * b.y,
        r.y == a.z * b.x - a.x * b.z,
        r.z == a.x * b.y - a.y * b.x,
        -80_000_000_000_000_000 <= r.x <= 80_000_000_000_000_000,
        -80_000_000_000_000_000 <= r.y <= 80_000_000_000_000_000,
        -80_000_000_000_000_000 <= r.z <= 80_000_000_000_000_000,
{
    proof {
        lemma_coord_product_bound(a.x as int, b.y as int);
        lemma_coord_product_bound(a.x as int, b.z as int);
        lemma_coord_product_bound(a.y as int, b.x as int);
        lemma_coord_product_bound(a.y as int, b.z as int);
        lemma_coord_product_bound(a.z as int, b.x as int);
        lemma_coord_product_bound(a.z as int, b.y as int);
    }
    Vec3i {
        x: a.y * b.z - a.z * b.y,
        y: a.z * b.x - a.x * b.z,
        z: a.x * b.y - a.y * b.x,
    }
}

/// The square of a coordinate difference stays well inside `i64`.
pub proof fn lemma_coord_square_bound(d: int)
    by (nonlinear_arith)
    requires
        -200_000_000 <= d <= 200_000_000,
    ensures
        0 <= d * d <= 40_000_000_000_000_000,
{
}

/// A product of two coordinate differences stays well inside `i64`.
pub proof fn lemma_coord_product_bound(a: int, b: int)
    by (nonlinear_arith)
    requires
        -200_000_000 <= a <= 200_000_000,
        -200_000_000 <= b <= 200_000_000,
    ensures
        -40_000_000_000_000_000 <= a * b <= 40_000_000_000_000_000,
{
}

/// Truncating division by a positive divisor keeps a value inside a
/// symmetric bound.
pub proof fn lemma_tdiv_shrinks(a: int, b: int, m: int)
    by (nonlinear_arith)
    requires
        b >= 1,
        0 <= m,
        -m <= a <= m,
    ensures
        -m <= tdiv(a, b) <= m,
        0 <= a ==> 0 <= tdiv(a, b) <= a,
        a < 0 ==> a <= tdiv(a, b) <= 0,
{
}

/// Integer square root: the largest `r` with `r * r <= x`.
pub open spec fn is_isqrt(x: int, r: int) -> bool {
    0 <= r && r * r <= x && x < (r + 1) * (r + 1)
}

/// The floor of the square root of a nonnegative value.
pub open spec fn sqrt_floor(x: int) -> int {
    choose|r: int| is_isqrt(x, r)
}

/// The integer square root of `x`, by bisection.
pub fn isqrt_u64(x: u64) -> (r: u64)
    ensures
        is_isqrt(x as int, r as int),
        r <= 0xffff_ffff,
{
    let mut lo: u64 = 0;
    let mut hi: u64 = if x >= 0xffff_ffff { 0x1_0000_0000 } else { x + 1 };
    proof {
        assert(x < (0x1_0000_0000u64 as int) * (0x1_0000_0000u64 as int)) by (nonlinear_arith);
        assert(x >= 0xffff_ffffu64 || x < (x + 1) * (x + 1)) by (nonlinear_arith);
    }
    while lo + 1 < hi
        invariant
            lo < hi,
            hi <= 0x1_0000_0000,
            (lo as int) * (lo as int) <= x as int,
            x < (hi as int) * (hi as int),
        decreases hi - lo,
    {
        let mid: u64 = lo + (hi - lo) / 2;
        proof {
            assert((mid as int) * (mid as int) <= 0xffff_ffff_ffff_ffff) by (nonlinear_arith)
                requires mid <= 0xffff_ffffu64;
        }
        if mid * mid <= x {
            lo = mid;
        } else {
            hi = mid;
        }
    }
    lo
}

/// The integer square root of a `u128`, by bisection.
pub fn isqrt_u128(x: u128) -> (r: u128)
    ensures
        is_isqrt(x as int, r as int),
        r <= 0xffff_ffff_ffff_ffff,
{
    let mut lo: u128 = 0;
    let mut hi: u128 = if x >= 0xffff_ffff_ffff_ffff {
        0x1_0000_0000_0000_0000
    } else {
        x + 1
    };
    proof {
        assert(x < (0x1_0000_0000_0000_0000u128 as int) * (0x1_0000_0000_0000_0000u128 as int))
            by (nonlinear_arith);
        assert(x >= 0xffff_ffff_ffff_ffffu128 || x < (x + 1) * (x + 1)) by (nonlinear_arith);
    }
    while lo + 1 < hi
        invariant
            lo < hi,
            hi <= 0x1_0000_0000_0000_0000,
            (lo as int) * (lo as int) <= x as int,
            x < (hi as int) * (hi as int),
        decreases hi - lo,
    {
        let mid: u128 = lo + (hi - lo) / 2;
        proof {
            assert(
                (mid as int) * (mid as int) <= 0xffff_ffff_ffff_ffff_ffff_ffff_ffff_ffffu128
            ) by (nonlinear_arith)
                requires mid <= 0xffff_ffff_ffff_ffffu128;
        }
        if mid * mid <= x {
            lo = mid;
        } else {
            hi = mid;
        }
    }
    lo
}

/// An integer square root is unique.
pub proof fn lemma_isqrt_unique(x: int, r1: int, r2: int)
    by (nonlinear_arith)
    requires
        is_isqrt(x, r1),
        is_isqrt(x, r2),
    ensures
        r1 == r2,
{
}

} // verus!
