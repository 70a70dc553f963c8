use vstd::prelude::*;
use crate::math::{Vec3i, COORD_LIMIT, tdiv};

verus! {

/// Depth at which quadtree nodes become real render/physics entities.
pub const BASE_SPLIT_LEVEL: u8 = 4;

/// Planet extent, in fixed-point steps.
pub const PLANET_RADIUS: i64 = 100_000_000;

/// Distance stood in for the nearest probe when no probe exists, so that
/// every patch tends toward merging.
pub const NO_PROBE_DISTANCE: i64 = 666_666_000;

/// Tuning knobs of the tessellation pass. Lengths are in fixed-point steps;
/// `TESSELATION_VALUE` and `SPLIT_LAZY_COEF` are dimensionless ratios stored
/// in thousandths.
#[allow(non_snake_case)]
#[derive(Clone, Copy, Debug, PartialEq, Eq, Structural)]
pub struct TerrainSettings {
    /// Hard cap on recursion depth.
    pub MAX_SPLIT_LEVEL: u8,
    /// Force-split floor: patches above this stay split.
    pub MIN_SPLIT_LEVEL: u8,
    /// Target angular-size threshold, in thousandths.
    pub TESSELATION_VALUE: i64,
    pub MIN_CAMERA_HEIGHT: i64,
    pub MAX_CAMERA_HEIGHT: i64,
    /// Hysteresis band fraction, in thousandths; within `[0, 500)`.
    pub SPLIT_LAZY_COEF: i64,
    /// Absolute floor on a patch edge length.
    pub MIN_TRIANGLE_EDGE_SIZE: i64,
}

impl TerrainSettings {
    /// The ranges under which the split/merge arithmetic is exact and
    /// overflow-free.
    pub open spec fn valid(self) -> bool {
        &&& 0 <= self.TESSELATION_VALUE <= 1_000_000
        &&& 0 <= self.SPLIT_LAZY_COEF < 500
        &&& 0 <= self.MIN_TRIANGLE_EDGE_SIZE <= COORD_LIMIT
    }
}

impl Default for TerrainSettings {
    fn default() -> (s: TerrainSettings)
        ensures
            s.valid(),
            s.MAX_SPLIT_LEVEL == 20,
            s.MIN_SPLIT_LEVEL == BASE_SPLIT_LEVEL + 2,
            s.TESSELATION_VALUE == 1800,
            s.SPLIT_LAZY_COEF == 200,
            s.MIN_TRIANGLE_EDGE_SIZE == 9100,
    {
        TerrainSettings {
            MAX_SPLIT_LEVEL: 20,
            MIN_SPLIT_LEVEL: BASE_SPLIT_LEVEL + 2,
            TESSELATION_VALUE: 1800,
            MIN_CAMERA_HEIGHT: 300,
            MAX_CAMERA_HEIGHT: 450_000,
            SPLIT_LAZY_COEF: 200,
            MIN_TRIANGLE_EDGE_SIZE: 9100,
        }
    }
}

pub const NOISE_SEED: u64 = 11;

/// Tallest mountain, in fixed-point steps.
pub const MOUNTAIN_HEIGHT: i64 = 500_000;

/// Wavelength of the first noise octave: the base frequency of 100 units
/// stretched by 1.3.
pub const NOISE_FREQ_1: i64 = 130_000;

/// Wavelength of the second noise octave (base frequency times 1.3 squared).
pub const NOISE_FREQ_2: i64 = 169_000;

/// Amplitude of the first octave: `MOUNTAIN_HEIGHT / 1.3`.
pub const NOISE_AMP_1: i64 = 384_615;

/// Amplitude of the second octave: `MOUNTAIN_HEIGHT / 1.69`.
pub const NOISE_AMP_2: i64 = 295_857;

/// A single noise sample lies within `[-NOISE_UNIT, NOISE_UNIT]`.
pub const NOISE_UNIT: i64 = 1000;

/// Every height the field can produce lies within this bound.
pub const HEIGHT_LIMIT: i64 = 700_000;

/// One 64-bit mixing round: multiply into 128 bits and fold the halves.
pub open spec fn mix64_spec(v: u64) -> u64 {
    let w = ((v as u128) * 0x9E37_79B9_7F4A_7C15) as u128;
    ((w >> 64) ^ w) as u64
}

pub fn mix64(v: u64) -> (r: u64)
    ensures
        r == mix64_spec(v),
{
    let w: u128 = (v as u128) * 0x9E37_79B9_7F4A_7C15;
    #[verifier::truncate] (((w >> 64) ^ w) as u64)
}

/// The pseudo-random lattice value at an integer cell, in
/// `[-NOISE_UNIT, NOISE_UNIT]`. Depends only on its arguments, so repeated
/// queries agree.
pub open spec fn cell_value_spec(cx: int, cz: int, seed: u64) -> int {
    let a = mix64_spec(cx as u64);
    let b = mix64_spec((cz as u64) ^ 0x5851_F42D_4C95_7F2D);
    let h = mix64_spec(a ^ b ^ seed);
    (h % 2001) - NOISE_UNIT
}

fn cell_value(cx: i64, cz: i64, seed: u64) -> (v: i64)
    ensures
        v == cell_value_spec(cx as int, cz as int, seed),
        -NOISE_UNIT <= v <= NOISE_UNIT,
{
    let a = mix64(#[verifier::truncate] (cx as u64));
    let b = mix64((#[verifier::truncate] (cz as u64)) ^ 0x5851_F42D_4C95_7F2D);
    let h = mix64(a ^ b ^ seed);
    ((h % 2001) as i64) - NOISE_UNIT
}

/// Floor division by a positive divisor (Euclidean when the divisor is
/// positive).
fn div_floor(a: i64, b: i64) -> (q: i64)
    requires
        1 <= b,
        -COORD_LIMIT <= a <= COORD_LIMIT,
    ensures
        q == a as int / b as int,
{
    let qt = a / b;
    let r = a % b;
    if r < 0 {
        proof {
            let na = -(a as int);
            let d = na / (b as int);
            let m = na % (b as int);
            vstd::arithmetic::div_mod::lemma_fundamental_div_mod(na, b as int);
            vstd::arithmetic::div_mod::lemma_mod_division_less_than_divisor(na, b as int);
            assert(a as int == (-d - 1) * (b as int) + ((b as int) - m)) by (nonlinear_arith)
                requires
                    na == -(a as int),
                    na == (b as int) * d + m;
            vstd::arithmetic::div_mod::lemma_fundamental_div_mod_converse(
                a as int, b as int, -d - 1, (b as int) - m);
        }
        qt - 1
    } else {
        proof {
            if a < 0 {
                let na = -(a as int);
                let d = na / (b as int);
                let m = na % (b as int);
                vstd::arithmetic::div_mod::lemma_fundamental_div_mod(na, b as int);
                vstd::arithmetic::div_mod::lemma_mod_division_less_than_divisor(na, b as int);
                assert(a as int == (-d) * (b as int) + 0) by (nonlinear_arith)
                    requires
                        na == -(a as int),
                        na == (b as int) * d + m,
                        m == 0;
                vstd::arithmetic::div_mod::lemma_fundamental_div_mod_converse(
                    a as int, b as int, -d, 0);
            }
        }
        qt
    }
}

/// Bilinearly interpolated lattice noise at a point, for one wavelength and
/// seed. The result lies in `[-NOISE_UNIT, NOISE_UNIT]`.
pub open spec fn noise2d_spec(x: int, z: int, freq: int, seed: u64) -> int {
    let cx = x / freq;
    let cz = z / freq;
    let fx = x - cx * freq;
    let fz = z - cz * freq;
    let wx = freq - fx;
    let wz = freq - fz;
    let v00 = cell_value_spec(cx, cz, seed);
    let v10 = cell_value_spec(cx + 1, cz, seed);
    let v01 = cell_value_spec(cx, cz + 1, seed);
    let v11 = cell_value_spec(cx + 1, cz + 1, seed);
    tdiv(v00 * wx * wz + v10 * fx * wz + v01 * wx * fz + v11 * fx * fz, freq * freq)
}

fn noise2d(x: i64, z: i64, freq: i64, seed: u64) -> (v: i64)
    requires
        1 <= freq <= 200_000,
        -COORD_LIMIT <= x <= COORD_LIMIT,
        -COORD_LIMIT <= z <= COORD_LIMIT,
    ensures
        v == noise2d_spec(x as int, z as int, freq as int, seed),
        -NOISE_UNIT <= v <= NOISE_UNIT,
{
    let cx = div_floor(x, freq);
    let cz = div_floor(z, freq);
    proof {
        vstd::arithmetic::div_mod::lemma_fundamental_div_mod(x as int, freq as int);
        vstd::arithmetic::div_mod::lemma_fundamental_div_mod(z as int, freq as int);
        vstd::arithmetic::div_mod::lemma_mod_division_less_than_divisor(x as int, freq as int);
        vstd::arithmetic::div_mod::lemma_mod_division_less_than_divisor(z as int, freq as int);
        assert(cx * freq == x - (x as int % freq as int)
            && 0 <= x - cx * freq < freq) by (nonlinear_arith)
            requires
                cx == x as int / freq as int,
                x == freq * (x as int / freq as int) + (x as int % freq as int),
                0 <= (x as int % (freq as int)),
                (x as int % (freq as int)) < freq;
        assert(cz * freq == z - (z as int % freq as int)
            && 0 <= z - cz * freq < freq) by (nonlinear_arith)
            requires
                cz == z as int / freq as int,
                z == freq * (z as int / freq as int) + (z as int % freq as int),
                0 <= (z as int % (freq as int)),
                (z as int % (freq as int)) < freq;
    }
    let fx = x - cx * freq;
    let fz = z - cz * freq;
    let wx = freq - fx;
    let wz = freq - fz;
    let v00 = cell_value(cx, cz, seed);
    let v10 = cell_value(cx + 1, cz, seed);
    let v01 = cell_value(cx, cz + 1, seed);
    let v11 = cell_value(cx + 1, cz + 1, seed);
    proof {
        lemma_bilinear_bound(
            v00 as int, v10 as int, v01 as int, v11 as int,
            fx as int, fz as int, freq as int);
    }
    let num = v00 * (wx * wz) + v10 * (fx * wz) + v01 * (wx * fz) + v11 * (fx * fz);
    let den = freq * freq;
    let v = num / den;
    proof {
        lemma_tdiv_bound(num as int, den as int, NOISE_UNIT as int);
        assert(v00 * (wx * wz) == v00 * wx * wz) by (nonlinear_arith);
        assert(v10 * (fx * wz) == v10 * fx * wz) by (nonlinear_arith);
        assert(v01 * (wx * fz) == v01 * wx * fz) by (nonlinear_arith);
        assert(v11 * (fx * fz) == v11 * fx * fz) by (nonlinear_arith);
    }
    v
}

/// The interpolation numerator is bounded by `NOISE_UNIT` times the squared
/// wavelength, and each partial product stays inside `i64`.
proof fn lemma_bilinear_bound(
    v00: int, v10: int, v01: int, v11: int, fx: int, fz: int, freq: int)
    by (nonlinear_arith)
    requires
        1 <= freq <= 200_000,
        0 <= fx < freq,
        0 <= fz < freq,
        -1000 <= v00 <= 1000,
        -1000 <= v10 <= 1000,
        -1000 <= v01 <= 1000,
        -1000 <= v11 <= 1000,
    ensures
        1 <= freq * freq <= 40_000_000_000,
        0 <= (freq - fx) * (freq - fz) <= 40_000_000_000,
        0 <= fx * (freq - fz) <= 40_000_000_000,
        0 <= (freq - fx) * fz <= 40_000_000_000,
        0 <= fx * fz <= 40_000_000_000,
        0 <= (freq - fx) * (freq - fz) <= freq * freq,
        0 <= fx * (freq - fz) <= freq * freq,
        0 <= (freq - fx) * fz <= freq * freq,
        0 <= fx * fz <= freq * freq,
        (freq - fx) * (freq - fz) + fx * (freq - fz) + (freq - fx) * fz + fx * fz
            == freq * freq,
        -1000 * (freq * freq) <= v00 * ((freq - fx) * (freq - fz))
            + v10 * (fx * (freq - fz)) + v01 * ((freq - fx) * fz) + v11 * (fx * fz)
            <= 1000 * (freq * freq),
        -40_000_000_000_000 <= v00 * ((freq - fx) * (freq - fz)) <= 40_000_000_000_000,
        -40_000_000_000_000 <= v10 * (fx * (freq - fz)) <= 40_000_000_000_000,
        -40_000_000_000_000 <= v01 * ((freq - fx) * fz) <= 40_000_000_000_000,
        -40_000_000_000_000 <= v11 * (fx * fz) <= 40_000_000_000_000,
{
}

/// `|a| <= m * b` gives `|a / b| <= m` for truncating division.
pub proof fn lemma_tdiv_bound(a: int, b: int, m: int)
    by (nonlinear_arith)
    requires
        1 <= b,
        0 <= m,
        -m * b <= a <= m * b,
    ensures
        -m <= tdiv(a, b) <= m,
{
}

/// Elevation of the terrain above the plane point `(x, z)`: two octaves of
/// lattice noise, two differently seeded samples each, mixed down by the
/// octave amplitudes. Pure in its arguments, so the terrain and every
/// collider built from it always agree.
#[verifier::opaque]
pub open spec fn height_spec(x: int, z: int) -> int {
    let n1 = noise2d_spec(x, z, NOISE_FREQ_1 as int, NOISE_SEED)
        + noise2d_spec(x, z, NOISE_FREQ_1 as int, (2 * NOISE_SEED) as u64);
    let n2 = noise2d_spec(x, z, NOISE_FREQ_2 as int, (NOISE_SEED + 1) as u64)
        + noise2d_spec(x, z, NOISE_FREQ_2 as int, (2 * NOISE_SEED + 1) as u64);
    tdiv(n1 * NOISE_AMP_1 + n2 * NOISE_AMP_2, 2 * (NOISE_UNIT as int))
}

/// The terrain elevation over a plane position.
pub fn height(pos: &Vec3i) -> (h: i64)
    requires
        pos.in_bounds(),
    ensures
        h == height_spec(pos.x as int, pos.z as int),
        -HEIGHT_LIMIT <= h <= HEIGHT_LIMIT,
{
    proof {
        reveal(height_spec);
    }
    let n1 = noise2d(pos.x, pos.z, NOISE_FREQ_1, NOISE_SEED)
        + noise2d(pos.x, pos.z, NOISE_FREQ_1, 2 * NOISE_SEED);
    let n2 = noise2d(pos.x, pos.z, NOISE_FREQ_2, NOISE_SEED + 1)
        + noise2d(pos.x, pos.z, NOISE_FREQ_2, 2 * NOISE_SEED + 1);
    let num = n1 * NOISE_AMP_1 + n2 * NOISE_AMP_2;
    proof {
        lemma_tdiv_bound(num as int, 2 * (NOISE_UNIT as int), HEIGHT_LIMIT as int);
    }
    num / (2 * NOISE_UNIT)
}

/// The plane position with its height applied as the vertical coordinate.
pub open spec fn apply_height_spec(pos: Vec3i) -> Vec3i {
    Vec3i { x: pos.x, y: height_spec(pos.x as int, pos.z as int) as i64, z: pos.z }
}

pub fn apply_height(pos: &Vec3i) -> (r: Vec3i)
    requires
        pos.in_bounds(),
    ensures
        r == apply_height_spec(*pos),
        r.in_bounds(),
    {
    let h = height(pos);
    Vec3i { x: pos.x, y: h, z: pos.z }
}

} // verus!
