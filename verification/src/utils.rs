use vstd::prelude::*;
use crate::math::tdiv;

verus! {

/// Half a turn, in microradians.
pub const PI_URAD: i64 = 3_141_593;

/// A full turn, in microradians; exactly twice `PI_URAD` so that the
/// wrapped range is symmetric.
pub const TWO_PI_URAD: i64 = 6_283_186;

/// The truncating remainder of `a` by a positive `b`, the semantics of `%`
/// on Rust's signed integers.
pub open spec fn trem(a: int, b: int) -> int {
    a - tdiv(a, b) * b
}

/// Wraps an angle in microradians into `[-PI_URAD, PI_URAD]`, keeping it
/// congruent modulo a full turn.
pub fn cap_2pi(x: i64) -> (r: i64)
    ensures
        -PI_URAD <= r <= PI_URAD,
        exists|k: int| r == x - #[trigger] (k * (TWO_PI_URAD as int)),
{
    let mut y = x % TWO_PI_URAD;
    proof {
        lemma_trunc_rem(x as int, TWO_PI_URAD as int);
        lemma_trem_range(x as int, TWO_PI_URAD as int);
        let q = tdiv(x as int, TWO_PI_URAD as int);
        assert(trem(x as int, TWO_PI_URAD as int) == x - q * (TWO_PI_URAD as int));
    }
    if y < -PI_URAD {
        y = y + TWO_PI_URAD;
        proof {
            let q = tdiv(x as int, TWO_PI_URAD as int);
            assert(y == x - (q - 1) * (TWO_PI_URAD as int)) by (nonlinear_arith)
                requires y == trem(x as int, TWO_PI_URAD as int) + TWO_PI_URAD,
                    trem(x as int, TWO_PI_URAD as int) == x - q * (TWO_PI_URAD as int);
        }
    } else if y > PI_URAD {
        y = y - TWO_PI_URAD;
        proof {
            let q = tdiv(x as int, TWO_PI_URAD as int);
            assert(y == x - (q + 1) * (TWO_PI_URAD as int)) by (nonlinear_arith)
                requires y == trem(x as int, TWO_PI_URAD as int) - TWO_PI_URAD,
                    trem(x as int, TWO_PI_URAD as int) == x - q * (TWO_PI_URAD as int);
        }
    } else {
        proof {
            let q = tdiv(x as int, TWO_PI_URAD as int);
            assert(y == x - q * (TWO_PI_URAD as int));
        }
    }
    y
}

/// The truncating remainder agrees with the sign-adjusted Euclidean one.
pub proof fn lemma_trunc_rem(a: int, b: int)
    requires
        1 <= b,
    ensures
        a >= 0 ==> trem(a, b) == a % b,
        a < 0 ==> trem(a, b) == -((-a) % b),
{
    if a >= 0 {
        vstd::arithmetic::div_mod::lemma_fundamental_div_mod(a, b);
        assert(a - (a / b) * b == a % b) by (nonlinear_arith)
            requires a == b * (a / b) + a % b;
    } else {
        let na = -a;
        vstd::arithmetic::div_mod::lemma_fundamental_div_mod(na, b);
        assert(a - (-(na / b)) * b == -(na % b)) by (nonlinear_arith)
            requires na == b * (na / b) + na % b && na == -a;
    }
}

/// The truncating remainder by a positive divisor lies strictly within one
/// divisor of zero, on the side of the dividend.
pub proof fn lemma_trem_range(a: int, b: int)
    by (nonlinear_arith)
    requires
        1 <= b,
    ensures
        -b < trem(a, b) < b,
        0 <= a ==> 0 <= trem(a, b),
        a < 0 ==> trem(a, b) <= 0,
{
}

} // verus!
