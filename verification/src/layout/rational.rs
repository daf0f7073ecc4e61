//! Exact rational values.
//!
//! Constants in the measure algebra, and the resolved values handed back to
//! widgets after a solve, are exact rationals rather than floating-point
//! numbers, so arithmetic never drifts through representation error.  This
//! module holds the value carrier and the verified normalization that brings
//! a caller-supplied numerator/denominator pair into least terms with a
//! positive denominator.

use vstd::prelude::*;

verus! {

use vstd::arithmetic::div_mod::{lemma_div_by_multiple, lemma_fundamental_div_mod};

/// An exact rational value: `num / den`.
#[derive(Clone, Copy, Debug, PartialEq, Eq, Structural)]
pub struct Rational {
    pub num: i64,
    pub den: i64,
}

impl Rational {
    /// Whether this value, once normalized, fits the engine's constant
    /// representation.  The test allocates nothing.
    pub fn is_representable(&self) -> (r: bool)
        ensures
            r == representable(self.num as int, self.den as int),
    {
        if self.den == 0 {
            false
        } else {
            normalize(self.num, self.den).is_some()
        }
    }
}

/// The absolute value of an integer, as a natural number.
pub open spec fn iabs(a: int) -> nat {
    if a < 0 {
        (-a) as nat
    } else {
        a as nat
    }
}

/// The greatest common divisor, by Euclid's recursion.
pub open spec fn gcd(a: nat, b: nat) -> nat
    decreases b,
{
    if b == 0 {
        a
    } else {
        gcd(b, a % b)
    }
}

/// `d` divides `n`.
pub open spec fn divides(d: nat, n: nat) -> bool {
    exists|k: nat| n == #[trigger] (d * k)
}

/// The normalized numerator of `num / den`: the absolute numerator divided by
/// the greatest common divisor, with the fraction's overall sign folded in.
pub open spec fn norm_num(num: int, den: int) -> int {
    let g = gcd(iabs(num), iabs(den));
    if (num < 0) == (den < 0) {
        (iabs(num) / g) as int
    } else {
        -((iabs(num) / g) as int)
    }
}

/// The normalized denominator of `num / den`: always positive.
pub open spec fn norm_den(num: int, den: int) -> int {
    (iabs(den) / gcd(iabs(num), iabs(den))) as int
}

/// Whether `num / den`, once normalized, fits the 64-bit constant
/// representation.
pub open spec fn representable(num: int, den: int) -> bool {
    den != 0 && norm_num(num, den) <= i64::MAX && norm_num(num, den) >= i64::MIN && norm_den(
        num,
        den,
    ) <= i64::MAX
}

/// The gcd divides both of its arguments.
pub proof fn lemma_gcd_divides(a: nat, b: nat)
    ensures
        divides(gcd(a, b), a),
        divides(gcd(a, b), b),
    decreases b,
{
    if b == 0 {
        assert(a == gcd(a, b) * 1);
        assert(b == gcd(a, b) * 0);
    } else {
        lemma_gcd_divides(b, a % b);
        let g = gcd(b, a % b);
        let k1 = choose|k: nat| b == #[trigger] (g * k);
        let k2 = choose|k: nat| (a % b) == #[trigger] (g * k);
        lemma_fundamental_div_mod(a as int, b as int);
        let q = (a as int) / (b as int);
        assert(q >= 0) by {
            assert((a as int) >= 0 && (b as int) > 0);
            assert(a as int == (b as int) * q + ((a as int) % (b as int)));
            if q < 0 {
                assert((b as int) * q <= (b as int) * -1) by (nonlinear_arith)
                    requires
                        q <= -1,
                        (b as int) > 0,
                ;
                assert((a as int) % (b as int) < b as int);
                assert((a as int) < 0);
            }
        }
        assert(a as int == (g as int) * ((k1 as int) * q + k2 as int)) by (nonlinear_arith)
            requires
                b as int == (g as int) * (k1 as int),
                (a as int) % (b as int) == (g as int) * (k2 as int),
                a as int == (b as int) * q + ((a as int) % (b as int)),
        ;
        let kw = ((k1 as int) * q + k2 as int) as nat;
        assert((k1 as int) * q >= 0) by (nonlinear_arith)
            requires
                (k1 as int) >= 0,
                q >= 0,
        ;
        assert(a == g * kw);
        assert(divides(gcd(a, b), a));
    }
}

/// The gcd is positive as soon as one argument is.
pub proof fn lemma_gcd_pos(a: nat, b: nat)
    requires
        a > 0 || b > 0,
    ensures
        gcd(a, b) > 0,
    decreases b,
{
    if b == 0 {
    } else {
        lemma_gcd_pos(b, a % b);
    }
}

/// Normalization keeps the value of the fraction: the normalized pair
/// cross-multiplies back to the pair it came from, and its denominator is
/// positive.
pub proof fn lemma_norm_value(num: int, den: int)
    requires
        den != 0,
    ensures
        norm_den(num, den) > 0,
        norm_num(num, den) * den == num * norm_den(num, den),
{
    let na = iabs(num);
    let da = iabs(den);
    let g = gcd(na, da);
    lemma_gcd_pos(na, da);
    lemma_gcd_divides(na, da);
    let ka = choose|k: nat| na == #[trigger] (g * k);
    let kb = choose|k: nat| da == #[trigger] (g * k);
    assert((na as int) / (g as int) == ka as int) by {
        lemma_div_by_multiple(ka as int, g as int);
        assert((ka as int) * (g as int) == (g as int) * (ka as int)) by (nonlinear_arith);
    }
    assert((da as int) / (g as int) == kb as int) by {
        lemma_div_by_multiple(kb as int, g as int);
        assert((kb as int) * (g as int) == (g as int) * (kb as int)) by (nonlinear_arith);
    }
    assert(kb > 0) by (nonlinear_arith)
        requires
            da == g * kb,
            da > 0,
    ;
    let ap = na / g;
    let bp = da / g;
    assert(ap == ka && bp == kb);
    assert((ap as int) * (da as int) == (na as int) * (bp as int)) by (nonlinear_arith)
        requires
            na == g * ka,
            da == g * kb,
            ap == ka,
            bp == kb,
    ;
    let nn = norm_num(num, den);
    let nd = norm_den(num, den);
    if num >= 0 && den > 0 {
        assert(nn == ap as int && nd == bp as int);
        assert(nn * den == num * nd) by (nonlinear_arith)
            requires
                nn == ap as int,
                nd == bp as int,
                num == na as int,
                den == da as int,
                (ap as int) * (da as int) == (na as int) * (bp as int),
        ;
    } else if num < 0 && den > 0 {
        assert(nn == -(ap as int) && nd == bp as int);
        assert(num == -(na as int));
        assert(nn * den == num * nd) by (nonlinear_arith)
            requires
                nn == -(ap as int),
                nd == bp as int,
                num == -(na as int),
                den == da as int,
                (ap as int) * (da as int) == (na as int) * (bp as int),
        ;
    } else if num >= 0 && den < 0 {
        assert(nn == -(ap as int) && nd == bp as int);
        assert(den == -(da as int));
        assert(nn * den == num * nd) by (nonlinear_arith)
            requires
                nn == -(ap as int),
                nd == bp as int,
                num == na as int,
                den == -(da as int),
                (ap as int) * (da as int) == (na as int) * (bp as int),
        ;
    } else {
        assert(nn == ap as int && nd == bp as int);
        assert(num == -(na as int) && den == -(da as int));
        assert(nn * den == num * nd) by (nonlinear_arith)
            requires
                nn == ap as int,
                nd == bp as int,
                num == -(na as int),
                den == -(da as int),
                (ap as int) * (da as int) == (na as int) * (bp as int),
        ;
    }
}

/// Euclid's algorithm, matching the specification-level `gcd` step for step.
fn gcd_exec(a: u128, b: u128) -> (g: u128)
    ensures
        g as nat == gcd(a as nat, b as nat),
    decreases b,
{
    if b == 0 {
        a
    } else {
        gcd_exec(b, a % b)
    }
}

/// Brings `num / den` into least terms with a positive denominator.  Answers
/// `None` exactly when the normalized pair does not fit the constant
/// representation any more.
pub(crate) fn normalize(num: i64, den: i64) -> (r: Option<(i64, i64)>)
    requires
        den != 0,
    ensures
        r matches Some((n, d)) ==> n as int == norm_num(num as int, den as int) && d as int
            == norm_den(num as int, den as int),
        r is None <==> (norm_num(num as int, den as int) > i64::MAX || norm_num(
            num as int,
            den as int,
        ) < i64::MIN || norm_den(num as int, den as int) > i64::MAX),
{
    let na_wide: i128 = if num < 0 {
        -(num as i128)
    } else {
        num as i128
    };
    let da_wide: i128 = if den < 0 {
        -(den as i128)
    } else {
        den as i128
    };
    let na: u128 = na_wide as u128;
    let da: u128 = da_wide as u128;
    proof {
        assert(na as nat == iabs(num as int));
        assert(da as nat == iabs(den as int));
    }
    let g = gcd_exec(na, da);
    proof {
        lemma_gcd_pos(na as nat, da as nat);
    }
    let nr: u128 = na / g;
    let dr: u128 = da / g;
    let sign_neg: bool = (num < 0) != (den < 0);
    if dr > i64::MAX as u128 {
        return None;
    }
    if sign_neg {
        if nr > (i64::MAX as u128) + 1 {
            return None;
        }
        let n: i64 = (-(nr as i128)) as i64;
        let d: i64 = dr as i64;
        Some((n, d))
    } else {
        if nr > i64::MAX as u128 {
            return None;
        }
        let n: i64 = nr as i64;
        let d: i64 = dr as i64;
        Some((n, d))
    }
}

} // verus!
