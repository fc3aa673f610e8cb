//! Fixed-point amounts: every quantity, price, fee and value is an integer
//! count of `1 / SCALE` units.

use vstd::prelude::*;
use vstd::arithmetic::div_mod::lemma_fundamental_div_mod_converse;

verus! {

/// Units in one whole share or currency unit (six decimal places).
pub const SCALE: i64 = 1_000_000;

/// Largest magnitude of a stored quantity, price, fee or amount
/// (one billion whole units).
pub const MAX_FIELD: i64 = 1_000_000_000_000_000;

/// A stored field lies within the range the library values exactly.
pub open spec fn in_range(x: int) -> bool {
    -MAX_FIELD <= x <= MAX_FIELD
}

/// Product of two fixed-point numbers, rounded down.
pub open spec fn mul_fixed(a: int, b: int) -> int {
    (a * b) / (SCALE as int)
}

/// Quotient of two fixed-point numbers, rounded down (`b > 0`).
pub open spec fn div_fixed(a: int, b: int) -> int {
    (a * SCALE) / b
}

/// Percentage `a / b * 100` as a fixed-point number, rounded down (`b > 0`).
pub open spec fn percent_of(a: int, b: int) -> int {
    (a * 100 * SCALE) / b
}

/// Division rounded toward negative infinity.
pub fn floor_div(a: i128, b: i128) -> (r: i128)
    requires
        b > 0,
        a > i128::MIN,
    ensures
        r == a / b,
{
    if a >= 0 {
        let q = ((a as u128) / (b as u128)) as i128;
        q
    } else {
        let n: u128 = (-a) as u128;
        let d: u128 = b as u128;
        let q: u128 = (n + (d - 1)) / d;
        let rem: u128 = (n + (d - 1)) % d;
        proof {
            let ni: int = n as int;
            let di: int = d as int;
            let qi: int = q as int;
            let ri: int = rem as int;
            assert(ni + (di - 1) == qi * di + ri) by {
                vstd::arithmetic::div_mod::lemma_fundamental_div_mod(ni + (di - 1), di);
            }
            let r0: int = di - 1 - ri;
            assert(a as int == (-qi) * di + r0) by (nonlinear_arith)
                requires ni + (di - 1) == qi * di + ri, ni == -(a as int), r0 == di - 1 - ri;
            lemma_fundamental_div_mod_converse(a as int, b as int, -qi, r0);
            assert(qi <= ni) by (nonlinear_arith)
                requires ni + (di - 1) == qi * di + ri, di > 0, ni > 0, 0 <= ri < di;
        }
        -(q as i128)
    }
}

} // verus!
