//! Fixed-point arithmetic, points and colours.
//!
//! Every length, coordinate, ratio and colour channel of the library is a
//! whole number of millionths: the scalar `s` stands for the number
//! `s / UNIT`. Products and quotients round down.

use vstd::prelude::*;
use vstd::arithmetic::div_mod::{lemma_fundamental_div_mod, lemma_fundamental_div_mod_converse};

verus! {

/// A fixed-point number, counted in millionths.
pub type Scalar = i128;

/// The scalar that stands for one.
pub const UNIT: i128 = 1_000_000;

/// The product of the numbers that `a` and `f` stand for, rounded down.
pub open spec fn scale_spec(a: int, f: int) -> int {
    (a * f) / (UNIT as int)
}

/// The quotient of the numbers that `a` and `b` stand for, rounded down.
pub open spec fn ratio_spec(a: int, b: int) -> int {
    (a * UNIT) / b
}

/// Half of `a`, rounded down.
pub open spec fn half_spec(a: int) -> int {
    a / 2
}

/// The scalar that stands for the whole number `n`.
pub open spec fn whole_spec(n: int) -> int {
    n * UNIT
}

/// A quotient lies between any two numbers whose multiples by the divisor
/// enclose the dividend.
pub proof fn lemma_quotient_between(a: int, b: int, lo: int, hi: int)
    requires
        0 < b,
        b * lo <= a <= b * hi,
    ensures
        lo <= a / b <= hi,
{
    vstd::arithmetic::div_mod::lemma_multiply_divide_le(a, b, hi);
    vstd::arithmetic::div_mod::lemma_div_is_ordered(b * lo, a, b);
    vstd::arithmetic::div_mod::lemma_div_multiples_vanish(lo, b);
}

/// `numer / denom` rounded towards negative infinity.
fn floor_div(numer: i128, denom: i128) -> (q: i128)
    requires
        denom > 0,
    ensures
        q == (numer as int) / (denom as int),
{
    if numer >= 0 {
        numer / denom
    } else {
        let m: i128 = -(numer + 1);
        let below: i128 = m / denom;
        proof {
            let r = (m as int) % (denom as int);
            lemma_fundamental_div_mod(m as int, denom as int);
            assert((below as int) * (denom as int) == (denom as int) * (below as int))
                by (nonlinear_arith);
            assert((-(below as int) - 1) * (denom as int) == -((below as int) * (denom as int))
                - (denom as int)) by (nonlinear_arith);
            lemma_fundamental_div_mod_converse(
                numer as int,
                denom as int,
                -(below as int) - 1,
                (denom as int) - 1 - r,
            );
        }
        -below - 1
    }
}

/// Multiplies `a` by the factor `f`.
pub fn scale(a: Scalar, f: Scalar) -> (r: Scalar)
    requires
        i128::MIN <= a * f <= i128::MAX,
    ensures
        r == scale_spec(a as int, f as int),
{
    floor_div(a * f, UNIT)
}

/// Divides `a` by `b`.
pub fn ratio(a: Scalar, b: Scalar) -> (r: Scalar)
    requires
        b > 0,
        i128::MIN <= a * UNIT <= i128::MAX,
    ensures
        r == ratio_spec(a as int, b as int),
{
    floor_div(a * UNIT, b)
}

/// Halves `a`.
pub fn half(a: Scalar) -> (r: Scalar)
    ensures
        r == half_spec(a as int),
{
    floor_div(a, 2)
}

/// Turns a count into the scalar that stands for it.
pub fn whole(n: usize) -> (r: Scalar)
    ensures
        r == whole_spec(n as int),
{
    (n as i128) * UNIT
}

/// A position on the screen.
#[derive(Clone, Copy, Debug, PartialEq, Eq, Structural)]
pub struct Point {
    pub x: Scalar,
    pub y: Scalar,
}

impl Point {
    /// The point `(x, y)`.
    pub fn new(x: Scalar, y: Scalar) -> (p: Point)
        ensures
            p == (Point { x, y }),
    {
        Point { x, y }
    }
}

/// An edge colour. Colours are only ever compared for equality.
#[derive(Clone, Copy, Debug, PartialEq, Eq, Structural)]
pub struct Color {
    pub r: Scalar,
    pub g: Scalar,
    pub b: Scalar,
}

impl Color {
    /// The colour with the given share of red, green and blue.
    pub fn new(r: Scalar, g: Scalar, b: Scalar) -> (c: Color)
        ensures
            c == (Color { r, g, b }),
    {
        Color { r, g, b }
    }
}

} // verus!
