//! Fractional cube coordinates and their rounding to the nearest cell.
use vstd::prelude::*;
use crate::hex::{abs, fits_i32, Hex};

verus! {

/// The integer nearest to `n / d` (for `d > 0`), halves rounded away from zero.
pub open spec fn round_half_away(n: int, d: int) -> int {
    let fl = n / d;
    let rem = n % d;
    if 2 * rem > d || (2 * rem == d && fl >= 0) {
        fl + 1
    } else {
        fl
    }
}

/// `d` times the distance between `n / d` and its rounded value.
pub open spec fn residual(n: int, d: int) -> int {
    abs(n - round_half_away(n, d) * d)
}

/// A fractional cube coordinate `(q / den, r / den, s / den)`, as produced by
/// mapping a point of pixel space back into hex space.
#[derive(Clone, Copy, Debug, PartialEq, Eq)]
pub struct FracHex {
    pub q: i64,
    pub r: i64,
    pub s: i64,
    pub den: i64,
}

impl FracHex {
    /// The denominator is positive and the cell it rounds to has axial
    /// components that fit in an `i32`.
    pub open spec fn wf(self) -> bool {
        &&& self.den > 0
        &&& fits_i32(self.round_spec().0)
        &&& fits_i32(self.round_spec().1)
    }

    /// The cube coordinate this one rounds to, as `(q, r, s)`: each component
    /// is rounded on its own, then the one that moved furthest is rederived
    /// from the other two (on a tie, the later of `q, r, s`).
    pub open spec fn round_spec(self) -> (int, int, int) {
        let q = round_half_away(self.q as int, self.den as int);
        let r = round_half_away(self.r as int, self.den as int);
        let s = round_half_away(self.s as int, self.den as int);
        let dq = residual(self.q as int, self.den as int);
        let dr = residual(self.r as int, self.den as int);
        let ds = residual(self.s as int, self.den as int);
        if dq > dr && dq > ds {
            (-r - s, r, s)
        } else if dr > ds {
            (q, -q - s, s)
        } else {
            (q, r, -q - r)
        }
    }

    /// The exact center of a cell.
    pub open spec fn center_spec(h: Hex) -> FracHex {
        FracHex { q: h.q as i64, r: h.r as i64, s: h.s_spec() as i64, den: 1 }
    }

    pub fn new(q: i64, r: i64, s: i64, den: i64) -> (f: FracHex)
        ensures
            f == (FracHex { q, r, s, den }),
    {
        FracHex { q, r, s, den }
    }

    /// The exact center of cell `h`, with denominator one.
    pub fn center(h: Hex) -> (f: FracHex)
        ensures
            f == FracHex::center_spec(h),
            f.wf(),
    {
        proof {
            lemma_round_center(h);
        }
        FracHex { q: h.q as i64, r: h.r as i64, s: h.s(), den: 1 }
    }

    /// Rounds to the nearest cell.
    pub fn round(&self) -> (h: Hex)
        requires
            self.wf(),
        ensures
            (h.q as int, h.r as int, h.s_spec()) == self.round_spec(),
    {
        let (q, dq) = round_component(self.q, self.den);
        let (r, dr) = round_component(self.r, self.den);
        let (s, ds) = round_component(self.s, self.den);
        proof {
            lemma_round_bounds(self.q as int, self.den as int);
            lemma_round_bounds(self.r as int, self.den as int);
            lemma_round_bounds(self.s as int, self.den as int);
        }
        if dq > dr && dq > ds {
            Hex { q: (-r - s) as i32, r: r as i32 }
        } else if dr > ds {
            Hex { q: q as i32, r: (-q - s) as i32 }
        } else {
            Hex { q: q as i32, r: r as i32 }
        }
    }
}

/// Rounds `n / d` to the nearest integer, halves away from zero, and returns
/// it with its residual `|n - rounded * d|`.
fn round_component(n: i64, d: i64) -> (res: (i128, i64))
    requires
        d > 0,
    ensures
        res.0 == round_half_away(n as int, d as int),
        res.1 == residual(n as int, d as int),
{
    proof {
        lemma_round_bounds(n as int, d as int);
    }
    let (fl, rem) = floor_div_mod(n, d);
    if rem > d - rem || (rem == d - rem && fl >= 0) {
        (fl as i128 + 1, d - rem)
    } else {
        (fl as i128, rem)
    }
}

/// Floor division: `(n / d, n % d)` with the remainder in `0..d`.
fn floor_div_mod(n: i64, d: i64) -> (res: (i64, i64))
    requires
        d > 0,
    ensures
        res.0 == n as int / d as int,
        res.1 == n as int % d as int,
{
    if n >= 0 {
        let q = (n as u64) / (d as u64);
        let m = (n as u64) % (d as u64);
        (q as i64, m as i64)
    } else {
        let a: u64 = (-(n as i128)) as u64;
        let q = a / (d as u64);
        let m = a % (d as u64);
        proof {
            vstd::arithmetic::div_mod::lemma_fundamental_div_mod(a as int, d as int);
            assert(q as int * d as int <= a as int) by (nonlinear_arith)
                requires a as int == q as int * d as int + m as int, m >= 0, q >= 0, d > 0;
            assert(q as int <= q as int * d as int) by (nonlinear_arith)
                requires q >= 0, d >= 1;
            vstd::arithmetic::div_mod::lemma_fundamental_div_mod(a as int, d as int);
            vstd::arithmetic::div_mod::lemma_fundamental_div_mod(n as int, d as int);
            lemma_neg_div_mod(a as int, d as int, q as int, m as int);
        }
        if m == 0 {
            ((-(q as i128)) as i64, 0)
        } else {
            ((-(q as i128) - 1) as i64, d - m as i64)
        }
    }
}

proof fn lemma_neg_div_mod(a: int, d: int, q: int, m: int)
    requires
        d > 0,
        a > 0,
        a == q * d + m,
        0 <= m < d,
    ensures
        m == 0 ==> (-a) / d == -q && (-a) % d == 0,
        m != 0 ==> (-a) / d == -q - 1 && (-a) % d == d - m,
{
    if m == 0 {
        assert(-a == (-q) * d) by (nonlinear_arith)
            requires a == q * d + m, m == 0;
        vstd::arithmetic::div_mod::lemma_fundamental_div_mod_converse(-a, d, -q, 0);
    } else {
        assert(-a == (-q - 1) * d + (d - m)) by (nonlinear_arith)
            requires a == q * d + m;
        vstd::arithmetic::div_mod::lemma_fundamental_div_mod_converse(-a, d, -q - 1, d - m);
    }
}

proof fn lemma_round_bounds(n: int, d: int)
    requires
        d > 0,
    ensures
        0 <= n % d < d,
        round_half_away(n, d) == n / d ==> residual(n, d) == n % d,
        round_half_away(n, d) == n / d + 1 ==> residual(n, d) == d - n % d,
        n / d <= abs(n),
        -abs(n) - 1 <= n / d,
{
    vstd::arithmetic::div_mod::lemma_fundamental_div_mod(n, d);
    let fl = n / d;
    let m = n % d;
    assert(n - fl * d == m) by (nonlinear_arith)
        requires n == d * fl + m;
    assert(n - (fl + 1) * d == m - d) by (nonlinear_arith)
        requires n == d * fl + m;
    if fl > 0 {
        assert(fl <= fl * d) by (nonlinear_arith)
            requires fl > 0, d >= 1;
    } else if n < 0 {
        assert(fl >= n - 1) by (nonlinear_arith)
            requires n == d * fl + m, 0 <= m < d, n < 0, d >= 1;
    }
}

/// Rounding the exact center of a cell gives that cell back.
pub proof fn lemma_round_center(h: Hex)
    ensures
        FracHex::center_spec(h).round_spec() == (h.q as int, h.r as int, h.s_spec()),
{
}

/// Rounding always yields a valid cube coordinate: its three components sum
/// to zero, whichever component was rederived.
pub proof fn lemma_round_cube_sum_zero(f: FracHex)
    ensures
        f.round_spec().0 + f.round_spec().1 + f.round_spec().2 == 0,
{
}

/// Each component rounds to an integer nearest to it: within half of one
/// unit, that is `2 * |n - k * d| <= d`.
pub proof fn lemma_round_nearest(n: int, d: int)
    requires
        d > 0,
    ensures
        2 * residual(n, d) <= d,
{
    lemma_round_bounds(n, d);
}

} // verus!
