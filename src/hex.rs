//! Integer cube coordinates of hex cells.
use vstd::prelude::*;

verus! {

/// Whether an integer can be held by an `i32`.
pub open spec fn fits_i32(x: int) -> bool {
    i32::MIN <= x <= i32::MAX
}

/// A hex cell in axial form.
///
/// The third cube component is never stored: it is derived as `s = -q - r`,
/// so every value of this type satisfies `q + r + s == 0`.
#[derive(Clone, Copy, Debug, PartialEq, Eq, Hash, Structural)]
pub struct Hex {
    pub q: i32,
    pub r: i32,
}

/// Absolute value of an integer.
pub open spec fn abs(x: int) -> int {
    if x < 0 {
        -x
    } else {
        x
    }
}

impl Hex {
    /// The derived cube component `s`.
    pub open spec fn s_spec(self) -> int {
        -(self.q as int) - (self.r as int)
    }

    /// Cube distance between two cells: the largest absolute difference of
    /// their three cube components.
    pub open spec fn distance_spec(self, other: Hex) -> int {
        let dq = abs(self.q - other.q);
        let dr = abs(self.r - other.r);
        let ds = abs(self.s_spec() - other.s_spec());
        if dq >= dr && dq >= ds {
            dq
        } else if dr >= ds {
            dr
        } else {
            ds
        }
    }

    pub fn new(q: i32, r: i32) -> (h: Hex)
        ensures
            h.q == q,
            h.r == r,
    {
        Hex { q, r }
    }

    pub fn q(&self) -> (v: i32)
        ensures
            v == self.q,
    {
        self.q
    }

    pub fn r(&self) -> (v: i32)
        ensures
            v == self.r,
    {
        self.r
    }

    /// The derived cube component, `-q - r`.
    pub fn s(&self) -> (v: i64)
        ensures
            v == self.s_spec(),
    {
        -(self.q as i64) - (self.r as i64)
    }

    /// Component-wise sum; defined where both sums fit in an `i32`.
    pub fn add(self, other: Hex) -> (h: Hex)
        requires
            fits_i32(self.q + other.q),
            fits_i32(self.r + other.r),
        ensures
            h.q == self.q + other.q,
            h.r == self.r + other.r,
    {
        Hex { q: self.q + other.q, r: self.r + other.r }
    }

    /// Component-wise difference; defined where both differences fit in an `i32`.
    pub fn sub(self, other: Hex) -> (h: Hex)
        requires
            fits_i32(self.q - other.q),
            fits_i32(self.r - other.r),
        ensures
            h.q == self.q - other.q,
            h.r == self.r - other.r,
    {
        Hex { q: self.q - other.q, r: self.r - other.r }
    }

    /// Cube distance to `other`.
    pub fn distance(self, other: Hex) -> (d: i64)
        ensures
            d == self.distance_spec(other),
    {
        let dq = self.q as i64 - other.q as i64;
        let dr = self.r as i64 - other.r as i64;
        let ds = self.s() - other.s();
        let dq = if dq < 0 { -dq } else { dq };
        let dr = if dr < 0 { -dr } else { dr };
        let ds = if ds < 0 { -ds } else { ds };
        if dq >= dr && dq >= ds {
            dq
        } else if dr >= ds {
            dr
        } else {
            ds
        }
    }
}

impl From<(i32, i32)> for Hex {
    /// Builds the cell with axial coordinates `(q, r)`.
    fn from(v: (i32, i32)) -> (h: Hex) {
        Hex { q: v.0, r: v.1 }
    }
}

impl vstd::std_specs::convert::FromSpecImpl<(i32, i32)> for Hex {
    open spec fn obeys_from_spec() -> bool {
        true
    }

    open spec fn from_spec(v: (i32, i32)) -> Hex {
        Hex { q: v.0, r: v.1 }
    }
}

/// Every cell satisfies the cube invariant: its three components sum to zero.
pub proof fn lemma_cube_sum_zero(h: Hex)
    ensures
        h.q + h.r + h.s_spec() == 0,
{
}

} // verus!
