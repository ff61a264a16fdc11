use vstd::arithmetic::div_mod::{
    lemma_div_is_ordered, lemma_div_multiples_vanish, lemma_div_pos_is_pos,
};
use vstd::prelude::*;

verus! {

/// Largest magnitude a triangle coordinate may have for the builder to work
/// on it; keeps every derived quantity (extents, costs, split positions)
/// representable in the machine integers used by the algorithm.
pub const COORD_LIMIT: i32 = 1_000_000_000;

/// Truncating integer division by a positive divisor, exactly as Rust's `/`
/// computes it on signed integers.
pub open spec fn trunc_div(a: int, b: int) -> int {
    if a >= 0 {
        a / b
    } else {
        -((-a) / b)
    }
}

/// Bounds of a truncating division by a positive divisor, from the bounds of
/// the dividend: if `lo * d <= a <= hi * d` then `lo <= trunc_div(a, d) <= hi`.
pub proof fn lemma_trunc_div_bounds(a: int, d: int, lo: int, hi: int)
    requires
        0 < d,
        lo <= 0,
        0 <= hi,
        lo * d <= a <= hi * d,
    ensures
        lo <= trunc_div(a, d) <= hi,
{
    if a >= 0 {
        lemma_div_pos_is_pos(a, d);
        lemma_div_is_ordered(a, hi * d, d);
        lemma_div_multiples_vanish(hi, d);
        assert((d * hi) == (hi * d)) by (nonlinear_arith);
    } else {
        assert((-lo) * d == -(lo * d)) by (nonlinear_arith);
        lemma_div_pos_is_pos(-a, d);
        lemma_div_is_ordered(-a, (-lo) * d, d);
        lemma_div_multiples_vanish(-lo, d);
        assert((d * -lo) == ((-lo) * d)) by (nonlinear_arith);
    }
}

/// The truncated average of three components, `trunc_div(a + b + c, 3)`,
/// computed without overflow.
pub fn avg3(a: i32, b: i32, c: i32) -> (r: i32)
    ensures
        r as int == trunc_div(a as int + b as int + c as int, 3),
{
    let s: i64 = a as i64 + b as i64 + c as i64;
    proof {
        lemma_trunc_div_bounds(s as int, 3, i32::MIN as int, i32::MAX as int);
    }
    (s / 3) as i32
}

/// The truncated midpoint of two components, `trunc_div(a + b, 2)`, computed
/// without overflow.
pub fn mid2(a: i32, b: i32) -> (r: i32)
    ensures
        r as int == trunc_div(a as int + b as int, 2),
{
    let s: i64 = a as i64 + b as i64;
    proof {
        lemma_trunc_div_bounds(s as int, 2, i32::MIN as int, i32::MAX as int);
    }
    (s / 2) as i32
}

/// A three-component fixed-point vector: the coordinate type of the library.
/// Components are addressed by axis number 0 (x), 1 (y), 2 (z).
#[derive(Clone, Copy, Debug, PartialEq, Eq, Structural)]
pub struct Vector {
    pub x: i32,
    pub y: i32,
    pub z: i32,
}

impl Vector {
    /// The component on `axis`: 0 is x, 1 is y, 2 is z.
    pub open spec fn spec_component(self, axis: int) -> i32 {
        if axis == 0 {
            self.x
        } else if axis == 1 {
            self.y
        } else {
            self.z
        }
    }

    /// Component-wise minimum of `self` and `other`.
    pub open spec fn spec_component_min(self, other: Vector) -> Vector {
        Vector {
            x: if other.x < self.x { other.x } else { self.x },
            y: if other.y < self.y { other.y } else { self.y },
            z: if other.z < self.z { other.z } else { self.z },
        }
    }

    /// Component-wise maximum of `self` and `other`.
    pub open spec fn spec_component_max(self, other: Vector) -> Vector {
        Vector {
            x: if other.x > self.x { other.x } else { self.x },
            y: if other.y > self.y { other.y } else { self.y },
            z: if other.z > self.z { other.z } else { self.z },
        }
    }

    /// Every component within the coordinate limit.
    pub open spec fn in_limits(self) -> bool {
        &&& -COORD_LIMIT <= self.x <= COORD_LIMIT
        &&& -COORD_LIMIT <= self.y <= COORD_LIMIT
        &&& -COORD_LIMIT <= self.z <= COORD_LIMIT
    }

    pub fn new(x: i32, y: i32, z: i32) -> (v: Vector)
        ensures
            v == (Vector { x, y, z }),
    {
        Vector { x, y, z }
    }

    /// Indexed component access.
    pub fn component(&self, axis: usize) -> (c: i32)
        requires
            axis < 3,
        ensures
            c == self.spec_component(axis as int),
    {
        if axis == 0 {
            self.x
        } else if axis == 1 {
            self.y
        } else {
            self.z
        }
    }

    pub fn component_min(self, other: Vector) -> (v: Vector)
        ensures
            v == self.spec_component_min(other),
    {
        Vector {
            x: if other.x < self.x { other.x } else { self.x },
            y: if other.y < self.y { other.y } else { self.y },
            z: if other.z < self.z { other.z } else { self.z },
        }
    }

    pub fn component_max(self, other: Vector) -> (v: Vector)
        ensures
            v == self.spec_component_max(other),
    {
        Vector {
            x: if other.x > self.x { other.x } else { self.x },
            y: if other.y > self.y { other.y } else { self.y },
            z: if other.z > self.z { other.z } else { self.z },
        }
    }
}

} // verus!
