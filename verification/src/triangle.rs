use crate::vector::{avg3, lemma_trunc_div_bounds, trunc_div, Vector, COORD_LIMIT};
use vstd::prelude::*;

verus! {

/// Centroid of three vectors: the truncated per-component average.
pub open spec fn spec_centroid(a: Vector, b: Vector, c: Vector) -> Vector {
    Vector {
        x: trunc_div(a.x as int + b.x as int + c.x as int, 3) as i32,
        y: trunc_div(a.y as int + b.y as int + c.y as int, 3) as i32,
        z: trunc_div(a.z as int + b.z as int + c.z as int, 3) as i32,
    }
}

/// Component-wise minimum of three vectors.
pub open spec fn spec_min3(a: Vector, b: Vector, c: Vector) -> Vector {
    a.spec_component_min(b).spec_component_min(c)
}

/// Component-wise maximum of three vectors.
pub open spec fn spec_max3(a: Vector, b: Vector, c: Vector) -> Vector {
    a.spec_component_max(b).spec_component_max(c)
}

/// A triangle: three vertices plus the derived centroid and the per-axis
/// extrema of the vertices. The derived fields are recomputed by every
/// mutation, so a triangle built through this interface always satisfies
/// [`Triangle::wf`].
#[derive(Clone, Copy, Debug, PartialEq, Eq, Structural)]
pub struct Triangle {
    pub a: Vector,
    pub b: Vector,
    pub c: Vector,
    pub center: Vector,
    pub min: Vector,
    pub max: Vector,
}

impl Triangle {
    /// The derived fields are consistent with the vertices.
    pub open spec fn wf(self) -> bool {
        &&& self.center == spec_centroid(self.a, self.b, self.c)
        &&& self.min == spec_min3(self.a, self.b, self.c)
        &&& self.max == spec_max3(self.a, self.b, self.c)
    }

    /// All three vertices within the coordinate limit.
    pub open spec fn in_limits(self) -> bool {
        &&& self.a.in_limits()
        &&& self.b.in_limits()
        &&& self.c.in_limits()
    }

    pub fn new(a: Vector, b: Vector, c: Vector) -> (t: Triangle)
        ensures
            t == Triangle::spec_new(a, b, c),
            t.a == a,
            t.b == b,
            t.c == c,
            t.wf(),
    {
        Triangle {
            a,
            b,
            c,
            center: Vector::new(
                avg3(a.x, b.x, c.x),
                avg3(a.y, b.y, c.y),
                avg3(a.z, b.z, c.z),
            ),
            min: a.component_min(b).component_min(c),
            max: a.component_max(b).component_max(c),
        }
    }

    pub fn get_a(&self) -> (v: Vector)
        ensures
            v == self.a,
    {
        self.a
    }

    pub fn get_b(&self) -> (v: Vector)
        ensures
            v == self.b,
    {
        self.b
    }

    pub fn get_c(&self) -> (v: Vector)
        ensures
            v == self.c,
    {
        self.c
    }

    pub fn set_a(&mut self, a: Vector)
        ensures
            *final(self) == Triangle::spec_new(a, old(self).b, old(self).c),
    {
        *self = Triangle::new(a, self.b, self.c);
    }

    pub fn set_b(&mut self, b: Vector)
        ensures
            *final(self) == Triangle::spec_new(old(self).a, b, old(self).c),
    {
        *self = Triangle::new(self.a, b, self.c);
    }

    pub fn set_c(&mut self, c: Vector)
        ensures
            *final(self) == Triangle::spec_new(old(self).a, old(self).b, c),
    {
        *self = Triangle::new(self.a, self.b, c);
    }

    pub fn set(&mut self, a: Vector, b: Vector, c: Vector)
        ensures
            *final(self) == Triangle::spec_new(a, b, c),
    {
        *self = Triangle::new(a, b, c);
    }

    /// The triangle whose vertices are `a`, `b`, `c`, with its derived fields.
    pub open spec fn spec_new(a: Vector, b: Vector, c: Vector) -> Triangle {
        Triangle {
            a,
            b,
            c,
            center: spec_centroid(a, b, c),
            min: spec_min3(a, b, c),
            max: spec_max3(a, b, c),
        }
    }

    /// For a well-formed triangle with vertices within the coordinate
    /// limit, the derived fields are within the limit too, and the corners
    /// are ordered on every axis.
    pub proof fn lemma_derived_in_limits(self)
        requires
            self.wf(),
            self.in_limits(),
        ensures
            self.center.in_limits(),
            self.min.in_limits(),
            self.max.in_limits(),
            self.min.x <= self.max.x,
            self.min.y <= self.max.y,
            self.min.z <= self.max.z,
    {
        let l = COORD_LIMIT as int;
        lemma_trunc_div_bounds(self.a.x + self.b.x + self.c.x, 3, -l, l);
        lemma_trunc_div_bounds(self.a.y + self.b.y + self.c.y, 3, -l, l);
        lemma_trunc_div_bounds(self.a.z + self.b.z + self.c.z, 3, -l, l);
    }

    /// Two well-formed triangles with the same vertices are equal.
    pub proof fn lemma_eq_from_vertices(t1: Triangle, t2: Triangle)
        requires
            t1.wf(),
            t2.wf(),
            t1.a == t2.a,
            t1.b == t2.b,
            t1.c == t2.c,
        ensures
            t1 == t2,
    {
    }
}

} // verus!
