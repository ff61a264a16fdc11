use crate::triangle::Triangle;
use crate::vector::{mid2, trunc_div, Vector};
use vstd::prelude::*;

verus! {

/// Center of a box: the truncated per-component midpoint of min and max.
pub open spec fn spec_center_of(min: Vector, max: Vector) -> Vector {
    Vector {
        x: trunc_div(min.x as int + max.x as int, 2) as i32,
        y: trunc_div(min.y as int + max.y as int, 2) as i32,
        z: trunc_div(min.z as int + max.z as int, 2) as i32,
    }
}

/// The canonical empty box: min at the largest and max at the smallest
/// representable coordinate, so that the first grow operation initializes
/// both corners.
pub open spec fn spec_empty_box() -> BoundingBox {
    let min = Vector { x: i32::MAX, y: i32::MAX, z: i32::MAX };
    let max = Vector { x: i32::MIN, y: i32::MIN, z: i32::MIN };
    BoundingBox { min, max, center: spec_center_of(min, max) }
}

/// An axis-aligned bounding box. Growth operations only ever move `min`
/// down and `max` up, and recompute `center`; a box built through this
/// interface always satisfies [`BoundingBox::wf`].
#[derive(Clone, Copy, Debug, PartialEq, Eq, Structural)]
pub struct BoundingBox {
    pub min: Vector,
    pub max: Vector,
    pub center: Vector,
}

impl BoundingBox {
    /// The center field is consistent with the corners.
    pub open spec fn wf(self) -> bool {
        self.center == spec_center_of(self.min, self.max)
    }

    /// Both corners within the coordinate limit.
    pub open spec fn in_limits(self) -> bool {
        self.min.in_limits() && self.max.in_limits()
    }

    /// The corners are ordered on every axis; false for the empty box.
    pub open spec fn nonempty(self) -> bool {
        &&& self.min.x <= self.max.x
        &&& self.min.y <= self.max.y
        &&& self.min.z <= self.max.z
    }

    /// This box grown to include the point `p`.
    pub open spec fn spec_grow_point(self, p: Vector) -> BoundingBox {
        let min = self.min.spec_component_min(p);
        let max = self.max.spec_component_max(p);
        BoundingBox { min, max, center: spec_center_of(min, max) }
    }

    /// This box grown to include the triangle `t`, through the triangle's
    /// precomputed min and max corners.
    pub open spec fn spec_grow(self, t: Triangle) -> BoundingBox {
        let min = self.min.spec_component_min(t.min);
        let max = self.max.spec_component_max(t.max);
        BoundingBox { min, max, center: spec_center_of(min, max) }
    }

    /// The point `p` lies inside this box.
    pub open spec fn contains_point(self, p: Vector) -> bool {
        &&& self.min.x <= p.x <= self.max.x
        &&& self.min.y <= p.y <= self.max.y
        &&& self.min.z <= p.z <= self.max.z
    }

    /// The box `inner` lies inside this box. The empty box lies inside
    /// every box.
    pub open spec fn contains_box(self, inner: BoundingBox) -> bool {
        &&& self.min.x <= inner.min.x && inner.max.x <= self.max.x
        &&& self.min.y <= inner.min.y && inner.max.y <= self.max.y
        &&& self.min.z <= inner.min.z && inner.max.z <= self.max.z
    }

    /// The triangle `t` lies inside this box: its min/max corner box does.
    pub open spec fn contains_triangle(self, t: Triangle) -> bool {
        &&& self.min.x <= t.min.x && t.max.x <= self.max.x
        &&& self.min.y <= t.min.y && t.max.y <= self.max.y
        &&& self.min.z <= t.min.z && t.max.z <= self.max.z
    }

    pub fn new() -> (b: BoundingBox)
        ensures
            b == spec_empty_box(),
            b.wf(),
    {
        let min = Vector::new(i32::MAX, i32::MAX, i32::MAX);
        let max = Vector::new(i32::MIN, i32::MIN, i32::MIN);
        BoundingBox { min, max, center: Self::center_of(min, max) }
    }

    /// The box with the given corners and the consistent center. The
    /// corners are taken as they come: callers wanting a non-empty box pass
    /// ordered corners.
    pub fn from_corners(min: Vector, max: Vector) -> (b: BoundingBox)
        ensures
            b == (BoundingBox { min, max, center: spec_center_of(min, max) }),
            b.wf(),
    {
        BoundingBox { min, max, center: Self::center_of(min, max) }
    }

    fn center_of(min: Vector, max: Vector) -> (c: Vector)
        ensures
            c == spec_center_of(min, max),
    {
        Vector::new(mid2(min.x, max.x), mid2(min.y, max.y), mid2(min.z, max.z))
    }

    pub fn grow_to_include_vector(&mut self, point: Vector)
        ensures
            *final(self) == old(self).spec_grow_point(point),
    {
        self.min = self.min.component_min(point);
        self.max = self.max.component_max(point);
        self.center = Self::center_of(self.min, self.max);
    }

    pub fn grow_to_include(&mut self, triangle: Triangle)
        ensures
            *final(self) == old(self).spec_grow(triangle),
    {
        self.min = self.min.component_min(triangle.min);
        self.max = self.max.component_max(triangle.max);
        self.center = Self::center_of(self.min, self.max);
    }

    /// Growing by a triangle's precomputed corners equals growing by its
    /// three vertices in turn, for a well-formed triangle.
    pub proof fn lemma_grow_triangle_is_grow_vertices(self, t: Triangle)
        requires
            t.wf(),
        ensures
            self.spec_grow(t) == self.spec_grow_point(t.a).spec_grow_point(t.b).spec_grow_point(
                t.c,
            ),
    {
    }
}

} // verus!
