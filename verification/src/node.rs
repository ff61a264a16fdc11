use crate::bounding_box::BoundingBox;
use vstd::prelude::*;

verus! {

/// One BVH node: a bounding box and a contiguous triangle range
/// `[triangle_index, triangle_index + triangle_count)` into the shared
/// triangle array.
///
/// Child convention (the one the consumer relies on): `child_index == 0`
/// marks a leaf. A non-zero `child_index` is the index of the first of two
/// children in the flat node array; the second child is at
/// `child_index + 1`. The root always sits at index 0, so no node can have
/// the root as a child and the sentinel is unambiguous. Interior nodes keep
/// the triangle range of their whole subtree.
#[derive(Clone, Copy, Debug, PartialEq, Eq, Structural)]
pub struct Node {
    pub bounds: BoundingBox,
    pub triangle_index: i32,
    pub triangle_count: i32,
    pub child_index: i32,
}

impl Node {
    /// A node without children.
    pub open spec fn is_leaf(self) -> bool {
        self.child_index == 0
    }

    /// The node's triangle range lies within a triangle array of length `n`.
    pub open spec fn range_valid(self, n: int) -> bool {
        &&& 0 <= self.triangle_index
        &&& 0 <= self.triangle_count
        &&& self.triangle_index + self.triangle_count <= n
    }

    pub fn new(bounds: BoundingBox, triangle_index: i32, triangle_count: i32) -> (node: Node)
        ensures
            node == (Node { bounds, triangle_index, triangle_count, child_index: 0 }),
    {
        Node { bounds, triangle_index, triangle_count, child_index: 0 }
    }
}

} // verus!
