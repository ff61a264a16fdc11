use crate::bounding_box::{spec_center_of, BoundingBox};
use crate::node::Node;
use crate::tree::{leaf_hits, lemma_leaf_coverage, tree_wf};
use crate::triangle::Triangle;
use crate::vector::Vector;
use vstd::arithmetic::div_mod::{lemma_div_denominator, lemma_fundamental_div_mod};
use vstd::prelude::*;

verus! {

// The flat binary layout, made explicit: little-endian, 4 bytes per scalar,
// scalars in two's complement; 9 scalars (36 bytes) per record. A node
// record is min.x, min.y, min.z, max.x, max.y, max.z, triangle_index,
// triangle_count, child_index; a triangle record is the three vertices'
// x, y, z in order a, b, c. Record count is implied by the byte length.

/// The signed 32-bit value held by four little-endian bytes.
pub open spec fn spec_i32_of_bytes(b0: u8, b1: u8, b2: u8, b3: u8) -> i32 {
    let v = b0 + 256 * (b1 as int) + 65536 * (b2 as int) + 16777216 * (b3 as int);
    if v < 0x8000_0000 {
        v as i32
    } else {
        (v - 0x1_0000_0000) as i32
    }
}

/// The scalar encoded at byte offset `off` of the stream.
pub open spec fn spec_scalar_at(data: Seq<u8>, off: int) -> i32 {
    spec_i32_of_bytes(data[off], data[off + 1], data[off + 2], data[off + 3])
}

/// The node record encoded at byte offset `off` of the stream. The box
/// center is not stored; it is recomputed from the corners.
pub open spec fn spec_node_at(data: Seq<u8>, off: int) -> Node {
    let min = Vector {
        x: spec_scalar_at(data, off),
        y: spec_scalar_at(data, off + 4),
        z: spec_scalar_at(data, off + 8),
    };
    let max = Vector {
        x: spec_scalar_at(data, off + 12),
        y: spec_scalar_at(data, off + 16),
        z: spec_scalar_at(data, off + 20),
    };
    Node {
        bounds: BoundingBox { min, max, center: spec_center_of(min, max) },
        triangle_index: spec_scalar_at(data, off + 24),
        triangle_count: spec_scalar_at(data, off + 28),
        child_index: spec_scalar_at(data, off + 32),
    }
}

/// The triangle record encoded at byte offset `off` of the stream. Only the
/// vertices are stored; centroid and corners are recomputed.
pub open spec fn spec_triangle_at(data: Seq<u8>, off: int) -> Triangle {
    let a = Vector {
        x: spec_scalar_at(data, off),
        y: spec_scalar_at(data, off + 4),
        z: spec_scalar_at(data, off + 8),
    };
    let b = Vector {
        x: spec_scalar_at(data, off + 12),
        y: spec_scalar_at(data, off + 16),
        z: spec_scalar_at(data, off + 20),
    };
    let c = Vector {
        x: spec_scalar_at(data, off + 24),
        y: spec_scalar_at(data, off + 28),
        z: spec_scalar_at(data, off + 32),
    };
    Triangle::spec_new(a, b, c)
}

/// All node records of the stream, in order.
pub open spec fn spec_decode_nodes(data: Seq<u8>) -> Seq<Node> {
    Seq::new((data.len() / 36) as nat, |i: int| spec_node_at(data, 36 * i))
}

/// All triangle records of the stream, in order.
pub open spec fn spec_decode_triangles(data: Seq<u8>) -> Seq<Triangle> {
    Seq::new((data.len() / 36) as nat, |i: int| spec_triangle_at(data, 36 * i))
}

/// Appends the four little-endian bytes of `x` to the stream.
fn push_i32(out: &mut Vec<u8>, x: i32)
    ensures
        final(out)@.len() == old(out)@.len() + 4,
        forall|j: int| 0 <= j < old(out)@.len() ==> final(out)@[j] == old(out)@[j],
        spec_scalar_at(final(out)@, old(out)@.len() as int) == x,
{
    let v: u32 = if x >= 0 {
        x as u32
    } else {
        ((x as i64) + 0x1_0000_0000i64) as u32
    };
    let b0: u8 = (v % 256) as u8;
    let b1: u8 = ((v / 256) % 256) as u8;
    let b2: u8 = ((v / 65536) % 256) as u8;
    let b3: u8 = (v / 16777216) as u8;
    out.push(b0);
    out.push(b1);
    out.push(b2);
    out.push(b3);
    proof {
        let w = v as int;
        lemma_fundamental_div_mod(w, 256);
        lemma_div_denominator(w, 256, 256);
        lemma_fundamental_div_mod(w / 256, 256);
        lemma_div_denominator(w, 65536, 256);
        lemma_fundamental_div_mod(w / 65536, 256);
        assert(w == b0 + 256 * (b1 as int) + 65536 * (b2 as int) + 16777216 * (b3 as int));
    }
}

/// Reads the scalar at byte offset `offset` of the stream.
fn read_i32(data: &Vec<u8>, offset: usize) -> (x: i32)
    requires
        offset + 4 <= data@.len(),
    ensures
        x == spec_scalar_at(data@, offset as int),
{
    let n = data.len();
    proof {
        assert(offset + 4 <= n);
    }
    let b0 = data[offset] as u32;
    let b1 = data[offset + 1] as u32;
    let b2 = data[offset + 2] as u32;
    let b3 = data[offset + 3] as u32;
    let v: u32 = b0 + 256 * b1 + 65536 * b2 + 16777216 * b3;
    if v < 0x8000_0000u32 {
        v as i32
    } else {
        ((v as i64) - 0x1_0000_0000i64) as i32
    }
}

/// Flattens the node array: 36 bytes per node, in node-array order, each
/// node as its 9 scalars. The stream decodes back to exactly the input.
#[verifier::rlimit(100)]
pub fn serialize_nodes(all_nodes: &Vec<Node>) -> (out: Vec<u8>)
    requires
        forall|j: int| 0 <= j < all_nodes@.len() ==> (#[trigger] all_nodes@[j]).bounds.wf(),
    ensures
        out@.len() == 36 * all_nodes@.len(),
        spec_decode_nodes(out@) == all_nodes@,
{
    let n = all_nodes.len();
    let mut out: Vec<u8> = Vec::new();
    let mut i: usize = 0;
    while i < n
        invariant
            n == all_nodes@.len(),
            forall|j: int| 0 <= j < n ==> (#[trigger] all_nodes@[j]).bounds.wf(),
            i <= n,
            out@.len() == 36 * i,
            forall|i2: int| 0 <= i2 < i ==> spec_node_at(out@, 36 * i2) == all_nodes@[i2],
        decreases n - i,
    {
        let node = all_nodes[i];
        let ghost pre = out@;
        push_i32(&mut out, node.bounds.min.x);
        push_i32(&mut out, node.bounds.min.y);
        push_i32(&mut out, node.bounds.min.z);
        push_i32(&mut out, node.bounds.max.x);
        push_i32(&mut out, node.bounds.max.y);
        push_i32(&mut out, node.bounds.max.z);
        push_i32(&mut out, node.triangle_index);
        push_i32(&mut out, node.triangle_count);
        push_i32(&mut out, node.child_index);
        proof {
            assert forall|i2: int| 0 <= i2 < i implies spec_node_at(out@, 36 * i2)
                == all_nodes@[i2] by {
                assert(spec_node_at(out@, 36 * i2) == spec_node_at(pre, 36 * i2));
            }
            assert(spec_node_at(out@, 36 * i as int) == all_nodes@[i as int]);
        }
        i = i + 1;
    }
    proof {
        assert(spec_decode_nodes(out@) =~= all_nodes@);
    }
    out
}

/// Parses a node stream. Succeeds exactly when the byte count is a
/// multiple of the 36-byte record size; a malformed length is rejected
/// whole, never truncated.
pub fn deserialize_nodes(data: &Vec<u8>) -> (r: Option<Vec<Node>>)
    ensures
        r is Some <==> data@.len() % 36 == 0,
        r matches Some(ns) ==> ns@ == spec_decode_nodes(data@),
{
    let n = data.len();
    if n % 36 != 0 {
        return None;
    }
    proof {
        lemma_fundamental_div_mod(n as int, 36);
    }
    let total = n / 36;
    let mut result: Vec<Node> = Vec::new();
    let mut i: usize = 0;
    while i < total
        invariant
            n == data@.len(),
            n % 36 == 0,
            total == n as int / 36,
            n == 36 * total,
            i <= total,
            result@.len() == i,
            forall|i2: int| 0 <= i2 < i ==> result@[i2] == spec_node_at(data@, 36 * i2),
        decreases total - i,
    {
        let off = 36 * i;
        let min = Vector::new(read_i32(data, off), read_i32(data, off + 4), read_i32(data, off + 8));
        let max = Vector::new(
            read_i32(data, off + 12),
            read_i32(data, off + 16),
            read_i32(data, off + 20),
        );
        let node = Node {
            bounds: BoundingBox::from_corners(min, max),
            triangle_index: read_i32(data, off + 24),
            triangle_count: read_i32(data, off + 28),
            child_index: read_i32(data, off + 32),
        };
        result.push(node);
        i = i + 1;
    }
    proof {
        assert(result@ =~= spec_decode_nodes(data@));
    }
    Some(result)
}

/// Flattens the triangle array in its final, post-partition order: 36 bytes
/// per triangle, the three vertices' coordinates. The stream decodes back
/// to exactly the input.
#[verifier::rlimit(100)]
pub fn serialize_triangles(all_triangles: &Vec<Triangle>) -> (out: Vec<u8>)
    requires
        forall|k: int| 0 <= k < all_triangles@.len() ==> (#[trigger] all_triangles@[k]).wf(),
    ensures
        out@.len() == 36 * all_triangles@.len(),
        spec_decode_triangles(out@) == all_triangles@,
{
    let n = all_triangles.len();
    let mut out: Vec<u8> = Vec::new();
    let mut i: usize = 0;
    while i < n
        invariant
            n == all_triangles@.len(),
            forall|k: int| 0 <= k < n ==> (#[trigger] all_triangles@[k]).wf(),
            i <= n,
            out@.len() == 36 * i,
            forall|i2: int| 0 <= i2 < i ==> spec_triangle_at(out@, 36 * i2) == all_triangles@[i2],
        decreases n - i,
    {
        let t = all_triangles[i];
        let a = t.get_a();
        let b = t.get_b();
        let c = t.get_c();
        let ghost pre = out@;
        push_i32(&mut out, a.x);
        push_i32(&mut out, a.y);
        push_i32(&mut out, a.z);
        push_i32(&mut out, b.x);
        push_i32(&mut out, b.y);
        push_i32(&mut out, b.z);
        push_i32(&mut out, c.x);
        push_i32(&mut out, c.y);
        push_i32(&mut out, c.z);
        proof {
            assert forall|i2: int| 0 <= i2 < i implies spec_triangle_at(out@, 36 * i2)
                == all_triangles@[i2] by {
                assert(spec_triangle_at(out@, 36 * i2) == spec_triangle_at(pre, 36 * i2));
            }
            Triangle::lemma_eq_from_vertices(
                spec_triangle_at(out@, 36 * i as int),
                all_triangles@[i as int],
            );
        }
        i = i + 1;
    }
    proof {
        assert(spec_decode_triangles(out@) =~= all_triangles@);
    }
    out
}

/// Parses a triangle stream. Succeeds exactly when the byte count is a
/// multiple of the 36-byte record size; a malformed length is rejected
/// whole, never truncated.
pub fn deserialize_triangles(data: &Vec<u8>) -> (r: Option<Vec<Triangle>>)
    ensures
        r is Some <==> data@.len() % 36 == 0,
        r matches Some(ts) ==> ts@ == spec_decode_triangles(data@),
{
    let n = data.len();
    if n % 36 != 0 {
        return None;
    }
    proof {
        lemma_fundamental_div_mod(n as int, 36);
    }
    let total = n / 36;
    let mut result: Vec<Triangle> = Vec::new();
    let mut i: usize = 0;
    while i < total
        invariant
            n == data@.len(),
            n % 36 == 0,
            total == n as int / 36,
            n == 36 * total,
            i <= total,
            result@.len() == i,
            forall|i2: int| 0 <= i2 < i ==> result@[i2] == spec_triangle_at(data@, 36 * i2),
        decreases total - i,
    {
        let off = 36 * i;
        let a = Vector::new(read_i32(data, off), read_i32(data, off + 4), read_i32(data, off + 8));
        let b = Vector::new(
            read_i32(data, off + 12),
            read_i32(data, off + 16),
            read_i32(data, off + 20),
        );
        let c = Vector::new(
            read_i32(data, off + 24),
            read_i32(data, off + 28),
            read_i32(data, off + 32),
        );
        result.push(Triangle::new(a, b, c));
        i = i + 1;
    }
    proof {
        assert(result@ =~= spec_decode_triangles(data@));
    }
    Some(result)
}

/// Round-trip serialization: byte streams that decode to a well-formed
/// tree and its triangle array replay to every triangle slot of the root's
/// range exactly once, and to no slot outside it. With the serializers'
/// postconditions this says that emitting a built BVH and reading it back
/// loses nothing: a traversal of the decoded tree reaches every triangle
/// exactly once.
pub proof fn lemma_round_trip_traversal(
    node_bytes: Seq<u8>,
    tri_bytes: Seq<u8>,
    nodes: Seq<Node>,
    tris: Seq<Triangle>,
    d: nat,
    lo: int,
    hi: int,
    k: int,
)
    requires
        spec_decode_nodes(node_bytes) == nodes,
        spec_decode_triangles(tri_bytes) == tris,
        tree_wf(nodes, 0, tris, d, lo, hi),
    ensures
        nodes[0].triangle_index <= k < nodes[0].triangle_index + nodes[0].triangle_count
            ==> leaf_hits(spec_decode_nodes(node_bytes), 0, d, k) == 1,
        !(nodes[0].triangle_index <= k < nodes[0].triangle_index + nodes[0].triangle_count)
            ==> leaf_hits(spec_decode_nodes(node_bytes), 0, d, k) == 0,
{
    lemma_leaf_coverage(nodes, 0, tris, d, lo, hi, k);
}

} // verus!
