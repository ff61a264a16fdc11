use crate::bounding_box::{spec_empty_box, BoundingBox};
use crate::node::Node;
use crate::tree::{lemma_tree_wf_frame, lemma_tree_wf_widen, tree_wf};
use crate::triangle::Triangle;
use crate::vector::{Vector, COORD_LIMIT};
use vstd::arithmetic::div_mod::{
    lemma_div_is_ordered, lemma_div_multiples_vanish, lemma_div_pos_is_pos, lemma_mod_bound,
};
use vstd::prelude::*;

verus! {

/// Number of candidate split positions probed per axis: a quality/speed
/// knob, not a correctness requirement.
pub const NUM_TESTS_PER_AXIS: i32 = 10;

/// Magnitude bound that `node_cost` never exceeds: 3 * 2^31 * 2^31 * 2^31,
/// comfortably inside `i128`.
pub const NODE_COST_BOUND: i128 = 0x6000_0000_0000_0000_0000_0000;

/// Product bounds from factor bounds.
proof fn lemma_mul_bounds(a: int, b: int, m: int, n: int)
    requires
        -m <= a <= m,
        -n <= b <= n,
        0 <= m,
        0 <= n,
    ensures
        -(m * n) <= a * b <= m * n,
{
    assert(-(m * n) <= a * b <= m * n) by (nonlinear_arith)
        requires
            -m <= a <= m,
            -n <= b <= n,
            0 <= m,
            0 <= n,
    ;
}

/// SAH proxy cost of a node: half the surface area of a box of extent
/// `size`, times the number of triangles in the node.
pub open spec fn spec_node_cost(size: Vector, num_triangles: int) -> int {
    (size.x as int * (size.y as int + size.z as int) + size.y as int * size.z as int)
        * num_triangles
}

/// `spec_node_cost` applied to the extent of box `b`.
pub open spec fn spec_extent_cost(b: BoundingBox, num_triangles: int) -> int {
    ((b.max.x - b.min.x) * ((b.max.y - b.min.y) + (b.max.z - b.min.z)) + (b.max.y - b.min.y) * (
    b.max.z - b.min.z)) * num_triangles
}

/// Cost of one side of a candidate split: an empty side costs nothing; a
/// non-empty side costs the node cost of its box extent and count.
pub open spec fn spec_side_cost(b: BoundingBox, num_triangles: int) -> int {
    if num_triangles == 0 {
        0
    } else {
        spec_extent_cost(b, num_triangles)
    }
}

/// Half the box surface area times the triangle count, the traversal-cost
/// proxy that guides every split decision.
pub fn node_cost(size: Vector, num_triangles: i32) -> (cost: i128)
    ensures
        cost == spec_node_cost(size, num_triangles as int),
        -NODE_COST_BOUND <= cost <= NODE_COST_BOUND,
{
    let x = size.x as i128;
    let y = size.y as i128;
    let z = size.z as i128;
    let n = num_triangles as i128;
    proof {
        let b31: int = 0x8000_0000;
        lemma_mul_bounds(x as int, y as int + z as int, b31, 2 * b31);
        lemma_mul_bounds(y as int, z as int, b31, b31);
        lemma_mul_bounds(
            x as int * (y as int + z as int) + y as int * z as int,
            n as int,
            3 * b31 * b31,
            b31,
        );
    }
    (x * (y + z) + y * z) * n
}

/// State of the split probe after the first `k` triangles of the range that
/// starts at `start`: side-A box, side-B box, side-A count, side-B count.
/// A triangle goes to side A when its centroid component on `axis` is
/// strictly below `pos`.
pub open spec fn spec_eval_state(
    tris: Seq<Triangle>,
    start: int,
    k: int,
    axis: int,
    pos: int,
) -> (BoundingBox, BoundingBox, int, int)
    decreases k,
{
    if k <= 0 {
        (spec_empty_box(), spec_empty_box(), 0, 0)
    } else {
        let prev = spec_eval_state(tris, start, k - 1, axis, pos);
        let t = tris[start + k - 1];
        if t.center.spec_component(axis) < pos {
            (prev.0.spec_grow(t), prev.1, prev.2 + 1, prev.3)
        } else {
            (prev.0, prev.1.spec_grow(t), prev.2, prev.3 + 1)
        }
    }
}

/// Probe cost of splitting the range `[start, start + count)` on `axis` at
/// `pos`: the summed side costs of the partition the split would produce.
pub open spec fn spec_evaluate_split(
    tris: Seq<Triangle>,
    start: int,
    count: int,
    axis: int,
    pos: int,
) -> int {
    let s = spec_eval_state(tris, start, count, axis, pos);
    spec_side_cost(s.0, s.2) + spec_side_cost(s.1, s.3)
}

/// Read-only probe of a candidate split of `node`'s triangle range: sorts
/// each triangle to a side by the centroid test, accumulates the two side
/// boxes and counts, and returns the summed side costs. Does not touch the
/// triangle array.
#[verifier::rlimit(50)]
pub fn evaluate_split(node: Node, axis: usize, pos: i32, all_triangles: &Vec<Triangle>) -> (cost:
    i128)
    requires
        axis < 3,
        node.range_valid(all_triangles@.len() as int),
        forall|k: int|
            node.triangle_index <= k < node.triangle_index + node.triangle_count
                ==> (#[trigger] all_triangles@[k]).wf() && all_triangles@[k].in_limits(),
    ensures
        cost == spec_evaluate_split(
            all_triangles@,
            node.triangle_index as int,
            node.triangle_count as int,
            axis as int,
            pos as int,
        ),
        -2 * NODE_COST_BOUND <= cost <= 2 * NODE_COST_BOUND,
{
    let n = all_triangles.len();
    let start = node.triangle_index as usize;
    let count = node.triangle_count as usize;
    let mut bounds_a = BoundingBox::new();
    let mut bounds_b = BoundingBox::new();
    let mut num_in_a: i32 = 0;
    let mut num_in_b: i32 = 0;
    let ghost tris = all_triangles@;
    let ghost s_start = start as int;
    let ghost s_axis = axis as int;
    let ghost s_pos = pos as int;

    let mut i: usize = 0;
    while i < count
        invariant
            axis < 3,
            n == all_triangles@.len(),
            start + count <= n,
            count <= i32::MAX,
            tris == all_triangles@,
            s_start == start as int,
            s_axis == axis as int,
            s_pos == pos as int,
            forall|k: int|
                s_start <= k < s_start + count ==> (#[trigger] tris[k]).wf() && tris[k].in_limits(),
            i <= count,
            0 <= num_in_a,
            0 <= num_in_b,
            num_in_a as int + num_in_b as int == i as int,
            (bounds_a, bounds_b, num_in_a as int, num_in_b as int) == spec_eval_state(
                tris,
                s_start,
                i as int,
                s_axis,
                s_pos,
            ),
            num_in_a == 0 ==> bounds_a == spec_empty_box(),
            num_in_a > 0 ==> bounds_a.in_limits(),
            num_in_b == 0 ==> bounds_b == spec_empty_box(),
            num_in_b > 0 ==> bounds_b.in_limits(),
        decreases count - i,
    {
        let t = all_triangles[start + i];
        proof {
            t.lemma_derived_in_limits();
        }
        if t.center.component(axis) < pos {
            bounds_a.grow_to_include(t);
            num_in_a = num_in_a + 1;
        } else {
            bounds_b.grow_to_include(t);
            num_in_b = num_in_b + 1;
        }
        i = i + 1;
    }

    let cost_a: i128 = if num_in_a == 0 {
        0
    } else {
        node_cost(extent_of(&bounds_a), num_in_a)
    };
    let cost_b: i128 = if num_in_b == 0 {
        0
    } else {
        node_cost(extent_of(&bounds_b), num_in_b)
    };
    cost_a + cost_b
}

/// Candidate split position `k` (0-based) on `axis` strictly inside box
/// `b`: the extent cut at fraction `(k + 1) / (NUM_TESTS_PER_AXIS + 1)`,
/// avoiding the degenerate endpoints.
pub open spec fn spec_candidate_pos(b: BoundingBox, axis: int, k: int) -> int {
    let lo = b.min.spec_component(axis) as int;
    let hi = b.max.spec_component(axis) as int;
    lo + ((hi - lo) * (k + 1)) / (NUM_TESTS_PER_AXIS as int + 1)
}

/// Best `(axis, pos, cost)` among the first `j` of the
/// `3 * NUM_TESTS_PER_AXIS` candidate splits of the range
/// `[start, start + count)` inside box `b`, scanned axis-major; ties keep
/// the earliest candidate. `j == 0` gives the sentinel with cost
/// `i128::MAX`, which every real candidate beats.
pub open spec fn spec_best_split(
    tris: Seq<Triangle>,
    start: int,
    count: int,
    b: BoundingBox,
    j: int,
) -> (int, int, int)
    decreases j,
{
    if j <= 0 {
        (0, 0, i128::MAX as int)
    } else {
        let prev = spec_best_split(tris, start, count, b, j - 1);
        let axis = (j - 1) / (NUM_TESTS_PER_AXIS as int);
        let k = (j - 1) % (NUM_TESTS_PER_AXIS as int);
        let pos = spec_candidate_pos(b, axis, k);
        let cost = spec_evaluate_split(tris, start, count, axis, pos);
        if cost < prev.2 {
            (axis, pos, cost)
        } else {
            prev
        }
    }
}

/// Scans `NUM_TESTS_PER_AXIS` evenly spaced candidate positions on each of
/// the three axes, probes each with `evaluate_split`, and returns the
/// `(axis, position, cost)` of minimum cost, earliest candidate first on
/// ties.
pub fn choose_split(node: Node, all_triangles: &Vec<Triangle>) -> (r: (i32, i32, i128))
    requires
        node.range_valid(all_triangles@.len() as int),
        node.bounds.nonempty(),
        node.bounds.in_limits(),
        forall|k: int|
            node.triangle_index <= k < node.triangle_index + node.triangle_count
                ==> (#[trigger] all_triangles@[k]).wf() && all_triangles@[k].in_limits(),
    ensures
        (r.0 as int, r.1 as int, r.2 as int) == spec_best_split(
            all_triangles@,
            node.triangle_index as int,
            node.triangle_count as int,
            node.bounds,
            3 * NUM_TESTS_PER_AXIS as int,
        ),
        0 <= r.0 < 3,
{
    let mut best_cost: i128 = i128::MAX;
    let mut best_pos: i32 = 0;
    let mut best_axis: i32 = 0;
    let ghost tris = all_triangles@;
    let ghost s_start = node.triangle_index as int;
    let ghost s_count = node.triangle_count as int;

    let num_candidates: usize = 3 * (NUM_TESTS_PER_AXIS as usize);
    let mut j: usize = 0;
    while j < num_candidates
        invariant
            node.range_valid(all_triangles@.len() as int),
            node.bounds.nonempty(),
            node.bounds.in_limits(),
            forall|k: int|
                s_start <= k < s_start + s_count ==> (#[trigger] tris[k]).wf()
                    && tris[k].in_limits(),
            tris == all_triangles@,
            s_start == node.triangle_index as int,
            s_count == node.triangle_count as int,
            num_candidates == 3 * NUM_TESTS_PER_AXIS as int,
            j <= num_candidates,
            0 <= best_axis < 3,
            (best_axis as int, best_pos as int, best_cost as int) == spec_best_split(
                tris,
                s_start,
                s_count,
                node.bounds,
                j as int,
            ),
        decreases num_candidates - j,
    {
        let axis: usize = j / (NUM_TESTS_PER_AXIS as usize);
        let k: usize = j % (NUM_TESTS_PER_AXIS as usize);
        proof {
            lemma_div_is_ordered(j as int, 3 * NUM_TESTS_PER_AXIS as int - 1, NUM_TESTS_PER_AXIS as int);
            lemma_mod_bound(j as int, NUM_TESTS_PER_AXIS as int);
        }
        let lo = node.bounds.min.component(axis);
        let hi = node.bounds.max.component(axis);
        let ext: i64 = hi as i64 - lo as i64;
        proof {
            lemma_mul_bounds(
                ext as int,
                k as int + 1,
                2 * COORD_LIMIT as int,
                NUM_TESTS_PER_AXIS as int + 1,
            );
        }
        let num: i64 = ext * (k as i64 + 1);
        let den: i64 = NUM_TESTS_PER_AXIS as i64 + 1;
        let off: i64 = num / den;
        proof {
            lemma_div_pos_is_pos(num as int, den as int);
            lemma_mul_bounds(ext as int, k as int + 1, ext as int, den as int);
            lemma_div_is_ordered(num as int, ext as int * den as int, den as int);
            assert(ext as int * den as int == den as int * ext as int) by (nonlinear_arith);
            lemma_div_multiples_vanish(ext as int, den as int);
        }
        let pos: i32 = (lo as i64 + off) as i32;
        let cost: i128 = evaluate_split(node, axis, pos, all_triangles);
        proof {
            assert(pos as int == spec_candidate_pos(node.bounds, axis as int, k as int));
        }
        if cost < best_cost {
            best_cost = cost;
            best_pos = pos;
            best_axis = axis as i32;
        }
        j = j + 1;
    }
    (best_axis, best_pos, best_cost)
}

/// Swapping two elements of a sequence preserves its multiset.
proof fn lemma_swap_preserves_multiset(s: Seq<Triangle>, i: int, j: int)
    requires
        0 <= i < s.len(),
        0 <= j < s.len(),
    ensures
        s.update(i, s[j]).update(j, s[i]).to_multiset() == s.to_multiset(),
{
    broadcast use vstd::seq_lib::group_to_multiset_ensures;
    broadcast use vstd::multiset::group_multiset_axioms;

    if i == j {
        assert(s.update(i, s[j]).update(j, s[i]) =~= s);
    } else {
        let s1 = s.update(i, s[j]);
        let s2 = s1.update(j, s[i]);
        assert(s.contains(s[i]));
        assert(s.contains(s[j]));
        assert(s1.contains(s1[j]));
        assert(s1.to_multiset() == s.to_multiset().insert(s[j]).remove(s[i]));
        assert(s2.to_multiset() == s1.to_multiset().insert(s[i]).remove(s1[j]));
        assert(s2.to_multiset() =~= s.to_multiset());
    }
}

/// Swaps the triangles at `i` and `j` in place.
fn swap_triangles(v: &mut Vec<Triangle>, i: usize, j: usize)
    requires
        i < old(v)@.len(),
        j < old(v)@.len(),
    ensures
        final(v)@.len() == old(v)@.len(),
        final(v)@[i as int] == old(v)@[j as int],
        final(v)@[j as int] == old(v)@[i as int],
        forall|k: int|
            0 <= k < old(v)@.len() && k != i && k != j ==> final(v)@[k] == old(v)@[k],
        final(v)@.to_multiset() == old(v)@.to_multiset(),
{
    let ghost pre = v@;
    let a = v[i];
    let b = v[j];
    v[i] = b;
    v[j] = a;
    proof {
        lemma_swap_preserves_multiset(pre, i as int, j as int);
        assert(v@ =~= pre.update(i as int, pre[j as int]).update(j as int, pre[i as int]));
    }
}

/// Committed in-place partition of the triangle range
/// `[start, start + count)`: each triangle whose centroid component on
/// `axis` is strictly below `pos` is swapped into the next free slot at the
/// front of the range; the rest accumulate behind them. Grows each side's
/// bounding box along the way and returns the size of side A with the two
/// side boxes. Touches nothing outside the range, and the range keeps
/// exactly its triangles, as a multiset.
#[verifier::rlimit(100)]
pub fn partition_range(
    all_triangles: &mut Vec<Triangle>,
    start: usize,
    count: usize,
    axis: usize,
    pos: i32,
    parent_bounds: Ghost<BoundingBox>,
) -> (r: (usize, BoundingBox, BoundingBox))
    requires
        axis < 3,
        start + count <= old(all_triangles)@.len(),
        forall|k: int|
            start <= k < start + count ==> {
                &&& (#[trigger] old(all_triangles)@[k]).wf()
                &&& old(all_triangles)@[k].in_limits()
                &&& parent_bounds@.contains_triangle(old(all_triangles)@[k])
            },
    ensures
        final(all_triangles)@.len() == old(all_triangles)@.len(),
        forall|k: int|
            0 <= k < final(all_triangles)@.len() && !(start <= k < start + count)
                ==> final(all_triangles)@[k] == old(all_triangles)@[k],
        final(all_triangles)@.to_multiset() == old(all_triangles)@.to_multiset(),
        r.0 <= count,
        ({
            let st = spec_eval_state(
                old(all_triangles)@,
                start as int,
                count as int,
                axis as int,
                pos as int,
            );
            r.0 as int == st.2 && r.1 == st.0 && r.2 == st.1
        }),
        forall|k: int|
            start <= k < start + r.0 ==> (#[trigger] final(all_triangles)@[k]).center.spec_component(
                axis as int,
            ) < pos,
        forall|k: int|
            start + r.0 <= k < start + count ==> !((
            #[trigger] final(all_triangles)@[k]).center.spec_component(axis as int) < pos),
        forall|k: int|
            start <= k < start + count ==> {
                &&& (#[trigger] final(all_triangles)@[k]).wf()
                &&& final(all_triangles)@[k].in_limits()
                &&& parent_bounds@.contains_triangle(final(all_triangles)@[k])
            },
        r.0 > 0 ==> {
            &&& r.1.wf()
            &&& r.1.nonempty()
            &&& r.1.in_limits()
            &&& parent_bounds@.contains_box(r.1)
            &&& forall|k: int|
                start <= k < start + r.0 ==> r.1.contains_triangle(#[trigger] final(all_triangles)@[k])
        },
        r.0 < count ==> {
            &&& r.2.wf()
            &&& r.2.nonempty()
            &&& r.2.in_limits()
            &&& parent_bounds@.contains_box(r.2)
            &&& forall|k: int|
                start + r.0 <= k < start + count ==> r.2.contains_triangle(
                    #[trigger] final(all_triangles)@[k],
                )
        },
{
    let n = all_triangles.len();
    let mut bounds_a = BoundingBox::new();
    let mut bounds_b = BoundingBox::new();
    let mut num_a: usize = 0;
    let mut i: usize = 0;
    while i < count
        invariant
            axis < 3,
            n == all_triangles@.len(),
            start + count <= n,
            all_triangles@.len() == old(all_triangles)@.len(),
            i <= count,
            num_a <= i,
            forall|k: int|
                0 <= k < all_triangles@.len() && !(start <= k < start + count)
                    ==> all_triangles@[k] == old(all_triangles)@[k],
            all_triangles@.to_multiset() == old(all_triangles)@.to_multiset(),
            forall|j: int|
                start + i <= j < start + count ==> all_triangles@[j] == old(all_triangles)@[j],
            (bounds_a, bounds_b, num_a as int, i - num_a as int) == spec_eval_state(
                old(all_triangles)@,
                start as int,
                i as int,
                axis as int,
                pos as int,
            ),
            forall|k: int|
                start <= k < start + count ==> {
                    &&& (#[trigger] all_triangles@[k]).wf()
                    &&& all_triangles@[k].in_limits()
                    &&& parent_bounds@.contains_triangle(all_triangles@[k])
                },
            forall|k: int|
                start <= k < start + num_a ==> (#[trigger] all_triangles@[k]).center.spec_component(
                    axis as int,
                ) < pos,
            forall|k: int|
                start + num_a <= k < start + i ==> !((
                #[trigger] all_triangles@[k]).center.spec_component(axis as int) < pos),
            num_a == 0 ==> bounds_a == spec_empty_box(),
            num_a > 0 ==> {
                &&& bounds_a.wf()
                &&& bounds_a.nonempty()
                &&& bounds_a.in_limits()
                &&& parent_bounds@.contains_box(bounds_a)
                &&& forall|k: int|
                    start <= k < start + num_a ==> bounds_a.contains_triangle(
                        #[trigger] all_triangles@[k],
                    )
            },
            i == num_a ==> bounds_b == spec_empty_box(),
            i > num_a ==> {
                &&& bounds_b.wf()
                &&& bounds_b.nonempty()
                &&& bounds_b.in_limits()
                &&& parent_bounds@.contains_box(bounds_b)
                &&& forall|k: int|
                    start + num_a <= k < start + i ==> bounds_b.contains_triangle(
                        #[trigger] all_triangles@[k],
                    )
            },
        decreases count - i,
    {
        let t = all_triangles[start + i];
        proof {
            t.lemma_derived_in_limits();
        }
        if t.center.component(axis) < pos {
            bounds_a.grow_to_include(t);
            let ghost mid = all_triangles@;
            swap_triangles(all_triangles, start + num_a, start + i);
            proof {
                assert(all_triangles@[start + num_a as int] == t);
                assert forall|k: int| start <= k < start + num_a + 1 implies (
                #[trigger] all_triangles@[k]).center.spec_component(axis as int) < pos by {
                    if k < start + num_a {
                        assert(all_triangles@[k] == mid[k]);
                    }
                }
                assert forall|k: int|
                    start + num_a + 1 <= k < start + i + 1 implies !((
                #[trigger] all_triangles@[k]).center.spec_component(axis as int) < pos) by {
                    if k < start + i {
                        assert(all_triangles@[k] == mid[k]);
                    } else {
                        assert(all_triangles@[k] == mid[start + num_a as int]);
                    }
                }
                assert forall|k: int|
                    start <= k < start + num_a + 1 implies bounds_a.contains_triangle(
                    #[trigger] all_triangles@[k]) by {
                    if k < start + num_a {
                        assert(all_triangles@[k] == mid[k]);
                    }
                }
                assert forall|k: int|
                    start + num_a + 1 <= k < start + i + 1 implies bounds_b.contains_triangle(
                    #[trigger] all_triangles@[k]) by {
                    if k < start + i {
                        assert(all_triangles@[k] == mid[k]);
                    } else {
                        assert(all_triangles@[k] == mid[start + num_a as int]);
                    }
                }
            }
            num_a = num_a + 1;
        } else {
            bounds_b.grow_to_include(t);
        }
        i = i + 1;
    }
    (num_a, bounds_a, bounds_b)
}

/// Extent of a box: max minus min, per component. Needs the corners within
/// the coordinate limit so that the differences fit the component type.
fn extent_of(b: &BoundingBox) -> (e: Vector)
    requires
        b.in_limits(),
    ensures
        e.x as int == b.max.x - b.min.x,
        e.y as int == b.max.y - b.min.y,
        e.z as int == b.max.z - b.min.z,
{
    Vector::new(b.max.x - b.min.x, b.max.y - b.min.y, b.max.z - b.min.z)
}

/// Recursive top-down split of the node at `parent_index`, whose triangle
/// range must still be un-split. Probes candidate splits; when the best
/// probe strictly beats the unsplit cost and both sides are non-empty, it
/// partitions the range in place, appends the two children, points the
/// parent at them, and recurses into both children one level deeper.
///
/// The postconditions say exactly what one call may do: existing nodes are
/// untouched except this parent's `child_index`; the triangles are permuted
/// within the parent's range only; the result is a well-formed subtree
/// ([`tree_wf`]) of height at most `max_depth - depth` whose descendants
/// all live in the freshly appended tail of the node array; and children
/// were appended only if the probed cost strictly improved on the unsplit
/// node's cost.
#[verifier::rlimit(100)]
pub fn split(
    parent_index: usize,
    depth: i32,
    all_nodes: &mut Vec<Node>,
    all_triangles: &mut Vec<Triangle>,
    max_depth: i32,
)
    requires
        0 <= depth <= max_depth,
        parent_index < old(all_nodes)@.len(),
        old(all_nodes)@[parent_index as int].is_leaf(),
        old(all_nodes)@[parent_index as int].range_valid(old(all_triangles)@.len() as int),
        old(all_nodes)@[parent_index as int].triangle_count >= 1,
        old(all_nodes)@[parent_index as int].bounds.wf(),
        old(all_nodes)@[parent_index as int].bounds.nonempty(),
        old(all_nodes)@[parent_index as int].bounds.in_limits(),
        forall|k: int|
            old(all_nodes)@[parent_index as int].triangle_index <= k < old(
                all_nodes,
            )@[parent_index as int].triangle_index + old(
                all_nodes,
            )@[parent_index as int].triangle_count ==> {
                &&& (#[trigger] old(all_triangles)@[k]).wf()
                &&& old(all_triangles)@[k].in_limits()
                &&& old(all_nodes)@[parent_index as int].bounds.contains_triangle(
                    old(all_triangles)@[k],
                )
            },
        old(all_nodes)@.len() + 2 * old(all_nodes)@[parent_index as int].triangle_count
            <= i32::MAX as int,
        old(all_triangles)@.len() <= i32::MAX as int,
    ensures
        final(all_nodes)@.len() >= old(all_nodes)@.len(),
        final(all_nodes)@.len() == old(all_nodes)@.len() || final(all_nodes)@.len() <= old(
            all_nodes,
        )@.len() + 2 * old(all_nodes)@[parent_index as int].triangle_count - 2,
        forall|j: int|
            0 <= j < old(all_nodes)@.len() && j != parent_index ==> final(all_nodes)@[j] == old(
                all_nodes,
            )@[j],
        final(all_nodes)@[parent_index as int].bounds == old(
            all_nodes,
        )@[parent_index as int].bounds,
        final(all_nodes)@[parent_index as int].triangle_index == old(
            all_nodes,
        )@[parent_index as int].triangle_index,
        final(all_nodes)@[parent_index as int].triangle_count == old(
            all_nodes,
        )@[parent_index as int].triangle_count,
        final(all_triangles)@.len() == old(all_triangles)@.len(),
        forall|k: int|
            0 <= k < final(all_triangles)@.len() && !(old(
                all_nodes,
            )@[parent_index as int].triangle_index <= k < old(
                all_nodes,
            )@[parent_index as int].triangle_index + old(
                all_nodes,
            )@[parent_index as int].triangle_count) ==> final(all_triangles)@[k] == old(
                all_triangles,
            )@[k],
        final(all_triangles)@.to_multiset() == old(all_triangles)@.to_multiset(),
        forall|j: int|
            old(all_nodes)@.len() <= j < final(all_nodes)@.len() ==> (
            #[trigger] final(all_nodes)@[j]).bounds.wf(),
        tree_wf(
            final(all_nodes)@,
            parent_index as int,
            final(all_triangles)@,
            (max_depth - depth) as nat,
            old(all_nodes)@.len() as int,
            final(all_nodes)@.len() as int,
        ),
        !final(all_nodes)@[parent_index as int].is_leaf() ==> spec_best_split(
            old(all_triangles)@,
            old(all_nodes)@[parent_index as int].triangle_index as int,
            old(all_nodes)@[parent_index as int].triangle_count as int,
            old(all_nodes)@[parent_index as int].bounds,
            3 * NUM_TESTS_PER_AXIS as int,
        ).2 < spec_extent_cost(
            old(all_nodes)@[parent_index as int].bounds,
            old(all_nodes)@[parent_index as int].triangle_count as int,
        ),
        ({
            let p = old(all_nodes)@[parent_index as int];
            let best = spec_best_split(
                old(all_triangles)@,
                p.triangle_index as int,
                p.triangle_count as int,
                p.bounds,
                3 * NUM_TESTS_PER_AXIS as int,
            );
            let na = spec_eval_state(
                old(all_triangles)@,
                p.triangle_index as int,
                p.triangle_count as int,
                best.0,
                best.1,
            ).2;
            depth < max_depth && best.2 < spec_extent_cost(p.bounds, p.triangle_count as int) && 0
                < na < p.triangle_count ==> !final(all_nodes)@[parent_index as int].is_leaf()
        }),
        ({
            let p = old(all_nodes)@[parent_index as int];
            let best = spec_best_split(
                old(all_triangles)@,
                p.triangle_index as int,
                p.triangle_count as int,
                p.bounds,
                3 * NUM_TESTS_PER_AXIS as int,
            );
            let na = spec_eval_state(
                old(all_triangles)@,
                p.triangle_index as int,
                p.triangle_count as int,
                best.0,
                best.1,
            ).2;
            !final(all_nodes)@[parent_index as int].is_leaf() ==> final(
                all_nodes
            )@[final(all_nodes)@[parent_index as int].child_index as int].triangle_count as int
                == na
        }),
    decreases max_depth - depth,
{
    let ghost old_nodes = all_nodes@;
    let p = all_nodes[parent_index];

    if depth == max_depth {
        return ;
    }
    let r = choose_split(p, all_triangles);
    let split_axis: i32 = r.0;
    let split_pos: i32 = r.1;
    let cost: i128 = r.2;
    let parent_cost: i128 = node_cost(extent_of(&p.bounds), p.triangle_count);
    proof {
        assert(parent_cost == spec_extent_cost(p.bounds, p.triangle_count as int));
    }
    if cost >= parent_cost {
        return ;
    }

    let start = p.triangle_index as usize;
    let count = p.triangle_count as usize;
    let pr = partition_range(
        all_triangles,
        start,
        count,
        split_axis as usize,
        split_pos,
        Ghost(p.bounds),
    );
    let num_a: usize = pr.0;
    if num_a == 0 || num_a == count {
        return ;
    }

    let ghost d: nat = (max_depth - depth) as nat;
    let ghost d1: nat = (d - 1) as nat;

    let child_a = Node::new(pr.1, p.triangle_index, num_a as i32);
    let child_b = Node::new(
        pr.2,
        p.triangle_index + num_a as i32,
        p.triangle_count - num_a as i32,
    );
    let ca: usize = all_nodes.len();
    all_nodes.push(child_a);
    all_nodes.push(child_b);
    all_nodes[parent_index] = Node {
        bounds: p.bounds,
        triangle_index: p.triangle_index,
        triangle_count: p.triangle_count,
        child_index: ca as i32,
    };

    split(ca, depth + 1, all_nodes, all_triangles, max_depth);
    let ghost nodes2 = all_nodes@;
    let ghost tris2 = all_triangles@;
    split(ca + 1, depth + 1, all_nodes, all_triangles, max_depth);
    let ghost nodes3 = all_nodes@;
    let ghost tris3 = all_triangles@;

    proof {
        // child A's subtree is untouched by child B's build
        lemma_tree_wf_frame(
            nodes2,
            nodes3,
            ca as int,
            tris2,
            tris3,
            d1,
            ca as int + 2,
            nodes2.len() as int,
        );
        lemma_tree_wf_widen(
            nodes3,
            ca as int,
            tris3,
            d1,
            ca as int + 2,
            nodes2.len() as int,
            old_nodes.len() as int,
            nodes3.len() as int,
        );
        lemma_tree_wf_widen(
            nodes3,
            ca as int + 1,
            tris3,
            d1,
            nodes2.len() as int,
            nodes3.len() as int,
            old_nodes.len() as int,
            nodes3.len() as int,
        );
        assert(tree_wf(nodes3, ca as int, tris3, d1, old_nodes.len() as int, nodes3.len() as int));
        assert(tree_wf(
            nodes3,
            ca as int + 1,
            tris3,
            d1,
            old_nodes.len() as int,
            nodes3.len() as int,
        ));
        // the parent's box contains every triangle of its range, through
        // the child that now holds it
        assert forall|k: int|
            p.triangle_index <= k < p.triangle_index + p.triangle_count implies {
            &&& (#[trigger] tris3[k]).wf()
            &&& tris3[k].in_limits()
            &&& p.bounds.contains_triangle(tris3[k])
        } by {
            if k < p.triangle_index + num_a {
                assert(nodes3[ca as int].bounds.contains_triangle(tris3[k]));
            } else {
                assert(nodes3[ca as int + 1].bounds.contains_triangle(tris3[k]));
            }
        }
        assert(tree_wf(
            nodes3,
            parent_index as int,
            tris3,
            d,
            old_nodes.len() as int,
            nodes3.len() as int,
        ));
    }
}

/// The bounding box of the first `k` triangles: the empty box grown by
/// each in turn.
pub open spec fn spec_grow_all(tris: Seq<Triangle>, k: int) -> BoundingBox
    decreases k,
{
    if k <= 0 {
        spec_empty_box()
    } else {
        spec_grow_all(tris, k - 1).spec_grow(tris[k - 1])
    }
}

/// Builds the whole BVH: computes the root bounding box over all
/// triangles, appends the root node spanning the entire range
/// `[0, all_triangles.len())`, and splits it recursively from depth 0.
/// The node array must start empty, so that node 0 is the root.
///
/// With no triangles the result is a single empty leaf and the triangle
/// array is untouched; callers that treat an empty input as "no geometry"
/// can skip the call entirely. Otherwise the result is a well-formed tree
/// ([`tree_wf`]) of height at most `max_depth` over a permutation of the
/// input triangles.
#[allow(non_snake_case)]
pub fn BVH(all_nodes: &mut Vec<Node>, all_triangles: &mut Vec<Triangle>, max_depth: i32)
    requires
        old(all_nodes)@.len() == 0,
        0 <= max_depth,
        forall|k: int|
            0 <= k < old(all_triangles)@.len() ==> (#[trigger] old(all_triangles)@[k]).wf() && old(
                all_triangles,
            )@[k].in_limits(),
        1 + 2 * old(all_triangles)@.len() <= i32::MAX as int,
    ensures
        final(all_triangles)@.len() == old(all_triangles)@.len(),
        final(all_triangles)@.to_multiset() == old(all_triangles)@.to_multiset(),
        final(all_nodes)@.len() >= 1,
        forall|j: int|
            0 <= j < final(all_nodes)@.len() ==> (#[trigger] final(all_nodes)@[j]).bounds.wf(),
        forall|k: int|
            0 <= k < final(all_triangles)@.len() ==> (#[trigger] final(all_triangles)@[k]).wf(),
        final(all_nodes)@[0].triangle_index == 0,
        final(all_nodes)@[0].triangle_count as int == old(all_triangles)@.len(),
        final(all_nodes)@[0].bounds == spec_grow_all(
            old(all_triangles)@,
            old(all_triangles)@.len() as int,
        ),
        old(all_triangles)@.len() == 0 ==> {
            &&& final(all_nodes)@.len() == 1
            &&& final(all_nodes)@[0].is_leaf()
            &&& final(all_nodes)@[0].bounds == spec_empty_box()
            &&& final(all_triangles)@ == old(all_triangles)@
        },
        old(all_triangles)@.len() > 0 ==> {
            &&& tree_wf(
                final(all_nodes)@,
                0,
                final(all_triangles)@,
                max_depth as nat,
                1,
                final(all_nodes)@.len() as int,
            )
            &&& final(all_nodes)@.len() <= 2 * old(all_triangles)@.len() - 1
        },
        ({
            let n = old(all_triangles)@.len() as int;
            let root_bounds = spec_grow_all(old(all_triangles)@, n);
            let best = spec_best_split(
                old(all_triangles)@,
                0,
                n,
                root_bounds,
                3 * NUM_TESTS_PER_AXIS as int,
            );
            let na = spec_eval_state(old(all_triangles)@, 0, n, best.0, best.1).2;
            &&& (n > 0 && 0 < max_depth && best.2 < spec_extent_cost(root_bounds, n) && 0 < na < n
                ==> !final(all_nodes)@[0].is_leaf())
            &&& (!final(all_nodes)@[0].is_leaf() ==> best.2 < spec_extent_cost(root_bounds, n))
        }),
{
    let n = all_triangles.len();
    let mut bounds = BoundingBox::new();
    let mut i: usize = 0;
    while i < n
        invariant
            n == all_triangles@.len(),
            all_triangles@ == old(all_triangles)@,
            forall|k: int|
                0 <= k < n ==> (#[trigger] all_triangles@[k]).wf() && all_triangles@[k].in_limits(),
            i <= n,
            bounds.wf(),
            bounds == spec_grow_all(all_triangles@, i as int),
            i == 0 ==> bounds == spec_empty_box(),
            i > 0 ==> bounds.nonempty() && bounds.in_limits(),
            forall|k: int| 0 <= k < i ==> bounds.contains_triangle(#[trigger] all_triangles@[k]),
        decreases n - i,
    {
        let t = all_triangles[i];
        proof {
            t.lemma_derived_in_limits();
        }
        bounds.grow_to_include(t);
        i = i + 1;
    }

    let root = Node::new(bounds, 0, n as i32);
    all_nodes.push(root);
    if n > 0 {
        split(0, 0, all_nodes, all_triangles, max_depth);
    }
}

} // verus!
