use crate::node::Node;
use crate::triangle::Triangle;
use vstd::prelude::*;

verus! {

/// Well-formedness of the subtree rooted at node `i` of the flat node array
/// `nodes`, over the triangle array `tris`.
///
/// `d` is the height budget: an interior node spends one level, so the
/// subtree's height is at most `d`. `lo..hi` is an index interval that holds
/// every strict descendant of `i`; it makes the predicate local, so that
/// appending nodes elsewhere or editing nodes outside the interval cannot
/// disturb it.
///
/// The structural clauses say exactly how a committed split relates parent
/// and children: child A starts at the parent's `triangle_index`, child B
/// right after child A, their counts sum to the parent's, both are
/// non-empty, and the parent's box contains both children's boxes as well
/// as every triangle of its range.
pub open spec fn tree_wf(
    nodes: Seq<Node>,
    i: int,
    tris: Seq<Triangle>,
    d: nat,
    lo: int,
    hi: int,
) -> bool
    decreases d,
{
    &&& 0 <= i < nodes.len()
    &&& 0 <= lo <= hi <= nodes.len()
    &&& nodes[i].range_valid(tris.len() as int)
    &&& nodes[i].triangle_count >= 1
    &&& nodes[i].bounds.wf()
    &&& nodes[i].bounds.nonempty()
    &&& nodes[i].bounds.in_limits()
    &&& (forall|k: int|
        nodes[i].triangle_index <= k < nodes[i].triangle_index + nodes[i].triangle_count ==> {
            &&& nodes[i].bounds.contains_triangle(#[trigger] tris[k])
            &&& tris[k].wf()
            &&& tris[k].in_limits()
        })
    &&& (!nodes[i].is_leaf() ==> {
        let c = nodes[i].child_index as int;
        &&& d >= 1
        &&& i < c
        &&& lo <= c
        &&& c + 1 < hi
        &&& nodes[c].triangle_index == nodes[i].triangle_index
        &&& nodes[c].triangle_count + nodes[c + 1].triangle_count == nodes[i].triangle_count
        &&& nodes[c + 1].triangle_index == nodes[i].triangle_index + nodes[c].triangle_count
        &&& nodes[i].bounds.contains_box(nodes[c].bounds)
        &&& nodes[i].bounds.contains_box(nodes[c + 1].bounds)
        &&& tree_wf(nodes, c, tris, (d - 1) as nat, lo, hi)
        &&& tree_wf(nodes, c + 1, tris, (d - 1) as nat, lo, hi)
    })
}

/// `tree_wf` depends only on the node at `i`, the nodes of `lo..hi`, and
/// the triangles of node `i`'s range: any arrays that agree there (the node
/// array possibly longer) carry the predicate over.
pub proof fn lemma_tree_wf_frame(
    nodes1: Seq<Node>,
    nodes2: Seq<Node>,
    i: int,
    tris1: Seq<Triangle>,
    tris2: Seq<Triangle>,
    d: nat,
    lo: int,
    hi: int,
)
    requires
        tree_wf(nodes1, i, tris1, d, lo, hi),
        nodes1.len() <= nodes2.len(),
        tris1.len() == tris2.len(),
        nodes2[i] == nodes1[i],
        forall|j: int| lo <= j < hi ==> nodes2[j] == nodes1[j],
        forall|k: int|
            nodes1[i].triangle_index <= k < nodes1[i].triangle_index
                + nodes1[i].triangle_count ==> tris2[k] == tris1[k],
    ensures
        tree_wf(nodes2, i, tris2, d, lo, hi),
    decreases d,
{
    if !nodes1[i].is_leaf() {
        let c = nodes1[i].child_index as int;
        assert(tree_wf(nodes1, c, tris1, (d - 1) as nat, lo, hi));
        assert(tree_wf(nodes1, c + 1, tris1, (d - 1) as nat, lo, hi));
        assert(nodes1[c].triangle_count >= 1 && nodes1[c + 1].triangle_count >= 1);
        assert forall|k: int|
            nodes1[c].triangle_index <= k < nodes1[c].triangle_index
                + nodes1[c].triangle_count implies tris2[k] == tris1[k] by {
            assert(nodes1[i].triangle_index <= k < nodes1[i].triangle_index
                + nodes1[i].triangle_count);
        }
        assert forall|k: int|
            nodes1[c + 1].triangle_index <= k < nodes1[c + 1].triangle_index
                + nodes1[c + 1].triangle_count implies tris2[k] == tris1[k] by {
            assert(nodes1[i].triangle_index <= k < nodes1[i].triangle_index
                + nodes1[i].triangle_count);
        }
        lemma_tree_wf_frame(nodes1, nodes2, c, tris1, tris2, (d - 1) as nat, lo, hi);
        lemma_tree_wf_frame(nodes1, nodes2, c + 1, tris1, tris2, (d - 1) as nat, lo, hi);
    }
}

/// Widening the descendant interval preserves `tree_wf`.
pub proof fn lemma_tree_wf_widen(
    nodes: Seq<Node>,
    i: int,
    tris: Seq<Triangle>,
    d: nat,
    lo: int,
    hi: int,
    lo2: int,
    hi2: int,
)
    requires
        tree_wf(nodes, i, tris, d, lo, hi),
        0 <= lo2 <= lo,
        hi <= hi2 <= nodes.len(),
    ensures
        tree_wf(nodes, i, tris, d, lo2, hi2),
    decreases d,
{
    if !nodes[i].is_leaf() {
        let c = nodes[i].child_index as int;
        lemma_tree_wf_widen(nodes, c, tris, (d - 1) as nat, lo, hi, lo2, hi2);
        lemma_tree_wf_widen(nodes, c + 1, tris, (d - 1) as nat, lo, hi, lo2, hi2);
    }
}

/// Structural height of the subtree at `i`: 0 for a leaf, one more than the
/// taller child for an interior node.
pub open spec fn subtree_height(nodes: Seq<Node>, i: int) -> int
    decreases nodes.len() - i,
    when 0 <= i <= nodes.len()
{
    if 0 <= i < nodes.len() && !nodes[i].is_leaf() {
        let c = nodes[i].child_index as int;
        if i < c && c + 1 < nodes.len() {
            let ha = subtree_height(nodes, c);
            let hb = subtree_height(nodes, c + 1);
            1 + if ha > hb {
                ha
            } else {
                hb
            }
        } else {
            0
        }
    } else {
        0
    }
}

/// Depth bound: a well-formed subtree with height budget `d` has height at
/// most `d`, so no leaf sits deeper than `d` below its root.
pub proof fn lemma_depth_bound(
    nodes: Seq<Node>,
    i: int,
    tris: Seq<Triangle>,
    d: nat,
    lo: int,
    hi: int,
)
    requires
        tree_wf(nodes, i, tris, d, lo, hi),
    ensures
        0 <= subtree_height(nodes, i) <= d,
    decreases d,
{
    if !nodes[i].is_leaf() {
        let c = nodes[i].child_index as int;
        lemma_depth_bound(nodes, c, tris, (d - 1) as nat, lo, hi);
        lemma_depth_bound(nodes, c + 1, tris, (d - 1) as nat, lo, hi);
    }
}

/// Sum of `triangle_count` over the leaves of the subtree at `i`, down to
/// height budget `d`.
pub open spec fn leaf_count_sum(nodes: Seq<Node>, i: int, d: nat) -> int
    decreases d,
{
    if 0 <= i < nodes.len() {
        if nodes[i].is_leaf() {
            nodes[i].triangle_count as int
        } else if d == 0 {
            0
        } else {
            let c = nodes[i].child_index as int;
            leaf_count_sum(nodes, c, (d - 1) as nat) + leaf_count_sum(nodes, c + 1, (d - 1) as nat)
        }
    } else {
        0
    }
}

/// Count conservation: in a well-formed subtree the leaf counts sum to the
/// root's count, for any height budget and any input.
pub proof fn lemma_count_conservation(
    nodes: Seq<Node>,
    i: int,
    tris: Seq<Triangle>,
    d: nat,
    lo: int,
    hi: int,
)
    requires
        tree_wf(nodes, i, tris, d, lo, hi),
    ensures
        leaf_count_sum(nodes, i, d) == nodes[i].triangle_count,
    decreases d,
{
    if !nodes[i].is_leaf() {
        let c = nodes[i].child_index as int;
        lemma_count_conservation(nodes, c, tris, (d - 1) as nat, lo, hi);
        lemma_count_conservation(nodes, c + 1, tris, (d - 1) as nat, lo, hi);
    }
}

/// Number of leaves of the subtree at `i` (height budget `d`) whose
/// triangle range contains the slot `k`.
pub open spec fn leaf_hits(nodes: Seq<Node>, i: int, d: nat, k: int) -> int
    decreases d,
{
    if 0 <= i < nodes.len() {
        if nodes[i].is_leaf() {
            if nodes[i].triangle_index <= k < nodes[i].triangle_index + nodes[i].triangle_count {
                1
            } else {
                0
            }
        } else if d == 0 {
            0
        } else {
            let c = nodes[i].child_index as int;
            leaf_hits(nodes, c, (d - 1) as nat, k) + leaf_hits(nodes, c + 1, (d - 1) as nat, k)
        }
    } else {
        0
    }
}

/// Traversal coverage: a slot of the root's range lies in the range of
/// exactly one leaf; a slot outside lies in none. A traversal that visits
/// the leaf ranges therefore reaches every triangle of the tree exactly
/// once.
pub proof fn lemma_leaf_coverage(
    nodes: Seq<Node>,
    i: int,
    tris: Seq<Triangle>,
    d: nat,
    lo: int,
    hi: int,
    k: int,
)
    requires
        tree_wf(nodes, i, tris, d, lo, hi),
    ensures
        nodes[i].triangle_index <= k < nodes[i].triangle_index + nodes[i].triangle_count
            ==> leaf_hits(nodes, i, d, k) == 1,
        !(nodes[i].triangle_index <= k < nodes[i].triangle_index + nodes[i].triangle_count)
            ==> leaf_hits(nodes, i, d, k) == 0,
    decreases d,
{
    if !nodes[i].is_leaf() {
        let c = nodes[i].child_index as int;
        lemma_leaf_coverage(nodes, c, tris, (d - 1) as nat, lo, hi, k);
        lemma_leaf_coverage(nodes, c + 1, tris, (d - 1) as nat, lo, hi, k);
    }
}

/// Monotonic containment: in a well-formed subtree an interior node's box
/// contains both children's boxes, and every node's box contains all the
/// triangles of its range, vertices included.
pub proof fn lemma_monotonic_containment(
    nodes: Seq<Node>,
    i: int,
    tris: Seq<Triangle>,
    d: nat,
    lo: int,
    hi: int,
)
    requires
        tree_wf(nodes, i, tris, d, lo, hi),
        !nodes[i].is_leaf(),
    ensures
        nodes[i].bounds.contains_box(nodes[nodes[i].child_index as int].bounds),
        nodes[i].bounds.contains_box(nodes[nodes[i].child_index as int + 1].bounds),
        forall|k: int|
            nodes[i].triangle_index <= k < nodes[i].triangle_index + nodes[i].triangle_count
                ==> nodes[i].bounds.contains_triangle(#[trigger] tris[k]),
        forall|k: int|
            nodes[i].triangle_index <= k < nodes[i].triangle_index + nodes[i].triangle_count ==> {
                &&& nodes[i].bounds.contains_point((#[trigger] tris[k]).a)
                &&& nodes[i].bounds.contains_point(tris[k].b)
                &&& nodes[i].bounds.contains_point(tris[k].c)
            },
{
}

} // verus!
