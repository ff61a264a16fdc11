use bvh_builder::builder::{choose_split, evaluate_split, node_cost, split, BVH};
use bvh_builder::vector::COORD_LIMIT;
use bvh_builder::bounding_box::BoundingBox;
use bvh_builder::node::Node;
use bvh_builder::triangle::Triangle;
use bvh_builder::vector::Vector;

fn v(x: i32, y: i32, z: i32) -> Vector {
    Vector::new(x, y, z)
}

/// A unit-sized triangle whose centroid is exactly (cx, 0, 0).
fn tri_at(cx: i32) -> Triangle {
    Triangle::new(v(cx - 1, -1, 0), v(cx + 1, 1, 0), v(cx, 0, 0))
}

/// Root box over the triangles, as the builder computes it.
fn root_box(tris: &Vec<Triangle>) -> BoundingBox {
    let mut b = BoundingBox::new();
    for i in 0..tris.len() {
        b.grow_to_include(tris[i]);
    }
    b
}

/// Walks the tree from the root; returns (sum of leaf counts, max leaf depth).
fn walk(nodes: &Vec<Node>) -> (i64, i32) {
    let mut total: i64 = 0;
    let mut deepest: i32 = 0;
    let mut stack: Vec<(usize, i32)> = vec![(0, 0)];
    while let Some((i, depth)) = stack.pop() {
        let n = nodes[i];
        if n.child_index == 0 {
            total += n.triangle_count as i64;
            if depth > deepest {
                deepest = depth;
            }
        } else {
            stack.push((n.child_index as usize, depth + 1));
            stack.push((n.child_index as usize + 1, depth + 1));
        }
    }
    (total, deepest)
}

#[test]
fn node_cost_exact_value() {
    // half area of a 2 x 3 x 4 box: 2*(3+4) + 3*4 = 26; times 5 triangles
    assert_eq!(node_cost(v(2, 3, 4), 5), 130);
    assert_eq!(node_cost(v(0, 0, 0), 7), 0);
    assert_eq!(node_cost(v(1, 1, 1), 0), 0);
}

#[test]
fn evaluate_split_exact_value() {
    let tris = vec![tri_at(-1000), tri_at(-500), tri_at(500), tri_at(1000)];
    let node = Node::new(root_box(&tris), 0, 4);
    // split at x = 0: each side is a 502 x 2 x 0 box with 2 triangles:
    // (502*2 + 0) * 2 = 2008 per side
    assert_eq!(evaluate_split(node, 0, 0, &tris), 4016);
    // split left of everything: one empty side (cost 0), the other the
    // whole 2002 x 2 x 0 box with all 4 triangles
    assert_eq!(evaluate_split(node, 0, -2000, &tris), (2002 * 2) * 4);
}

#[test]
fn choose_split_picks_cheapest_earliest() {
    let tris = vec![tri_at(-1000), tri_at(-500), tri_at(500), tri_at(1000)];
    let node = Node::new(root_box(&tris), 0, 4);
    let (axis, pos, cost) = choose_split(node, &tris);
    // candidates on x sit at -1001 + 182*k; the first that separates the
    // two pairs is k = 3, at -455
    assert_eq!(axis, 0);
    assert_eq!(pos, -455);
    assert_eq!(cost, 4016);
}

#[test]
fn four_clusters_one_level() {
    // centroids at x = -1000, -500, 500, 1000, all on y = z = 0
    let mut tris = vec![tri_at(-1000), tri_at(-500), tri_at(500), tri_at(1000)];
    let mut nodes: Vec<Node> = Vec::new();
    BVH(&mut nodes, &mut tris, 1);

    assert_eq!(nodes.len(), 3);
    let root = nodes[0];
    assert_eq!(root.bounds.min, v(-1001, -1, 0));
    assert_eq!(root.bounds.max, v(1001, 1, 0));
    assert_eq!(root.child_index, 1);
    assert_eq!(root.triangle_count, 4);

    let a = nodes[1];
    let b = nodes[2];
    assert_eq!(a.triangle_count, 2);
    assert_eq!(b.triangle_count, 2);
    assert_eq!(a.triangle_index, 0);
    assert_eq!(b.triangle_index, 2);
    assert_eq!(a.child_index, 0);
    assert_eq!(b.child_index, 0);
    // the children's boxes do not overlap on x
    assert!(a.bounds.max.x < b.bounds.min.x);
    // side A holds the two left clusters, side B the two right ones
    let mut left: Vec<i32> = vec![tris[0].center.x, tris[1].center.x];
    left.sort();
    assert_eq!(left, vec![-1000, -500]);
    let mut right: Vec<i32> = vec![tris[2].center.x, tris[3].center.x];
    right.sort();
    assert_eq!(right, vec![500, 1000]);
}

#[test]
fn single_triangle_stays_one_leaf() {
    // degenerate input: one triangle, generous depth budget
    let mut tris = vec![tri_at(0)];
    let mut nodes: Vec<Node> = Vec::new();
    BVH(&mut nodes, &mut tris, 5);
    assert_eq!(nodes.len(), 1);
    assert_eq!(nodes[0].triangle_count, 1);
    assert_eq!(nodes[0].child_index, 0);
}

#[test]
fn coincident_triangles_never_split() {
    // all centroids coincide: no candidate separates them, and no split
    // beats the unsplit cost, so the root stays a leaf
    let mut tris = vec![tri_at(7), tri_at(7), tri_at(7)];
    let mut nodes: Vec<Node> = Vec::new();
    BVH(&mut nodes, &mut tris, 8);
    assert_eq!(nodes.len(), 1);
    assert_eq!(nodes[0].triangle_count, 3);
    assert_eq!(nodes[0].child_index, 0);
}

#[test]
fn empty_input_builds_single_empty_leaf() {
    let mut tris: Vec<Triangle> = Vec::new();
    let mut nodes: Vec<Node> = Vec::new();
    BVH(&mut nodes, &mut tris, 4);
    assert_eq!(nodes.len(), 1);
    assert_eq!(nodes[0].triangle_count, 0);
    assert_eq!(nodes[0].child_index, 0);
    assert_eq!(nodes[0].bounds.min, v(i32::MAX, i32::MAX, i32::MAX));
    assert_eq!(nodes[0].bounds.max, v(i32::MIN, i32::MIN, i32::MIN));
}

#[test]
fn count_conservation_and_depth_bound() {
    let mut tris = vec![
        tri_at(-9000),
        tri_at(-5000),
        tri_at(-200),
        tri_at(100),
        tri_at(2500),
        tri_at(2600),
        tri_at(8000),
    ];
    let mut nodes: Vec<Node> = Vec::new();
    let max_depth = 3;
    BVH(&mut nodes, &mut tris, max_depth);
    let (total, deepest) = walk(&nodes);
    assert_eq!(total, 7);
    assert!(deepest <= max_depth);
    assert_eq!(tris.len(), 7);
}

#[test]
fn containment_holds_on_every_interior_node() {
    let mut tris = vec![
        tri_at(-9000),
        tri_at(-5000),
        tri_at(-200),
        tri_at(100),
        tri_at(2500),
        tri_at(2600),
        tri_at(8000),
    ];
    let mut nodes: Vec<Node> = Vec::new();
    BVH(&mut nodes, &mut tris, 6);
    for i in 0..nodes.len() {
        let n = nodes[i];
        if n.child_index != 0 {
            for c in [n.child_index as usize, n.child_index as usize + 1] {
                let inner = nodes[c].bounds;
                assert!(n.bounds.min.x <= inner.min.x && inner.max.x <= n.bounds.max.x);
                assert!(n.bounds.min.y <= inner.min.y && inner.max.y <= n.bounds.max.y);
                assert!(n.bounds.min.z <= inner.min.z && inner.max.z <= n.bounds.max.z);
            }
        }
        // every node's box contains the triangles of its range
        for k in n.triangle_index..n.triangle_index + n.triangle_count {
            let t = tris[k as usize];
            assert!(n.bounds.min.x <= t.min.x && t.max.x <= n.bounds.max.x);
            assert!(n.bounds.min.y <= t.min.y && t.max.y <= n.bounds.max.y);
            assert!(n.bounds.min.z <= t.min.z && t.max.z <= n.bounds.max.z);
        }
    }
}

#[test]
fn zero_depth_budget_keeps_everything_in_the_root() {
    let mut tris = vec![tri_at(-1000), tri_at(-500), tri_at(500), tri_at(1000)];
    let mut nodes: Vec<Node> = Vec::new();
    BVH(&mut nodes, &mut tris, 0);
    assert_eq!(nodes.len(), 1);
    assert_eq!(nodes[0].triangle_count, 4);
    assert_eq!(nodes[0].child_index, 0);
}

#[test]
fn coordinates_at_the_limit_build_and_split() {
    let l = COORD_LIMIT;
    // two maximally separated unit triangles: a split must separate them
    let mut tris = vec![
        Triangle::new(v(-l, -l, -l), v(-l + 1, -l + 1, -l), v(-l, -l, -l + 1)),
        Triangle::new(v(l, l, l), v(l - 1, l - 1, l), v(l, l, l - 1)),
    ];
    let mut nodes: Vec<Node> = Vec::new();
    BVH(&mut nodes, &mut tris, 4);
    assert_eq!(nodes.len(), 3);
    assert_eq!(nodes[0].bounds.min, v(-l, -l, -l));
    assert_eq!(nodes[0].bounds.max, v(l, l, l));
    assert_eq!(nodes[1].triangle_count, 1);
    assert_eq!(nodes[2].triangle_count, 1);
    let (total, deepest) = walk(&nodes);
    assert_eq!(total, 2);
    assert_eq!(deepest, 1);
}

#[test]
fn split_at_depth_limit_is_a_no_op() {
    let mut tris = vec![tri_at(-1000), tri_at(1000)];
    let mut nodes = vec![Node::new(root_box(&tris), 0, 2)];
    split(0, 3, &mut nodes, &mut tris, 3);
    assert_eq!(nodes.len(), 1);
    assert_eq!(nodes[0].child_index, 0);
}
