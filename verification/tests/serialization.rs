use bvh_builder::builder::BVH;
use bvh_builder::codec::{
    deserialize_nodes, deserialize_triangles, serialize_nodes, serialize_triangles,
};
use bvh_builder::node::Node;
use bvh_builder::triangle::Triangle;
use bvh_builder::vector::Vector;

fn v(x: i32, y: i32, z: i32) -> Vector {
    Vector::new(x, y, z)
}

fn tri_at(cx: i32) -> Triangle {
    Triangle::new(v(cx - 1, -1, 0), v(cx + 1, 1, 0), v(cx, 0, 0))
}

fn build(tris: &mut Vec<Triangle>, max_depth: i32) -> Vec<Node> {
    let mut nodes: Vec<Node> = Vec::new();
    BVH(&mut nodes, tris, max_depth);
    nodes
}

#[test]
fn triangle_bytes_are_little_endian_two_complement() {
    let tris = vec![Triangle::new(v(1, 0, 0), v(-1, 0, 0), v(0, 258, 0))];
    let bytes = serialize_triangles(&tris);
    assert_eq!(bytes.len(), 36);
    // a.x == 1
    assert_eq!(&bytes[0..4], &[1, 0, 0, 0]);
    // a.y == a.z == 0
    assert_eq!(&bytes[4..12], &[0, 0, 0, 0, 0, 0, 0, 0]);
    // b.x == -1
    assert_eq!(&bytes[12..16], &[255, 255, 255, 255]);
    // c.y == 258 == 2 + 256
    assert_eq!(&bytes[28..32], &[2, 1, 0, 0]);
}

#[test]
fn node_record_field_order() {
    let mut b = bvh_builder::bounding_box::BoundingBox::new();
    b.grow_to_include_vector(v(1, 2, 3));
    b.grow_to_include_vector(v(4, 5, 6));
    let mut n = Node::new(b, 7, 8);
    n.child_index = 9;
    let bytes = serialize_nodes(&vec![n]);
    assert_eq!(bytes.len(), 36);
    let mut expect: Vec<u8> = Vec::new();
    for field in [1, 2, 3, 4, 5, 6, 7, 8, 9] {
        expect.extend_from_slice(&(field as i32).to_le_bytes());
    }
    assert_eq!(bytes, expect);
}

#[test]
fn round_trip_nodes_and_triangles() {
    let mut tris = vec![tri_at(-1000), tri_at(-500), tri_at(500), tri_at(1000)];
    let nodes = build(&mut tris, 3);

    let node_bytes = serialize_nodes(&nodes);
    let tri_bytes = serialize_triangles(&tris);
    assert_eq!(node_bytes.len(), 36 * nodes.len());
    assert_eq!(tri_bytes.len(), 36 * tris.len());

    let nodes2 = deserialize_nodes(&node_bytes).unwrap();
    let tris2 = deserialize_triangles(&tri_bytes).unwrap();
    assert_eq!(nodes2, nodes);
    assert_eq!(tris2, tris);
}

#[test]
fn malformed_length_is_rejected_whole() {
    let bad = vec![0u8; 35];
    assert!(deserialize_nodes(&bad).is_none());
    assert!(deserialize_triangles(&bad).is_none());
    let bad2 = vec![0u8; 37];
    assert!(deserialize_nodes(&bad2).is_none());
    let empty: Vec<u8> = Vec::new();
    assert_eq!(deserialize_nodes(&empty).unwrap(), Vec::<Node>::new());
    assert_eq!(deserialize_triangles(&empty).unwrap(), Vec::<Triangle>::new());
}

#[test]
fn replaying_the_emitted_tree_reaches_every_triangle_once() {
    let mut tris = vec![
        tri_at(-9000),
        tri_at(-5000),
        tri_at(-200),
        tri_at(100),
        tri_at(2500),
        tri_at(2600),
        tri_at(8000),
    ];
    let nodes = build(&mut tris, 4);

    // emit both streams, read them back, and replay traversal using only
    // child_index / triangle_index / triangle_count
    let nodes2 = deserialize_nodes(&serialize_nodes(&nodes)).unwrap();
    let tris2 = deserialize_triangles(&serialize_triangles(&tris)).unwrap();

    let mut visits = vec![0u32; tris2.len()];
    let mut stack: Vec<usize> = vec![0];
    while let Some(i) = stack.pop() {
        let n = nodes2[i];
        if n.child_index == 0 {
            for k in n.triangle_index..n.triangle_index + n.triangle_count {
                visits[k as usize] += 1;
            }
        } else {
            stack.push(n.child_index as usize);
            stack.push(n.child_index as usize + 1);
        }
    }
    assert!(visits.iter().all(|&c| c == 1));
    // and the reordered triangle array is a permutation of the input
    let mut input_centers: Vec<i32> = vec![-9000, -5000, -200, 100, 2500, 2600, 8000];
    let mut reordered: Vec<i32> = tris2.iter().map(|t| t.center.x).collect();
    input_centers.sort();
    reordered.sort();
    assert_eq!(input_centers, reordered);
}
