use raytracing_rs::bvh::{build, sort_span_by_axis, BoxKey, BvhTree};

fn key(x: u64, y: u64, z: u64) -> BoxKey {
    BoxKey { x, y, z }
}

// A key whose minima agree on every axis, so the tree shape does not depend
// on which axis the builder happens to draw.
fn flat_key(v: u64) -> BoxKey {
    key(v, v, v)
}

fn collect_leaves(t: &BvhTree, out: &mut Vec<usize>) {
    match t {
        BvhTree::Leaf(i) => out.push(*i),
        BvhTree::Node { left, right } => {
            collect_leaves(left, out);
            collect_leaves(right, out);
        }
    }
}

fn leaf_set(t: &BvhTree) -> Vec<usize> {
    let mut v = Vec::new();
    collect_leaves(t, &mut v);
    v.sort();
    v.dedup();
    v
}

#[test]
fn axis_selection_matches_box_order() {
    let k = key(10, 20, 30);
    assert_eq!(k.axis(0), 10);
    assert_eq!(k.axis(1), 20);
    assert_eq!(k.axis(2), 30);
    // anything else falls back to x, as the box's axis accessor does
    assert_eq!(k.axis(7), 10);
}

#[test]
fn single_primitive_fills_both_children() {
    let keys = vec![flat_key(5)];
    let objects = vec![0usize];
    let t = build(&objects, &keys, 0, 1);
    assert_eq!(
        t,
        BvhTree::Node {
            left: Box::new(BvhTree::Leaf(0)),
            right: Box::new(BvhTree::Leaf(0)),
        }
    );
}

#[test]
fn pair_is_ordered_by_key() {
    let keys = vec![flat_key(9), flat_key(2)];
    let objects = vec![0usize, 1];
    let t = build(&objects, &keys, 0, 2);
    assert_eq!(
        t,
        BvhTree::Node {
            left: Box::new(BvhTree::Leaf(1)),
            right: Box::new(BvhTree::Leaf(0)),
        }
    );
}

#[test]
fn three_primitives_sort_then_split() {
    // keys 3, 1, 2 sort to the index order 1, 2, 0; the split then puts
    // index 1 alone on the left and the ordered pair (2, 0) on the right
    let keys = vec![flat_key(3), flat_key(1), flat_key(2)];
    let objects = vec![0usize, 1, 2];
    let t = build(&objects, &keys, 0, 3);
    assert_eq!(
        t,
        BvhTree::Node {
            left: Box::new(BvhTree::Node {
                left: Box::new(BvhTree::Leaf(1)),
                right: Box::new(BvhTree::Leaf(1)),
            }),
            right: Box::new(BvhTree::Node {
                left: Box::new(BvhTree::Leaf(2)),
                right: Box::new(BvhTree::Leaf(0)),
            }),
        }
    );
}

#[test]
fn five_primitives_split_at_the_midpoint() {
    // with all keys equal the comparison never orders a pair, so the shape
    // and the leaf placement are fully determined: a pair with equal keys
    // comes out swapped, and a span of five splits two-three
    let keys = vec![flat_key(1); 5];
    let objects: Vec<usize> = (0..5).collect();
    let t = build(&objects, &keys, 0, 5);
    assert_eq!(
        t,
        BvhTree::Node {
            left: Box::new(BvhTree::Node {
                left: Box::new(BvhTree::Leaf(1)),
                right: Box::new(BvhTree::Leaf(0)),
            }),
            right: Box::new(BvhTree::Node {
                left: Box::new(BvhTree::Node {
                    left: Box::new(BvhTree::Leaf(2)),
                    right: Box::new(BvhTree::Leaf(2)),
                }),
                right: Box::new(BvhTree::Node {
                    left: Box::new(BvhTree::Leaf(4)),
                    right: Box::new(BvhTree::Leaf(3)),
                }),
            }),
        }
    );
}

#[test]
fn leaves_cover_the_whole_span() {
    let keys: Vec<BoxKey> = (0..9u64).map(|v| flat_key((v * 37) % 11)).collect();
    let objects: Vec<usize> = (0..9).collect();
    let t = build(&objects, &keys, 0, 9);
    assert_eq!(leaf_set(&t), (0..9).collect::<Vec<usize>>());
}

#[test]
fn leaves_cover_a_partial_span() {
    let keys: Vec<BoxKey> = (0..6u64).map(flat_key).collect();
    let objects = vec![5usize, 4, 3, 2, 1, 0];
    let t = build(&objects, &keys, 2, 5);
    assert_eq!(leaf_set(&t), vec![1, 2, 3]);
}

#[test]
fn sort_orders_span_and_leaves_rest() {
    let keys = vec![
        key(50, 0, 900),
        key(40, 1, 800),
        key(30, 2, 700),
        key(20, 3, 600),
        key(10, 4, 500),
    ];
    let mut objects = vec![0usize, 1, 2, 3, 4];
    // sort indices 1..4 by the x key: keys 40, 30, 20 reverse to 3, 2, 1
    sort_span_by_axis(&mut objects, 1, 4, &keys, 0);
    assert_eq!(objects, vec![0, 3, 2, 1, 4]);
    // axis 1 is y, on which the same span is already in order
    let mut by_y = vec![0usize, 1, 2, 3, 4];
    sort_span_by_axis(&mut by_y, 1, 4, &keys, 1);
    assert_eq!(by_y, vec![0, 1, 2, 3, 4]);
    // axis 2 is z: descending again
    let mut by_z = vec![0usize, 1, 2, 3, 4];
    sort_span_by_axis(&mut by_z, 0, 5, &keys, 2);
    assert_eq!(by_z, vec![4, 3, 2, 1, 0]);
}

#[test]
fn sort_keeps_duplicate_indices() {
    let keys = vec![key(2, 2, 2), key(1, 1, 1)];
    let mut objects = vec![0usize, 0, 1, 1, 0];
    sort_span_by_axis(&mut objects, 0, 5, &keys, 0);
    assert_eq!(objects, vec![1, 1, 0, 0, 0]);
}
