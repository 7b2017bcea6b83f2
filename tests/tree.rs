use proptest::test_runner::{TestCaseError, TestRunner};
use rbtree::node::{Node, NodeColor};
use std::cmp::min;
use rbtree::tree::Tree;

fn leaf(key: i64) -> Option<Box<Node>> {
    Some(Box::new(Node::new(key)))
}

fn same_shape(a: &Option<Box<Node>>, b: &Option<Box<Node>>) -> bool {
    match (a, b) {
        (None, None) => true,
        (Some(x), Some(y)) => {
            x.key == y.key
                && x.color == y.color
                && same_shape(&x.left, &y.left)
                && same_shape(&x.right, &y.right)
        }
        _ => false,
    }
}

fn is_red(t: &Option<Box<Node>>) -> bool {
    matches!(t, Some(n) if n.color == NodeColor::Red)
}

fn check_red_node_property(t: &Option<Box<Node>>) -> bool {
    match t {
        None => true,
        Some(n) => {
            if n.color == NodeColor::Red && (is_red(&n.left) || is_red(&n.right)) {
                return false;
            }
            check_red_node_property(&n.left) && check_red_node_property(&n.right)
        }
    }
}

fn count_black_nodes(t: &Option<Box<Node>>) -> Vec<i32> {
    match t {
        None => vec![1],
        Some(n) => {
            let own = if n.color == NodeColor::Black { 1 } else { 0 };
            let mut counts = vec![];
            for c in count_black_nodes(&n.left).into_iter().chain(count_black_nodes(&n.right)) {
                counts.push(c + own);
            }
            counts
        }
    }
}

fn assert_red_black_tree_properties(tree: &Tree) {
    assert!(tree.root.is_some(), "properties are checked on non-empty trees only");
    assert_eq!(tree.root.as_ref().unwrap().color, NodeColor::Black);
    assert!(check_red_node_property(&tree.root));
    let counts = count_black_nodes(&tree.root);
    assert_eq!(counts.iter().min(), counts.iter().max());
}

fn height(t: &Option<Box<Node>>) -> u32 {
    match t {
        None => 0,
        Some(n) => 1 + height(&n.left).max(height(&n.right)),
    }
}

//               2
//             /   \
//            1      4
//                  /  \
//                 3    5
fn two_over_four() -> Tree {
    let mut y = Node::new(4);
    y.set_left_child(leaf(3));
    y.set_right_child(leaf(5));
    let mut x = Node::new(2);
    x.set_left_child(leaf(1));
    x.set_right_child(Some(Box::new(y)));
    Tree::new_from_node(x)
}

//                4
//               /  \
//              2    5
//            /  \
//           1     3
fn four_over_two() -> Tree {
    let mut x = Node::new(2);
    x.set_left_child(leaf(1));
    x.set_right_child(leaf(3));
    let mut y = Node::new(4);
    y.set_left_child(Some(Box::new(x)));
    y.set_right_child(leaf(5));
    Tree::new_from_node(y)
}

#[test]
fn test_rotate() {
    let mut t = two_over_four();
    println!("{:?}", t);
    println!("Root: {:?}", t.root.as_ref().unwrap().key);

    t.left_rotate();
    println!("{:?}", t);
    println!("Root: {:?}", t.root.as_ref().unwrap().key);
    assert_eq!(t.root.as_ref().unwrap().key, 4);

    t.right_rotate();
    println!("{:?}", t);
    println!("Root: {:?}", t.root.as_ref().unwrap().key);
    assert_eq!(t.root.as_ref().unwrap().key, 2);
    assert_eq!(t.keys_in_order(), vec![1, 2, 3, 4, 5]);
}

#[test]
fn test_insert() {
    let mut t = Tree::new(2);
    println!("{:?}", t);
    t.insert(1);
    println!("{:?}", t);
    t.insert(4);
    println!("{:?}", t);
    t.insert(3);
    println!("{:?}", t);
    t.insert(5);
    println!("{:?}", t);
    assert_eq!(t.keys_in_order(), vec![1, 2, 3, 4, 5]);
    assert_red_black_tree_properties(&t);
}

#[test]
fn test_left_rotate() {
    let mut actual_tree = two_over_four();
    let expected_tree = four_over_two();
    actual_tree.left_rotate();
    assert!(same_shape(&actual_tree.root, &expected_tree.root));
}

#[test]
fn test_right_rotate() {
    let mut actual_tree = four_over_two();
    let expected_tree = two_over_four();
    actual_tree.right_rotate();
    assert!(same_shape(&actual_tree.root, &expected_tree.root));
}

#[test]
fn test_insert_maintains_properties() {
    let mut tree = Tree::new(10);
    assert_red_black_tree_properties(&tree);
    for k in [5, 15, 2, 7, 12, 17] {
        tree.insert(k);
        assert_red_black_tree_properties(&tree);
    }
}

#[test]
fn test_delete_maintains_properties() {
    let mut tree = Tree::new(10);
    tree.delete(10);
    assert!(tree.root.is_none());

    tree.insert(5);
    tree.insert(15);
    tree.insert(2);
    tree.insert(7);
    tree.insert(12);
    tree.insert(17);

    tree.delete(17);
    assert_red_black_tree_properties(&tree);
    tree.delete(7);
    assert_red_black_tree_properties(&tree);
    tree.delete(2);
    assert_red_black_tree_properties(&tree);
}

#[test]
fn scenario_insert_shape() {
    let mut t = Tree::empty();
    for k in [10, 5, 15, 2, 7, 12, 17] {
        t.insert(k);
    }
    let root = t.root.as_ref().unwrap();
    assert_eq!((root.key, root.color), (10, NodeColor::Black));
    let five = root.left.as_ref().unwrap();
    let fifteen = root.right.as_ref().unwrap();
    assert_eq!((five.key, five.color), (5, NodeColor::Black));
    assert_eq!((fifteen.key, fifteen.color), (15, NodeColor::Black));
    for (child, key) in [
        (&five.left, 2),
        (&five.right, 7),
        (&fifteen.left, 12),
        (&fifteen.right, 17),
    ] {
        let c = child.as_ref().unwrap();
        assert_eq!((c.key, c.color), (key, NodeColor::Red));
        assert!(c.left.is_none() && c.right.is_none());
    }
}

#[test]
fn scenario_empty_tree() {
    let mut t = Tree::empty();
    t.delete(3);
    assert!(t.root.is_none());
    assert_eq!(t.minimum(), None);
    assert_eq!(t.maximum(), None);
    for k in [i64::MIN, -1, 0, 1, 42, i64::MAX] {
        assert!(!t.search(k));
    }
    assert_eq!(t.successor(0), None);
    assert_eq!(t.predecessor(0), None);
}

#[test]
fn scenario_insert_then_delete() {
    let mut t = Tree::empty();
    for k in [10, 5, 15, 2, 7, 12, 17] {
        t.insert(k);
    }
    t.delete(17);
    assert_red_black_tree_properties(&t);
    assert_eq!(t.keys_in_order(), vec![2, 5, 7, 10, 12, 15]);
    t.delete(7);
    assert_red_black_tree_properties(&t);
    assert_eq!(t.keys_in_order(), vec![2, 5, 10, 12, 15]);
    t.delete(2);
    assert_red_black_tree_properties(&t);
    assert_eq!(t.keys_in_order(), vec![5, 10, 12, 15]);
}

/// A small deterministic generator, so that the larger tests need no outside crate.
fn next(state: &mut u64) -> u64 {
    *state ^= *state << 13;
    *state ^= *state >> 7;
    *state ^= *state << 17;
    *state
}

#[test]
fn minimum_of_three_in_every_order() {
    let orders = [[1, 2, 3], [1, 3, 2], [2, 1, 3], [2, 3, 1], [3, 1, 2], [3, 2, 1]];
    for (a, b, c) in [(7, 3, 9), (0, 4294967294, 12), (5, 5, 1)] {
        let vals = [a, b, c];
        for order in orders {
            let mut t = Tree::empty();
            for i in order {
                t.insert(vals[i - 1]);
            }
            assert_eq!(t.minimum(), Some(a.min(b).min(c)));
            assert_eq!(t.maximum(), Some(a.max(b).max(c)));
        }
    }
}

#[test]
fn test_minimum_empirical() {
    let mut runner = TestRunner::default();
    let keys = (0u32..u32::MAX, 0u32..u32::MAX, 0u32..u32::MAX);
    let result = runner.run(&keys, |(a, b, c)| {
        let mut tree = Tree::empty();
        tree.insert(a as i64);
        tree.insert(b as i64);
        tree.insert(c as i64);
        let actual_min = tree.minimum();
        let expected_min = min(min(a, b), c) as i64;
        if actual_min != Some(expected_min) {
            return Err(TestCaseError::fail(format!(
                "Actual_min={:?}, expected_min={}",
                actual_min, expected_min
            )));
        }
        Ok(())
    });
    assert!(result.is_ok(), "{:?}", result);
}

#[test]
fn random_operations_keep_invariants_order_and_search() {
    let mut s: u64 = 12345;
    let mut t = Tree::empty();
    let mut model: Vec<i64> = vec![];
    for _ in 0..2000 {
        let k = (next(&mut s) % 200) as i64 - 100;
        if next(&mut s) % 3 == 0 {
            t.delete(k);
            if let Some(p) = model.iter().position(|&x| x == k) {
                model.remove(p);
            }
        } else {
            t.insert(k);
            model.push(k);
        }
        model.sort();
        assert_eq!(t.keys_in_order(), model);
        if !model.is_empty() {
            assert_red_black_tree_properties(&t);
        }
        assert_eq!(t.search(k), model.contains(&k));
    }
    for k in -100..100 {
        assert_eq!(t.search(k), model.contains(&k));
    }
}

#[test]
fn insert_then_delete_restores_keys() {
    let mut t = Tree::empty();
    for k in [8, 3, 10, 1, 6, 14, 4, 7, 13] {
        t.insert(k);
    }
    let before = t.keys_in_order();
    for k in [5, 8, 0, 20, 6] {
        t.insert(k);
        t.delete(k);
        assert_eq!(t.keys_in_order(), before);
        assert_red_black_tree_properties(&t);
    }
}

#[test]
fn height_stays_logarithmic() {
    let mut t = Tree::empty();
    for n in 1..=1023i64 {
        t.insert(n);
        let h = height(&t.root) as f64;
        assert!(h <= 2.0 * ((n + 1) as f64).log2());
    }
    assert!(height(&t.root) <= 20);
}

#[test]
fn equal_keys_are_kept() {
    let mut t = Tree::new(4);
    t.insert(4);
    t.insert(4);
    assert_eq!(t.keys_in_order(), vec![4, 4, 4]);
    t.delete(4);
    assert_eq!(t.keys_in_order(), vec![4, 4]);
    assert!(t.search(4));
    t.delete(4);
    t.delete(4);
    assert!(!t.search(4));
    assert!(t.root.is_none());
}

#[test]
fn successor_and_predecessor() {
    let mut t = Tree::empty();
    for k in [20, 10, 30, 5, 15, 25, 35] {
        t.insert(k);
    }
    assert_eq!(t.successor(15), Some(20));
    assert_eq!(t.successor(5), Some(10));
    assert_eq!(t.successor(35), None);
    assert_eq!(t.successor(16), None);
    assert_eq!(t.predecessor(25), Some(20));
    assert_eq!(t.predecessor(20), Some(15));
    assert_eq!(t.predecessor(5), None);
    assert_eq!(t.predecessor(21), None);
}

#[test]
fn extreme_keys() {
    let mut t = Tree::new(i64::MAX);
    t.insert(i64::MIN);
    t.insert(0);
    assert_eq!(t.minimum(), Some(i64::MIN));
    assert_eq!(t.maximum(), Some(i64::MAX));
    assert_eq!(t.successor(i64::MIN), Some(0));
    assert_eq!(t.predecessor(i64::MAX), Some(0));
}
