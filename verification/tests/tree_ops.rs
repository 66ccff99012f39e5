use bst::tree::Tree;

/// Builds the tree that inserting 17, 8, 3, 27, 22, 55, 83 in that order
/// produces: 17 at the root, 8 above 3 on the left, 27 above 22 and 55 on
/// the right, 83 to the right of 55.
fn setup_a_tree() -> Tree<i32> {
    let mut t = Tree::new();
    t.insert(17);
    t.insert(8);
    t.insert(3);
    t.insert(27);
    t.insert(22);
    t.insert(55);
    t.insert(83);
    t
}

#[test]
fn should_build_some_simple_trees() {
    let mut empty_tree = Tree::<i32>::new();
    println!("{:#?}", empty_tree);
    assert!(empty_tree.pop_min().is_none());

    let mut twelve_as_root = Tree::leaf(12);
    println!("{:#?}", twelve_as_root);
    assert_eq!(twelve_as_root.pop_min(), Some(12));

    let mut simple_tree = Tree::new();
    simple_tree.insert(12);
    simple_tree.insert(8);
    simple_tree.insert(27);
    println!("{:#?}", simple_tree);
    assert_eq!(simple_tree.pop_min(), Some(8));
    assert_eq!(simple_tree.pop_min(), Some(12));
    assert_eq!(simple_tree.pop_min(), Some(27));
}

#[test]
fn should_build_an_empty_tree() {
    let mut empty_tree = Tree::<i32>::new();
    assert!(empty_tree.pop_min().is_none());
}

#[test]
fn should_build_a_single_node() {
    let mut twelve_as_root = Tree::leaf(12);
    assert_eq!(twelve_as_root.pop_min(), Some(12));
}

#[test]
fn should_contains_a_value() {
    let t = setup_a_tree();
    assert!(t.contains(3));
    assert!(t.contains(55));
    assert!(!t.contains(120));
}

#[test]
fn should_insert_a_new_node() {
    let mut t = setup_a_tree();
    assert!(!t.contains(33));
    t.insert(33);
    assert!(t.contains(33));
}

#[test]
fn should_delete_a_node() {
    let mut t = setup_a_tree();
    assert!(t.contains(55));
    t.delete(55);
    assert!(!t.contains(55));
}
