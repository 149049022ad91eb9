use allocator::implicit_rb_tree::{
    create_tree_node, Color, Direction, ImplicitRbTree, ImplicitRbTreeNode, ImplicitRbTreeNodeRef,
};
use allocator::memory::Memory;

const A: usize = 0x1000;
const B: usize = 0x2000;
const C: usize = 0x3000;
const D: usize = 0x4000;

fn node(mem: &Memory, at: usize) -> ImplicitRbTreeNode {
    ImplicitRbTreeNode::read(mem, at)
}

fn four_node_tree(mem: &mut Memory) -> ImplicitRbTree {
    let mut t = ImplicitRbTree::new();
    t.insert(mem, 10, A);
    t.insert(mem, 20, B);
    t.insert(mem, 5, C);
    t.insert(mem, 30, D);
    t
}

#[test]
fn first_insert_makes_black_root() {
    let mut mem = Memory::new();
    let mut t = ImplicitRbTree::new();
    assert!(t.root_ref().is_none());
    t.insert(&mut mem, 10, A);
    assert_eq!(t.root_ref().unwrap().address(), A);
    let r = node(&mem, A);
    assert_eq!(r.key, 10);
    assert_eq!(r.get_color(), Color::Black);
    assert!(r.parent_ptr().is_none());
    assert!(!r.has_children());
}

#[test]
fn inserts_link_red_leaves_and_recolor() {
    let mut mem = Memory::new();
    let t = four_node_tree(&mut mem);
    assert_eq!(t.root_ref().unwrap().address(), A);
    let a = node(&mem, A);
    assert_eq!((a.left, a.right), (C, B));
    // the red uncle case: parent and uncle black, grandparent red, then the root black again
    assert!(a.is_black());
    assert!(node(&mem, B).is_black());
    assert!(node(&mem, C).is_black());
    let d = node(&mem, D);
    assert!(d.is_red());
    assert_eq!(d.parent_ptr().unwrap().address(), B);
    assert_eq!(node(&mem, B).right, D);
    assert_eq!(node(&mem, B).sibling(&mem, B).unwrap().address(), C);
    assert_eq!(a.child_dir(B), Direction::Right);
    assert_eq!(a.child_dir(C), Direction::Left);
}

#[test]
fn find_approx_ge_answers() {
    let mut mem = Memory::new();
    let t = four_node_tree(&mut mem);
    assert_eq!(t.find_approx_ge(&mem, 10).unwrap().address(), A);
    assert!(t.find_approx_ge(&mem, 5).is_none());
    // a larger key than the root's: the root answers, as its left child's key is smaller
    assert_eq!(t.find_approx_ge(&mem, 15).unwrap().address(), A);
    assert!(ImplicitRbTree::new().find_approx_ge(&mem, 1).is_none());
}

#[test]
fn remove_of_a_deep_leaf_replaces_its_grandparents_link() {
    let mut mem = Memory::new();
    let mut t = four_node_tree(&mut mem);
    let removed = t.remove(&mut mem, 30).unwrap();
    assert_eq!(removed.address(), D);
    // the leaf's parent's link in the root is replaced by the leaf's (empty) right side
    assert_eq!(node(&mem, A).right, 0);
    assert_eq!(t.root_ref().unwrap().address(), A);
}

#[test]
fn remove_of_lone_root_empties_tree() {
    let mut mem = Memory::new();
    let mut t = ImplicitRbTree::new();
    t.insert(&mut mem, 7, A);
    assert_eq!(t.remove(&mut mem, 99).unwrap().address(), A);
    assert!(t.root_ref().is_none());
}

#[test]
fn rotate_right_then_left_restores() {
    let w = std::mem::size_of::<usize>();
    let mut mem = Memory::new();
    // p at A with left child x at B (red); x has right child r at C (red)
    create_tree_node(&mut mem, 50, A, Color::Red, None);
    create_tree_node(&mut mem, 30, B, Color::Red, Some(ImplicitRbTreeNodeRef::new(A)));
    create_tree_node(&mut mem, 40, C, Color::Red, Some(ImplicitRbTreeNodeRef::new(B)));
    mem.write(A + 2 * w, B);
    mem.write(B + 3 * w, C);
    let before: Vec<usize> = [A, B, C].iter().flat_map(|&n| (0..4).map(move |i| n + i * w)).map(|a| mem.read(a)).collect();
    ImplicitRbTreeNode::rotate_right(&mut mem, B);
    // x is on top with p as its right child, and r moved under p
    assert_eq!(node(&mem, B).right, A);
    assert_eq!(node(&mem, A).left, C);
    assert_eq!(node(&mem, A).parent, B);
    assert_eq!(node(&mem, C).parent, A);
    assert_eq!(node(&mem, B).parent, 0);
    ImplicitRbTreeNode::rotate_left(&mut mem, A);
    let after: Vec<usize> = [A, B, C].iter().flat_map(|&n| (0..4).map(move |i| n + i * w)).map(|a| mem.read(a)).collect();
    assert_eq!(before, after);
}

#[test]
fn colors_and_directions() {
    let mut n = ImplicitRbTreeNode::new_black(ImplicitRbTreeNodeRef::new(A), 3);
    assert!(n.is_black());
    assert_eq!(n.parent_ptr().unwrap().address(), A);
    n.set_color(Color::Red);
    assert!(n.is_red());
    assert_eq!(n.parent, A);
    let r = ImplicitRbTreeNode::new_red(ImplicitRbTreeNodeRef::new(B), 4);
    assert_eq!(r.get_color(), Color::Red);
    assert_eq!(Direction::Left.rev(), Direction::Right);
    assert_eq!(
        ImplicitRbTreeNode::map_rotations(Direction::Left, Direction::Left),
        (Direction::Right, None)
    );
    assert_eq!(
        ImplicitRbTreeNode::map_rotations(Direction::Left, Direction::Right),
        (Direction::Left, Some(Direction::Right))
    );
    let w = std::mem::size_of::<usize>();
    assert_eq!(ImplicitRbTreeNodeRef::new(A).data_ptr(), A + 4 * w);
}

#[test]
fn node_refs_equal_by_address() {
    assert_eq!(ImplicitRbTreeNodeRef::new(A), ImplicitRbTreeNodeRef::new(A));
    assert_ne!(ImplicitRbTreeNodeRef::new(A), ImplicitRbTreeNodeRef::new(B));
}
