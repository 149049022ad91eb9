//! A red-black tree whose nodes live inside the memory they describe.
//!
//! A node is four words at a word-aligned address `n`: the key at `n`, the
//! parent word at `n + W`, the left child at `n + 2W` and the right child at
//! `n + 3W` (zero for none). The lowest bit of the parent word is the node's
//! colour (clear for red, set for black); the rest is the parent's address.
//!
//! The tree code follows links by dereferencing the words it reads. Where it
//! dereferences a parent word without clearing the colour bit first, the
//! contracts ask that the bit be clear there, for a set bit makes the address
//! unaligned.
use vstd::prelude::*;
use crate::memory::{Memory, wsize, word_size, word_at, lemma_word_size};

verus! {

/// The colour bit of a parent word.
pub const COLOR_MASK: usize = 1;

/// The address bits of a parent word.
pub const PTR_MASK: usize = !1usize;

/// The colour of a node.
#[derive(Clone, Copy, Debug, PartialEq, Eq, Structural)]
pub enum Color {
    Red,
    Black,
}

/// The bit that stands for `color` in a parent word.
pub open spec fn color_bit(color: Color) -> usize {
    match color {
        Color::Red => 0,
        Color::Black => 1,
    }
}

/// `w` with its colour bit replaced by that of `color`.
pub open spec fn color_word(w: usize, color: Color) -> usize {
    (w & PTR_MASK) | color_bit(color)
}

/// The colour recorded in the parent word `w`.
pub open spec fn color_of_word(w: usize) -> Color {
    if w & COLOR_MASK == 0 {
        Color::Red
    } else {
        Color::Black
    }
}

/// Setting a colour bit keeps the address bits and reads back as that colour.
pub proof fn lemma_color_word(w: usize, color: Color)
    ensures
        color_of_word(color_word(w, color)) == color,
        color_word(w, color) & PTR_MASK == w & PTR_MASK,
{
    lemma_color_bits(w);
}

proof fn lemma_color_bits(w: usize)
    by (bit_vector)
    ensures
        (w & !1usize) | 0 == w & !1usize,
        ((w & !1usize) | 0) & 1 == 0,
        ((w & !1usize) | 1) & 1 == 1,
        ((w & !1usize) | 0) & !1usize == w & !1usize,
        ((w & !1usize) | 1) & !1usize == w & !1usize,
        w & 1 == 0 ==> w & !1usize == w,
        w & 1 == 0 || w & 1 == 1,
        w % 2 == 0 ==> w & 1 == 0,
{
}

/// A word-aligned address has a clear colour bit and is its own address
/// bits.
pub proof fn lemma_aligned_untagged(n: usize)
    requires
        n % wsize() == 0,
    ensures
        n & COLOR_MASK == 0,
        n & PTR_MASK == n,
{
    lemma_word_size();
    lemma_color_bits(n);
}

/// The address of word `i` of the node at `n`.
pub open spec fn fld(n: usize, i: int) -> usize {
    (n + i * wsize()) as usize
}

/// A node can be placed at `n`: not null, word-aligned, and its four words
/// addressable.
pub open spec fn node_ok(n: usize) -> bool {
    &&& n != 0
    &&& n % wsize() == 0
    &&& n + 4 * wsize() <= usize::MAX
}

/// The four words of a node at a usable address are aligned, addressable
/// and distinct.
pub proof fn lemma_fields(n: usize)
    requires
        node_ok(n),
    ensures
        fld(n, 0) == n,
        fld(n, 1) == n + wsize(),
        fld(n, 2) == n + 2 * wsize(),
        fld(n, 3) == n + 3 * wsize(),
        n % wsize() == 0,
        fld(n, 1) % wsize() == 0,
        fld(n, 2) % wsize() == 0,
        fld(n, 3) % wsize() == 0,
        wsize() == 4 || wsize() == 8,
{
    lemma_word_size();
    if wsize() == 4 {
        assert(n % 4 == 0);
        assert((n + 4) % 4 == 0);
        assert((n + 8) % 4 == 0);
        assert((n + 12) % 4 == 0);
    } else {
        assert(n % 8 == 0);
        assert((n + 8) % 8 == 0);
        assert((n + 16) % 8 == 0);
        assert((n + 24) % 8 == 0);
    }
}

/// The nodes at `a` and `b` do not overlap.
pub open spec fn apart(a: usize, b: usize) -> bool {
    a + 4 * wsize() <= b || b + 4 * wsize() <= a
}

/// The parent word of the node at `n`.
pub open spec fn parent_word(m: Map<usize, usize>, n: usize) -> usize {
    word_at(m, fld(n, 1))
}

/// The parent address of the node at `n` (zero for the root).
pub open spec fn parent_at(m: Map<usize, usize>, n: usize) -> usize {
    parent_word(m, n) & PTR_MASK
}

/// The left child of the node at `n`.
pub open spec fn left_at(m: Map<usize, usize>, n: usize) -> usize {
    word_at(m, fld(n, 2))
}

/// The right child of the node at `n`.
pub open spec fn right_at(m: Map<usize, usize>, n: usize) -> usize {
    word_at(m, fld(n, 3))
}

/// The node at `n` is black.
pub open spec fn black_at(m: Map<usize, usize>, n: usize) -> bool {
    color_of_word(parent_word(m, n)) == Color::Black
}

/// `m` after the node at `n` was coloured `color`.
pub open spec fn set_color_at(m: Map<usize, usize>, n: usize, color: Color) -> Map<usize, usize> {
    m.insert(fld(n, 1), color_word(parent_word(m, n), color))
}

/// A reference to a tree node: its address, never null.
#[derive(Clone, Copy, Debug, PartialEq, Eq, Structural)]
pub struct ImplicitRbTreeNodeRef(usize);

impl ImplicitRbTreeNodeRef {
    /// The node's address.
    pub closed spec fn addr(self) -> usize {
        self.0
    }

    /// A reference to the node at `ptr`.
    pub fn new(ptr: usize) -> (r: Self)
        requires
            ptr != 0,
        ensures
            r.addr() == ptr,
    {
        ImplicitRbTreeNodeRef(ptr)
    }

    /// The node's address.
    pub fn address(self) -> (r: usize)
        ensures
            r == self.addr(),
    {
        self.0
    }

    /// The address of the data that follows the node.
    pub fn data_ptr(self) -> (r: usize)
        requires
            self.addr() + 4 * wsize() <= usize::MAX,
        ensures
            r == self.addr() + 4 * wsize(),
    {
        self.0 + node_size()
    }
}

/// The address held by an optional reference, zero for none.
pub open spec fn opt_addr(r: Option<ImplicitRbTreeNodeRef>) -> usize {
    match r {
        Some(n) => n.addr(),
        None => 0,
    }
}

/// An optional reference is present exactly when its address is not zero.
pub open spec fn link_consistent(r: Option<ImplicitRbTreeNodeRef>) -> bool {
    r is Some <==> opt_addr(r) != 0
}

/// The size of a node in bytes: four words.
pub fn node_size() -> (r: usize)
    ensures
        r == 4 * wsize(),
{
    proof {
        lemma_word_size();
    }
    4 * word_size()
}

/// The four words of a node, as read from memory.
#[derive(Clone, Copy, Debug, PartialEq, Eq, Structural)]
pub struct ImplicitRbTreeNode {
    pub key: usize,
    pub parent: usize,
    pub left: usize,
    pub right: usize,
}

/// The node stored at `n` in `m`.
pub open spec fn node_at(m: Map<usize, usize>, n: usize) -> ImplicitRbTreeNode {
    ImplicitRbTreeNode {
        key: word_at(m, n),
        parent: parent_word(m, n),
        left: left_at(m, n),
        right: right_at(m, n),
    }
}

/// `m` with the node `node` stored at `n`.
pub open spec fn store_node(m: Map<usize, usize>, n: usize, node: ImplicitRbTreeNode) -> Map<usize, usize> {
    m.insert(n, node.key).insert(fld(n, 1), node.parent).insert(fld(n, 2), node.left).insert(
        fld(n, 3),
        node.right,
    )
}

/// Which child of its parent a node is.
#[derive(Clone, Copy, Debug, PartialEq, Eq, Structural)]
pub enum Direction {
    Left,
    Right,
}

/// The other direction.
pub open spec fn rev_spec(d: Direction) -> Direction {
    match d {
        Direction::Left => Direction::Right,
        Direction::Right => Direction::Left,
    }
}

impl Direction {
    /// The other direction.
    pub fn rev(self) -> (r: Self)
        ensures
            r == rev_spec(self),
    {
        match self {
            Direction::Left => Direction::Right,
            Direction::Right => Direction::Left,
        }
    }
}

/// Reversing a direction twice gives it back.
pub proof fn lemma_rev_involutive(d: Direction)
    ensures
        rev_spec(rev_spec(d)) == d,
        rev_spec(d) != d,
{
}

impl ImplicitRbTreeNode {
    /// A red node under `parent` with no children.
    pub fn new_red(parent: ImplicitRbTreeNodeRef, key: usize) -> (r: Self)
        requires
            parent.addr() % wsize() == 0,
        ensures
            r == (ImplicitRbTreeNode { key, parent: parent.addr(), left: 0, right: 0 }),
            r.parent == color_word(parent.addr(), Color::Red),
    {
        proof {
            lemma_aligned_untagged(parent.addr());
            lemma_color_bits(parent.addr());
        }
        ImplicitRbTreeNode { key, parent: parent.address(), left: 0, right: 0 }
    }

    /// A black node under `parent` with no children.
    pub fn new_black(parent: ImplicitRbTreeNodeRef, key: usize) -> (r: Self)
        requires
            parent.addr() % wsize() == 0,
        ensures
            r == (ImplicitRbTreeNode {
                key,
                parent: color_word(parent.addr(), Color::Black),
                left: 0,
                right: 0,
            }),
    {
        proof {
            lemma_aligned_untagged(parent.addr());
        }
        ImplicitRbTreeNode { key, parent: parent.address() | 1, left: 0, right: 0 }
    }

    /// Reads the node at `n`.
    pub fn read(mem: &Memory, n: usize) -> (r: Self)
        requires
            node_ok(n),
        ensures
            r == node_at(mem@, n),
    {
        proof {
            lemma_fields(n);
        }
        let w = word_size();
        ImplicitRbTreeNode {
            key: mem.read(n),
            parent: mem.read(n + w),
            left: mem.read(n + 2 * w),
            right: mem.read(n + 3 * w),
        }
    }

    /// Stores this node at `n`.
    pub fn write(&self, mem: &mut Memory, n: usize)
        requires
            node_ok(n),
        ensures
            final(mem)@ == store_node(old(mem)@, n, *self),
    {
        proof {
            lemma_fields(n);
        }
        let w = word_size();
        mem.write(n, self.key);
        mem.write(n + w, self.parent);
        mem.write(n + 2 * w, self.left);
        mem.write(n + 3 * w, self.right);
    }

    /// The parent, if there is one.
    pub fn parent_ptr(&self) -> (r: Option<ImplicitRbTreeNodeRef>)
        ensures
            r is Some <==> self.parent & PTR_MASK != 0,
            r is Some ==> r.unwrap().addr() == self.parent & PTR_MASK,
    {
        let ptr = self.parent & PTR_MASK;
        if ptr == 0 {
            return None;
        }
        Some(ImplicitRbTreeNodeRef::new(ptr))
    }

    /// The node is red.
    pub fn is_red(&self) -> (r: bool)
        ensures
            r == (color_of_word(self.parent) == Color::Red),
    {
        self.parent & COLOR_MASK == 0
    }

    /// The node is black.
    pub fn is_black(&self) -> (r: bool)
        ensures
            r == (color_of_word(self.parent) == Color::Black),
    {
        proof {
            lemma_color_bits(self.parent);
        }
        self.parent & COLOR_MASK == 1
    }

    /// Colours the node, keeping its parent.
    pub fn set_color(&mut self, color: Color)
        ensures
            *final(self) == (ImplicitRbTreeNode { parent: color_word(old(self).parent, color), ..*old(self) }),
    {
        let bit: usize = match color {
            Color::Red => 0,
            Color::Black => 1,
        };
        self.parent = (self.parent & PTR_MASK) | bit;
    }

    /// The node's colour.
    pub fn get_color(&self) -> (r: Color)
        ensures
            r == color_of_word(self.parent),
    {
        if self.is_red() {
            Color::Red
        } else {
            Color::Black
        }
    }

    /// The node has a child.
    pub fn has_children(&self) -> (r: bool)
        ensures
            r == (self.left != 0 || self.right != 0),
    {
        self.left != 0 || self.right != 0
    }

    /// The side on which `child`, one of this node's children, hangs.
    pub fn child_dir(&self, child: usize) -> (r: Direction)
        requires
            child != 0,
            self.right == child || self.left == child,
        ensures
            r == if self.right == child {
                Direction::Right
            } else {
                Direction::Left
            },
    {
        if self.right != 0 && self.right == child {
            return Direction::Right;
        }
        Direction::Left
    }

    /// The two rotations that bring a red child with a red parent into place:
    /// the parent's rotation, and first the child's when the two hang on
    /// different sides.
    pub fn map_rotations(parent: Direction, child: Direction) -> (r: (Direction, Option<Direction>))
        ensures
            r == map_rotations_spec(parent, child),
    {
        if parent == child {
            return (parent.rev(), None);
        }
        (child.rev(), Some(parent.rev()))
    }
}

/// The rotations `map_rotations` picks.
pub open spec fn map_rotations_spec(parent: Direction, child: Direction) -> (Direction, Option<Direction>) {
    if parent == child {
        (rev_spec(parent), None)
    } else {
        (rev_spec(child), Some(rev_spec(parent)))
    }
}

/// Writes a fresh node at `addr`: `key`, no children, and a parent word made
/// of `parent` (zero for none) and `color`.
pub fn create_tree_node(
    mem: &mut Memory,
    key: usize,
    addr: usize,
    color: Color,
    parent: Option<ImplicitRbTreeNodeRef>,
) -> (r: ImplicitRbTreeNodeRef)
    requires
        node_ok(addr),
        opt_addr(parent) % wsize() == 0,
    ensures
        r.addr() == addr,
        final(mem)@ == store_node(
            old(mem)@,
            addr,
            ImplicitRbTreeNode { key, parent: color_word(opt_addr(parent), color), left: 0, right: 0 },
        ),
{
    proof {
        lemma_aligned_untagged(opt_addr(parent));
    }
    let p: usize = match parent {
        Some(node) => node.address(),
        None => 0,
    };
    let bit: usize = match color {
        Color::Red => 0,
        Color::Black => 1,
    };
    let node = ImplicitRbTreeNode { key, parent: p | bit, left: 0, right: 0 };
    node.write(mem, addr);
    ImplicitRbTreeNodeRef::new(addr)
}

/// `m` after `rotate_right` of the node at `this`: the parent comes down
/// as the node's right child and takes the node's former right child as its
/// left one; the grandparent's link to the parent now leads to the node.
/// Words are read and written in the order the rotation uses them.
pub open spec fn rotate_right_spec(m: Map<usize, usize>, this: usize) -> Map<usize, usize> {
    let p = parent_word(m, this);
    let r = right_at(m, this);
    let m1 = m.insert(fld(this, 3), p);
    let m2 = if r != 0 {
        m1.insert(fld(r, 1), p)
    } else {
        m1
    };
    if p != 0 {
        let m3 = m2.insert(fld(p, 2), r);
        let np = word_at(m3, fld(p, 1));
        let m5 = m3.insert(fld(p, 1), this).insert(fld(this, 1), np);
        if np != 0 {
            if right_at(m5, np) == p {
                m5.insert(fld(np, 3), this)
            } else {
                m5.insert(fld(np, 2), this)
            }
        } else {
            m5
        }
    } else {
        m2.insert(fld(this, 1), 0)
    }
}

/// What `rotate_right` of the node at `this` needs: every node it follows
/// is at a usable address (so the node's own colour bit is clear when it has
/// a parent, and so is the parent's when it has one), the nodes it changes
/// while holding the node do not overlap it, and the grandparent has the
/// parent as a child.
pub open spec fn rotate_right_ok(m: Map<usize, usize>, this: usize) -> bool {
    let p = parent_word(m, this);
    let r = right_at(m, this);
    let m1 = m.insert(fld(this, 3), p);
    let m2 = if r != 0 {
        m1.insert(fld(r, 1), p)
    } else {
        m1
    };
    let m3 = m2.insert(fld(p, 2), r);
    let np = word_at(m3, fld(p, 1));
    let m5 = m3.insert(fld(p, 1), this).insert(fld(this, 1), np);
    &&& node_ok(this)
    &&& r != 0 ==> node_ok(r) && apart(this, r)
    &&& p != 0 ==> {
        &&& node_ok(p)
        &&& apart(this, p)
        &&& np != 0 ==> {
            &&& node_ok(np)
            &&& apart(this, np)
            &&& apart(p, np)
            &&& (right_at(m5, np) == p || left_at(m5, np) == p)
        }
    }
}

/// `m` after `rotate_left` of the node at `this`: the mirror image of
/// [`rotate_right_spec`].
pub open spec fn rotate_left_spec(m: Map<usize, usize>, this: usize) -> Map<usize, usize> {
    let p = parent_word(m, this);
    let l = left_at(m, this);
    let m1 = m.insert(fld(this, 2), p);
    let m2 = if l != 0 {
        m1.insert(fld(l, 1), p)
    } else {
        m1
    };
    if p != 0 {
        let m3 = m2.insert(fld(p, 3), l);
        let np = word_at(m3, fld(p, 1));
        let m5 = m3.insert(fld(p, 1), this).insert(fld(this, 1), np);
        if np != 0 {
            if right_at(m5, np) == p {
                m5.insert(fld(np, 3), this)
            } else {
                m5.insert(fld(np, 2), this)
            }
        } else {
            m5
        }
    } else {
        m2.insert(fld(this, 1), 0)
    }
}

/// What `rotate_left` of the node at `this` needs: as for
/// [`rotate_right_ok`], and the node is its parent's right child, and a node
/// without a parent has no left child.
pub open spec fn rotate_left_ok(m: Map<usize, usize>, this: usize) -> bool {
    let p = parent_word(m, this);
    let l = left_at(m, this);
    let m1 = m.insert(fld(this, 2), p);
    let m2 = if l != 0 {
        m1.insert(fld(l, 1), p)
    } else {
        m1
    };
    let m3 = m2.insert(fld(p, 3), l);
    let np = word_at(m3, fld(p, 1));
    let m5 = m3.insert(fld(p, 1), this).insert(fld(this, 1), np);
    &&& node_ok(this)
    &&& l != 0 ==> node_ok(l) && apart(this, l)
    &&& p == 0 ==> l == 0
    &&& p != 0 ==> {
        &&& node_ok(p)
        &&& apart(this, p)
        &&& right_at(m2, p) == this
        &&& np != 0 ==> {
            &&& node_ok(np)
            &&& apart(this, np)
            &&& apart(p, np)
            &&& (right_at(m5, np) == p || left_at(m5, np) == p)
        }
    }
}

/// `m` after rotating the node at `this` in direction `dir`.
pub open spec fn rotate_spec(m: Map<usize, usize>, this: usize, dir: Direction) -> Map<usize, usize> {
    match dir {
        Direction::Left => rotate_left_spec(m, this),
        Direction::Right => rotate_right_spec(m, this),
    }
}

/// What rotating the node at `this` in direction `dir` needs.
pub open spec fn rotate_ok(m: Map<usize, usize>, this: usize, dir: Direction) -> bool {
    match dir {
        Direction::Left => rotate_left_ok(m, this),
        Direction::Right => rotate_right_ok(m, this),
    }
}

impl ImplicitRbTreeNode {
    /// Rotates the node at `this` up over its parent, which becomes its right
    /// child.
    pub fn rotate_right(mem: &mut Memory, this: usize)
        requires
            rotate_right_ok(old(mem)@, this),
        ensures
            final(mem)@ == rotate_right_spec(old(mem)@, this),
            rotation_apart(old(mem)@, this, right_at(old(mem)@, this)) ==> rotate_right_effect(
                old(mem)@,
                this,
                final(mem)@,
            ),
    {
        proof {
            if rotation_apart(mem@, this, right_at(mem@, this)) {
                lemma_rotate_right_effect(mem@, this);
            }
        }
        proof {
            lemma_fields(this);
        }
        let w = word_size();
        let p = mem.read(this + w);
        let r = mem.read(this + 3 * w);
        mem.write(this + 3 * w, p);
        if r != 0 {
            proof {
                lemma_fields(r);
            }
            mem.write(r + w, p);
        }
        if p != 0 {
            proof {
                lemma_fields(p);
            }
            mem.write(p + 2 * w, r);
            let np = mem.read(p + w);
            mem.write(p + w, this);
            mem.write(this + w, np);
            if np != 0 {
                proof {
                    lemma_fields(np);
                }
                if ImplicitRbTreeNode::read(mem, np).child_dir(p) == Direction::Right {
                    mem.write(np + 3 * w, this);
                } else {
                    mem.write(np + 2 * w, this);
                }
            }
        } else {
            mem.write(this + w, 0);
        }
    }

    /// Rotates the node at `this` up over its parent, which becomes its left
    /// child.
    pub fn rotate_left(mem: &mut Memory, this: usize)
        requires
            rotate_left_ok(old(mem)@, this),
        ensures
            final(mem)@ == rotate_left_spec(old(mem)@, this),
            rotation_apart(old(mem)@, this, left_at(old(mem)@, this)) ==> rotate_left_effect(
                old(mem)@,
                this,
                final(mem)@,
            ),
    {
        proof {
            if rotation_apart(mem@, this, left_at(mem@, this)) {
                lemma_rotate_left_effect(mem@, this);
            }
        }
        proof {
            lemma_fields(this);
        }
        let w = word_size();
        let p = mem.read(this + w);
        let l = mem.read(this + 2 * w);
        mem.write(this + 2 * w, p);
        if l != 0 {
            proof {
                lemma_fields(l);
            }
            mem.write(l + w, p);
        }
        if p != 0 {
            proof {
                lemma_fields(p);
            }
            let dir = ImplicitRbTreeNode::read(mem, p).child_dir(this);
            assert(dir == Direction::Right);
            mem.write(p + 3 * w, l);
            let np = mem.read(p + w);
            mem.write(p + w, this);
            mem.write(this + w, np);
            if np != 0 {
                proof {
                    lemma_fields(np);
                }
                if ImplicitRbTreeNode::read(mem, np).child_dir(p) == Direction::Left {
                    mem.write(np + 2 * w, this);
                } else {
                    mem.write(np + 3 * w, this);
                }
            }
        } else {
            mem.write(this + w, 0);
        }
    }

    /// Rotates the node at `this` in direction `dir`.
    pub fn rotate(mem: &mut Memory, this: usize, dir: Direction)
        requires
            rotate_ok(old(mem)@, this, dir),
        ensures
            final(mem)@ == rotate_spec(old(mem)@, this, dir),
    {
        match dir {
            Direction::Left => ImplicitRbTreeNode::rotate_left(mem, this),
            Direction::Right => ImplicitRbTreeNode::rotate_right(mem, this),
        }
    }
}

/// The optional reference held by a link word (zero for none).
pub fn link_ref(w: usize) -> (r: Option<ImplicitRbTreeNodeRef>)
    ensures
        r is Some <==> w != 0,
        r is Some ==> r.unwrap().addr() == w,
        opt_addr(r) == w,
{
    if w == 0 {
        None
    } else {
        Some(ImplicitRbTreeNodeRef::new(w))
    }
}

/// The sibling of the node at `s`: the parent's other child, zero when there
/// is none or no parent.
pub open spec fn sibling_spec(m: Map<usize, usize>, s: usize) -> usize {
    let p = parent_at(m, s);
    if p == 0 {
        0
    } else if right_at(m, p) == s {
        left_at(m, p)
    } else {
        right_at(m, p)
    }
}

/// What `sibling` of the node at `s` needs: a parent at a usable address
/// that has the node as a child.
pub open spec fn sibling_ok(m: Map<usize, usize>, s: usize) -> bool {
    let p = parent_at(m, s);
    &&& s != 0
    &&& p != 0 ==> node_ok(p) && (right_at(m, p) == s || left_at(m, p) == s)
}

impl ImplicitRbTreeNode {
    /// Colours the node at `n` in memory.
    pub fn paint(mem: &mut Memory, n: usize, color: Color)
        requires
            node_ok(n),
        ensures
            final(mem)@ == set_color_at(old(mem)@, n, color),
    {
        proof {
            lemma_fields(n);
        }
        let mut node = ImplicitRbTreeNode::read(mem, n);
        node.set_color(color);
        mem.write(n + word_size(), node.parent);
    }

    /// The sibling of this node, which is stored at `this`.
    pub fn sibling(&self, mem: &Memory, this: usize) -> (r: Option<ImplicitRbTreeNodeRef>)
        requires
            *self == node_at(mem@, this),
            sibling_ok(mem@, this),
        ensures
            opt_addr(r) == sibling_spec(mem@, this),
            r is Some <==> sibling_spec(mem@, this) != 0,
    {
        match self.parent_ptr() {
            None => None,
            Some(parent_ptr) => {
                let parent = ImplicitRbTreeNode::read(mem, parent_ptr.address());
                let right = parent.right;
                if right == this {
                    return link_ref(parent.left);
                }
                link_ref(right)
            },
        }
    }
}

/// One pass of the recolouring loop at `curr` in `m`: whether it is free of
/// faults (a dereference of an unusable address, a missing grandparent
/// under a red parent, a rotation whose needs are not met), the memory it
/// leaves, and the node to go on with (zero when the loop ends).
///
/// A black parent or none ends the loop. A red uncle makes parent and uncle
/// black and the grandparent red, and the loop goes on at the grandparent.
/// Otherwise the rotations of `map_rotations_spec` run, the node that comes
/// up is made black and the grandparent red, and the loop goes on at the
/// current node's new parent.
pub open spec fn recolor_step(m: Map<usize, usize>, curr: usize) -> (bool, Map<usize, usize>, usize) {
    let p = parent_at(m, curr);
    let g = parent_at(m, p);
    let u = if right_at(m, g) == p {
        left_at(m, g)
    } else {
        right_at(m, g)
    };
    if !node_ok(curr) {
        (false, m, 0)
    } else if p == 0 {
        (true, m, 0)
    } else if !node_ok(p) {
        (false, m, 0)
    } else if black_at(m, p) {
        (true, m, 0)
    } else if g == 0 || !node_ok(g) || !(right_at(m, g) == p || left_at(m, g) == p) {
        (false, m, 0)
    } else if u != 0 && !node_ok(u) {
        (false, m, 0)
    } else if u != 0 && !black_at(m, u) {
        let m2 = set_color_at(set_color_at(m, p, Color::Black), u, Color::Black);
        let gp = parent_at(m2, p);
        if gp == 0 || !node_ok(gp) {
            (false, m2, 0)
        } else {
            (true, set_color_at(m2, gp, Color::Red), gp)
        }
    } else if !(right_at(m, p) == curr || left_at(m, p) == curr) {
        (false, m, 0)
    } else {
        let dir = if right_at(m, p) == curr {
            Direction::Right
        } else {
            Direction::Left
        };
        let pdir = if right_at(m, g) == p {
            Direction::Right
        } else {
            Direction::Left
        };
        let rot = map_rotations_spec(pdir, dir);
        let (ok, m3) = match rot.1 {
            Some(first) => if !rotate_ok(m, curr, first) {
                (false, m)
            } else if !rotate_ok(rotate_spec(m, curr, first), p, rot.0) {
                (false, m)
            } else {
                (true, set_color_at(rotate_spec(rotate_spec(m, curr, first), p, rot.0), curr, Color::Black))
            },
            None => if !rotate_ok(m, p, rot.0) {
                (false, m)
            } else {
                (true, set_color_at(rotate_spec(m, p, rot.0), p, Color::Black))
            },
        };
        if !ok {
            (false, m3, 0)
        } else {
            let m4 = set_color_at(m3, g, Color::Red);
            (true, m4, parent_at(m4, curr))
        }
    }
}

/// The recolouring loop from `curr` with at most `fuel` further passes:
/// whether it ends without fault within them, and the memory it leaves.
pub open spec fn recolor_run(m: Map<usize, usize>, curr: usize, fuel: nat) -> (bool, Map<usize, usize>)
    decreases fuel,
{
    let st = recolor_step(m, curr);
    if !st.0 {
        (false, st.1)
    } else if st.2 == 0 {
        (true, st.1)
    } else if fuel == 0 {
        (false, st.1)
    } else {
        recolor_run(st.1, st.2, (fuel - 1) as nat)
    }
}

/// What `recolor_node` needs: the loop from `node` ends without fault, and
/// `root` is a usable address.
pub open spec fn recolor_ok(m: Map<usize, usize>, node: usize, root: usize) -> bool {
    &&& node_ok(root)
    &&& exists|fuel: nat| (#[trigger] recolor_run(m, node, fuel)).0
}

/// A number of passes within which the loop from `node` ends.
pub open spec fn recolor_fuel(m: Map<usize, usize>, node: usize) -> nat {
    choose|fuel: nat| (#[trigger] recolor_run(m, node, fuel)).0
}

/// The memory `recolor_node` leaves: the loop's, with `root` made black.
pub open spec fn recolor_result(m: Map<usize, usize>, node: usize, root: usize) -> Map<usize, usize> {
    set_color_at(recolor_run(m, node, recolor_fuel(m, node)).1, root, Color::Black)
}

impl ImplicitRbTreeNode {
    /// Restores the colours above the freshly inserted red node at `node`,
    /// then makes `root` black.
    #[verifier::rlimit(40)]
    pub fn recolor_node(mem: &mut Memory, node: usize, root: usize)
        requires
            recolor_ok(old(mem)@, node, root),
        ensures
            final(mem)@ == recolor_result(old(mem)@, node, root),
    {
        let ghost mut fuel = recolor_fuel(mem@, node);
        let ghost target = recolor_run(mem@, node, fuel).1;
        let mut curr = node;
        loop
            invariant_except_break
                recolor_run(mem@, curr, fuel).0,
                recolor_run(mem@, curr, fuel).1 == target,
            invariant
                node_ok(root),
            ensures
                mem@ == target,
            decreases fuel,
        {
            let ghost m0 = mem@;
            assert(recolor_step(m0, curr).0);
            let cnode = ImplicitRbTreeNode::read(mem, curr);
            let parent = match cnode.parent_ptr() {
                Some(parent) => parent,
                None => break,
            };
            let p = parent.address();
            let pnode = ImplicitRbTreeNode::read(mem, p);
            if pnode.is_black() {
                // the parent is black so we have nothing to do here.
                break;
            }
            let gp = pnode.parent_ptr().unwrap();
            let g = gp.address();
            let uncle = pnode.sibling(mem, p);
            let uncle_red = match uncle {
                Some(u) => ImplicitRbTreeNode::read(mem, u.address()).is_red(),
                None => false,
            };
            if uncle_red {
                let u = uncle.unwrap().address();
                ImplicitRbTreeNode::paint(mem, p, Color::Black);
                ImplicitRbTreeNode::paint(mem, u, Color::Black);
                // update grand parent
                let grand_parent = ImplicitRbTreeNode::read(mem, p).parent_ptr().unwrap().address();
                ImplicitRbTreeNode::paint(mem, grand_parent, Color::Red);
                curr = grand_parent;
                proof {
                    fuel = (fuel - 1) as nat;
                }
                continue;
            }
            let dir = pnode.child_dir(curr);
            let parent_dir = ImplicitRbTreeNode::read(mem, g).child_dir(p);
            let rotations = ImplicitRbTreeNode::map_rotations(parent_dir, dir);
            match rotations.1 {
                Some(first_rotation) => {
                    ImplicitRbTreeNode::rotate(mem, curr, first_rotation);
                    ImplicitRbTreeNode::rotate(mem, p, rotations.0);
                    ImplicitRbTreeNode::paint(mem, curr, Color::Black);
                },
                None => {
                    ImplicitRbTreeNode::rotate(mem, p, rotations.0);
                    ImplicitRbTreeNode::paint(mem, p, Color::Black);
                },
            }
            ImplicitRbTreeNode::paint(mem, g, Color::Red);
            // try checking the next node
            match ImplicitRbTreeNode::read(mem, curr).parent_ptr() {
                Some(next_check) => {
                    curr = next_check.address();
                    proof {
                        fuel = (fuel - 1) as nat;
                    }
                },
                None => break,
            }
        }
        ImplicitRbTreeNode::paint(mem, root, Color::Black);
    }
}

/// The node inserting `key` at `addr` links in below `n`, with the slot
/// (2 for left, 3 for right) it takes there: the search goes right past
/// smaller keys and left otherwise, until the side it takes is empty. Returns
/// whether the search stays on usable addresses within `fuel` steps.
pub open spec fn insert_place(m: Map<usize, usize>, n: usize, key: usize, fuel: nat) -> (bool, usize, int)
    decreases fuel,
{
    let slot: int = if word_at(m, n) < key {
        3
    } else {
        2
    };
    let next = word_at(m, fld(n, slot));
    if !node_ok(n) {
        (false, n, slot)
    } else if next == 0 {
        (true, n, slot)
    } else if fuel == 0 {
        (false, n, slot)
    } else {
        insert_place(m, next, key, (fuel - 1) as nat)
    }
}

/// `m` once the red node for `key` was written at `addr` and linked into
/// slot `slot` of the node at `n`, before recolouring.
pub open spec fn link_mem(m: Map<usize, usize>, n: usize, slot: int, key: usize, addr: usize) -> Map<usize, usize> {
    store_node(
        m,
        addr,
        ImplicitRbTreeNode { key, parent: color_word(n, Color::Red), left: 0, right: 0 },
    ).insert(fld(n, slot), addr)
}

/// What inserting `key` at `addr` below the node at `n`, in the tree whose
/// root is at `root`, needs: the search ends within `fuel` steps on usable
/// addresses, the new node is at a usable address apart from the node it
/// hangs under, and recolouring from it ends without fault.
pub open spec fn insert_ok(m: Map<usize, usize>, n: usize, key: usize, addr: usize, root: usize, fuel: nat) -> bool {
    let place = insert_place(m, n, key, fuel);
    &&& place.0
    &&& node_ok(addr)
    &&& apart(addr, place.1)
    &&& recolor_ok(link_mem(m, place.1, place.2, key, addr), addr, root)
}

/// The memory after inserting `key` at `addr` below the node at `n`.
pub open spec fn insert_mem(m: Map<usize, usize>, n: usize, key: usize, addr: usize, root: usize, fuel: nat) -> Map<usize, usize> {
    let place = insert_place(m, n, key, fuel);
    recolor_result(link_mem(m, place.1, place.2, key, addr), addr, root)
}

impl ImplicitRbTreeNode {
    /// Inserts a red node for `key` at `addr` below the node at `this`, then
    /// restores the colours up to the tree's root at `root`.
    fn insert(mem: &mut Memory, this: usize, key: usize, addr: usize, root: usize, Ghost(fuel): Ghost<nat>)
        requires
            insert_ok(old(mem)@, this, key, addr, root, fuel),
        ensures
            final(mem)@ == insert_mem(old(mem)@, this, key, addr, root, fuel),
        decreases fuel,
    {
        proof {
            lemma_fields(this);
        }
        let node = ImplicitRbTreeNode::read(mem, this);
        let w = word_size();
        if node.key < key {
            if node.right != 0 {
                ImplicitRbTreeNode::insert(mem, node.right, key, addr, root, Ghost((fuel - 1) as nat));
                return;
            }
            let created = create_tree_node(
                mem,
                key,
                addr,
                Color::Red,
                Some(ImplicitRbTreeNodeRef::new(this)),
            );
            mem.write(this + 3 * w, created.address());
            ImplicitRbTreeNode::recolor_node(mem, created.address(), root);
            return;
        }
        if node.left != 0 {
            ImplicitRbTreeNode::insert(mem, node.left, key, addr, root, Ghost((fuel - 1) as nat));
            return;
        }
        let created = create_tree_node(mem, key, addr, Color::Red, Some(ImplicitRbTreeNodeRef::new(this)));
        mem.write(this + 2 * w, created.address());
        ImplicitRbTreeNode::recolor_node(mem, created.address(), root);
    }
}

/// A red-black tree threaded through memory: the reference to its root
/// node, if any.
pub struct ImplicitRbTree {
    root: Option<ImplicitRbTreeNodeRef>,
}

/// What inserting `key` at `addr` into the tree with root `root` needs.
pub open spec fn tree_insert_ok(root: Option<ImplicitRbTreeNodeRef>, m: Map<usize, usize>, key: usize, addr: usize) -> bool {
    match root {
        None => node_ok(addr),
        Some(r) => exists|fuel: nat| #[trigger] insert_ok(m, r.addr(), key, addr, r.addr(), fuel),
    }
}

/// The memory after inserting `key` at `addr` into the tree with root
/// `root`: a lone black node, or the insertion below the root.
pub open spec fn tree_insert_mem(root: Option<ImplicitRbTreeNodeRef>, m: Map<usize, usize>, key: usize, addr: usize) -> Map<usize, usize> {
    match root {
        None => store_node(
            m,
            addr,
            ImplicitRbTreeNode { key, parent: color_word(0, Color::Black), left: 0, right: 0 },
        ),
        Some(r) => insert_mem(
            m,
            r.addr(),
            key,
            addr,
            r.addr(),
            choose|fuel: nat| #[trigger] insert_ok(m, r.addr(), key, addr, r.addr(), fuel),
        ),
    }
}

impl ImplicitRbTree {
    /// The root node, if any.
    pub closed spec fn root_node(self) -> Option<ImplicitRbTreeNodeRef> {
        self.root
    }

    /// The empty tree.
    pub fn new() -> (r: Self)
        ensures
            r.root_node() is None,
    {
        ImplicitRbTree { root: None }
    }

    /// The root node, if any.
    pub fn root_ref(&self) -> (r: Option<ImplicitRbTreeNodeRef>)
        ensures
            r == self.root_node(),
    {
        self.root
    }

    /// Inserts a node for `key`, placed at `addr`: into an empty tree as a
    /// black root, otherwise as a red leaf followed by recolouring.
    pub fn insert(&mut self, mem: &mut Memory, key: usize, addr: usize)
        requires
            tree_insert_ok(old(self).root_node(), old(mem)@, key, addr),
        ensures
            final(mem)@ == tree_insert_mem(old(self).root_node(), old(mem)@, key, addr),
            old(self).root_node() is None ==> final(self).root_node() is Some
                && final(self).root_node().unwrap().addr() == addr,
            old(self).root_node() is Some ==> final(self).root_node() == old(self).root_node(),
    {
        match self.root {
            None => {
                self.root = Some(create_tree_node(mem, key, addr, Color::Black, None));
            },
            Some(root) => {
                let ghost fuel = choose|fuel: nat| #[trigger] insert_ok(mem@, root.addr(), key, addr, root.addr(), fuel);
                ImplicitRbTreeNode::insert(mem, root.address(), key, addr, root.address(), Ghost(fuel));
            },
        }
    }
}

/// The leftmost node of the subtree at `r`, following left links from it
/// within `fuel` steps: whether the walk stays on usable addresses and ends
/// in time, the node it ends at, and whether it took a step.
pub open spec fn leftmost(m: Map<usize, usize>, r: usize, fuel: nat) -> (bool, usize, bool)
    decreases fuel,
{
    if !node_ok(r) {
        (false, r, false)
    } else if left_at(m, r) == 0 {
        (true, r, false)
    } else if fuel == 0 {
        (false, r, false)
    } else {
        let x = leftmost(m, left_at(m, r), (fuel - 1) as nat);
        (x.0, x.1, true)
    }
}

/// Writing `w` to the link `slot`: the tree's root reference when `slot` is
/// zero, otherwise the memory word at `slot`. Gives the memory and the root
/// word after the write.
pub open spec fn write_slot(m: Map<usize, usize>, root: usize, slot: usize, w: usize) -> (Map<usize, usize>, usize) {
    if slot == 0 {
        (m, w)
    } else {
        (m.insert(slot, w), root)
    }
}

/// `inner_removal` of the node at `node` with the link `slot` (which `remove`
/// passes as the link holding the node's parent), with `root` the tree's
/// root word: whether it is free of faults, and the memory and root word it
/// leaves.
///
/// For a node missing a child, `slot` is set to the node's other child. For
/// a node with both children no link is changed at `slot`; the leftmost node
/// of its right subtree takes its colour, and when that node lies deeper than
/// the right child its parent's left link is set to that node's right child.
pub open spec fn inner_removal_spec(m: Map<usize, usize>, root: usize, node: usize, slot: usize, fuel: nat) -> (bool, Map<usize, usize>, usize) {
    let l = left_at(m, node);
    let r = right_at(m, node);
    if l == 0 {
        let ws = write_slot(m, root, slot, r);
        (true, ws.0, ws.1)
    } else if r == 0 {
        let ws = write_slot(m, root, slot, l);
        (true, ws.0, ws.1)
    } else {
        let lm = leftmost(m, r, fuel);
        let nn = lm.1;
        let m1 = set_color_at(m, nn, color_of_word(parent_word(m, node)));
        let child = right_at(m1, nn);
        let pp = parent_at(m1, nn);
        if !lm.0 {
            (false, m, root)
        } else if !lm.2 {
            (true, m1, root)
        } else if pp == 0 || !node_ok(pp) {
            (false, m1, root)
        } else {
            (true, m1.insert(fld(pp, 2), child), root)
        }
    }
}

/// `remove` of `key` below the node at `n`, held by the link `slot`, with
/// `root` the tree's root word and at most `fuel` further steps down: whether
/// it is free of faults, the memory and root word it leaves, and the node it
/// removes. The search goes right past smaller keys and left otherwise, and
/// stops at the first child holding `key`, which `inner_removal` takes out
/// with the link that holds its parent.
pub open spec fn remove_run(m: Map<usize, usize>, root: usize, n: usize, key: usize, slot: usize, fuel: nat) -> (bool, Map<usize, usize>, usize, usize)
    decreases fuel,
{
    let go_right = word_at(m, n) < key;
    let c = if go_right {
        right_at(m, n)
    } else {
        left_at(m, n)
    };
    let cslot = if go_right {
        fld(n, 3)
    } else {
        fld(n, 2)
    };
    if !node_ok(n) || c == 0 || !node_ok(c) || !apart(n, c) {
        (false, m, root, c)
    } else if word_at(m, c) == key {
        let ir = inner_removal_spec(m, root, c, slot, fuel);
        (ir.0, ir.1, ir.2, c)
    } else if fuel == 0 {
        (false, m, root, c)
    } else {
        remove_run(m, root, c, key, cslot, (fuel - 1) as nat)
    }
}

/// A link that the removal code writes: the tree's root reference (zero) or
/// a word-aligned memory word.
pub open spec fn slot_ok(slot: usize) -> bool {
    slot == 0 || slot % wsize() == 0
}

/// Writes `w` to the link `slot` (see [`write_slot`]).
fn store_link(mem: &mut Memory, tree_root: &mut Option<ImplicitRbTreeNodeRef>, slot: usize, w: usize)
    requires
        slot_ok(slot),
    ensures
        (final(mem)@, opt_addr(*final(tree_root))) == write_slot(old(mem)@, opt_addr(*old(tree_root)), slot, w),
        link_consistent(*old(tree_root)) ==> link_consistent(*final(tree_root)),
{
    if slot == 0 {
        *tree_root = link_ref(w);
    } else {
        mem.write(slot, w);
    }
}

impl ImplicitRbTreeNode {
    /// Takes out the node at `node`, writing the link `slot` (see
    /// [`inner_removal_spec`]).
    fn inner_removal(
        mem: &mut Memory,
        tree_root: &mut Option<ImplicitRbTreeNodeRef>,
        node: usize,
        slot: usize,
        Ghost(fuel): Ghost<nat>,
    )
        requires
            node_ok(node),
            slot_ok(slot),
            inner_removal_spec(old(mem)@, opt_addr(*old(tree_root)), node, slot, fuel).0,
        ensures
            final(mem)@ == inner_removal_spec(old(mem)@, opt_addr(*old(tree_root)), node, slot, fuel).1,
            opt_addr(*final(tree_root)) == inner_removal_spec(old(mem)@, opt_addr(*old(tree_root)), node, slot, fuel).2,
            link_consistent(*old(tree_root)) ==> link_consistent(*final(tree_root)),
    {
        let n = ImplicitRbTreeNode::read(mem, node);
        let mut removed_color = n.get_color();
        if n.left == 0 {
            store_link(mem, tree_root, slot, n.right);
        } else if n.right == 0 {
            store_link(mem, tree_root, slot, n.left);
        } else {
            let ghost m0 = mem@;
            let ghost target = leftmost(m0, n.right, fuel);
            let mut result = n.right;
            let mut deep = false;
            let ghost mut f = fuel;
            while ImplicitRbTreeNode::read(mem, result).left != 0
                invariant
                    mem@ == m0,
                    leftmost(m0, result, f).0,
                    leftmost(m0, result, f).1 == target.1,
                    target.2 == (deep || leftmost(m0, result, f).2),
                    target.0,
                decreases f,
            {
                result = ImplicitRbTreeNode::read(mem, result).left;
                deep = true;
                proof {
                    f = (f - 1) as nat;
                }
            }
            let new_color = ImplicitRbTreeNode::read(mem, result).get_color();
            ImplicitRbTreeNode::paint(mem, result, removed_color);
            removed_color = new_color;
            let moved = ImplicitRbTreeNode::read(mem, result);
            let child = moved.right;
            if deep {
                let pp = moved.parent_ptr().unwrap().address();
                proof {
                    lemma_fields(pp);
                }
                mem.write(pp + 2 * word_size(), child);
            }
        }
        if removed_color == Color::Black {
            ImplicitRbTreeNode::fixup_removal(node);
        }
    }

    /// Restores the colours after a black node was removed: nothing is done.
    fn fixup_removal(_node: usize) {
    }

    /// Removes the first node holding `key` below the node at `this`, which
    /// the link `slot` holds (see [`remove_run`]); returns it.
    fn remove(
        mem: &mut Memory,
        tree_root: &mut Option<ImplicitRbTreeNodeRef>,
        this: usize,
        key: usize,
        slot: usize,
        Ghost(fuel): Ghost<nat>,
    ) -> (r: ImplicitRbTreeNodeRef)
        requires
            slot_ok(slot),
            remove_run(old(mem)@, opt_addr(*old(tree_root)), this, key, slot, fuel).0,
        ensures
            final(mem)@ == remove_run(old(mem)@, opt_addr(*old(tree_root)), this, key, slot, fuel).1,
            opt_addr(*final(tree_root)) == remove_run(old(mem)@, opt_addr(*old(tree_root)), this, key, slot, fuel).2,
            r.addr() == remove_run(old(mem)@, opt_addr(*old(tree_root)), this, key, slot, fuel).3,
            link_consistent(*old(tree_root)) ==> link_consistent(*final(tree_root)),
        decreases fuel,
    {
        proof {
            lemma_fields(this);
        }
        let node = ImplicitRbTreeNode::read(mem, this);
        let w = word_size();
        if node.key < key {
            let right = link_ref(node.right).unwrap().address();
            if ImplicitRbTreeNode::read(mem, right).key == key {
                ImplicitRbTreeNode::inner_removal(mem, tree_root, right, slot, Ghost(fuel));
                return ImplicitRbTreeNodeRef::new(right);
            }
            return ImplicitRbTreeNode::remove(mem, tree_root, right, key, this + 3 * w, Ghost((fuel - 1) as nat));
        }
        let left = link_ref(node.left).unwrap().address();
        if ImplicitRbTreeNode::read(mem, left).key == key {
            ImplicitRbTreeNode::inner_removal(mem, tree_root, left, slot, Ghost(fuel));
            return ImplicitRbTreeNodeRef::new(left);
        }
        ImplicitRbTreeNode::remove(mem, tree_root, left, key, this + 2 * w, Ghost((fuel - 1) as nat))
    }
}

/// The node `find_approx_ge` returns for `approx_key` from the node at `n`
/// (zero for none): a node with a smaller key answers with its left child
/// when that child's key is exactly `approx_key`, with nothing when the
/// child's key is larger, and with itself otherwise; a node with an equal key
/// answers with itself, one with a larger key with nothing.
pub open spec fn find_approx_ge_spec(m: Map<usize, usize>, n: usize, approx_key: usize) -> usize {
    let l = left_at(m, n);
    if word_at(m, n) < approx_key {
        if l != 0 && word_at(m, l) >= approx_key {
            if word_at(m, l) == approx_key {
                l
            } else {
                0
            }
        } else {
            n
        }
    } else if word_at(m, n) == approx_key {
        n
    } else {
        0
    }
}

/// What `find_approx_ge` from the node at `n` needs: the node and, when its
/// key is smaller, its left child are at usable addresses.
pub open spec fn find_approx_ge_ok(m: Map<usize, usize>, n: usize, approx_key: usize) -> bool {
    &&& node_ok(n)
    &&& word_at(m, n) < approx_key && left_at(m, n) != 0 ==> node_ok(left_at(m, n))
}

impl ImplicitRbTreeNode {
    /// Looks for a node whose key is at least `approx_key`, starting at this
    /// node, which is stored at `this` (see [`find_approx_ge_spec`]).
    pub fn find_approx_ge(&self, mem: &Memory, this: usize, approx_key: usize) -> (r: Option<ImplicitRbTreeNodeRef>)
        requires
            *self == node_at(mem@, this),
            find_approx_ge_ok(mem@, this, approx_key),
        ensures
            opt_addr(r) == find_approx_ge_spec(mem@, this, approx_key),
            r is Some <==> find_approx_ge_spec(mem@, this, approx_key) != 0,
        decreases (if self.key < approx_key {
            1int
        } else {
            0int
        }),
    {
        if self.key < approx_key {
            if self.left != 0 {
                let node = ImplicitRbTreeNode::read(mem, self.left);
                if node.key >= approx_key {
                    return node.find_approx_ge(mem, self.left, approx_key);
                }
            }
            // just return this node as we are the smallest node that still satisfies the key's requirements
            return Some(ImplicitRbTreeNodeRef::new(this));
        }
        if self.key == approx_key {
            return Some(ImplicitRbTreeNodeRef::new(this));
        }
        None
    }
}

/// What removing `key` from the tree with root `root` needs: a root at a
/// usable address, and when it has a child, a removal free of faults.
pub open spec fn tree_remove_ok(root: Option<ImplicitRbTreeNodeRef>, m: Map<usize, usize>, key: usize) -> bool {
    match root {
        None => false,
        Some(r) => {
            &&& node_ok(r.addr())
            &&& (left_at(m, r.addr()) != 0 || right_at(m, r.addr()) != 0) ==> exists|fuel: nat|
                #[trigger] remove_run(m, r.addr(), r.addr(), key, 0, fuel).0
        },
    }
}

/// What removing `key` from the tree with root `root` gives: the memory, the
/// root word and the removed node. A root without children is taken out
/// whatever its key.
pub open spec fn tree_remove_result(root: Option<ImplicitRbTreeNodeRef>, m: Map<usize, usize>, key: usize) -> (Map<usize, usize>, usize, usize) {
    let ra = opt_addr(root);
    if left_at(m, ra) == 0 && right_at(m, ra) == 0 {
        (m, 0, ra)
    } else {
        let rr = remove_run(m, ra, ra, key, 0, choose|fuel: nat| #[trigger] remove_run(m, ra, ra, key, 0, fuel).0);
        (rr.1, rr.2, rr.3)
    }
}

impl ImplicitRbTree {
    /// Removes a node for `key` and returns it (see [`remove_run`]); a root
    /// without children is removed whatever its key. The tree must not be
    /// empty.
    pub fn remove(&mut self, mem: &mut Memory, key: usize) -> (r: Option<ImplicitRbTreeNodeRef>)
        requires
            tree_remove_ok(old(self).root_node(), old(mem)@, key),
        ensures
            final(mem)@ == tree_remove_result(old(self).root_node(), old(mem)@, key).0,
            opt_addr(final(self).root_node()) == tree_remove_result(old(self).root_node(), old(mem)@, key).1,
            final(self).root_node() is Some <==> tree_remove_result(old(self).root_node(), old(mem)@, key).1 != 0,
            r is Some,
            r.unwrap().addr() == tree_remove_result(old(self).root_node(), old(mem)@, key).2,
    {
        let root = self.root.unwrap();
        let root_node = ImplicitRbTreeNode::read(mem, root.address());
        if !root_node.has_children() {
            let taken = self.root;
            self.root = None;
            return taken;
        }
        let ghost fuel = choose|fuel: nat| #[trigger] remove_run(mem@, root.addr(), root.addr(), key, 0, fuel).0;
        let mut root_slot = self.root;
        let removed = ImplicitRbTreeNode::remove(mem, &mut root_slot, root.address(), key, 0, Ghost(fuel));
        self.root = root_slot;
        Some(removed)
    }

    /// Looks for a node whose key is at least `approx_key`, starting at the
    /// root (see [`find_approx_ge_spec`]).
    pub fn find_approx_ge(&self, mem: &Memory, approx_key: usize) -> (r: Option<ImplicitRbTreeNodeRef>)
        requires
            self.root_node() is Some ==> find_approx_ge_ok(mem@, self.root_node().unwrap().addr(), approx_key),
        ensures
            self.root_node() is None ==> r is None,
            self.root_node() is Some ==> {
                &&& opt_addr(r) == find_approx_ge_spec(mem@, self.root_node().unwrap().addr(), approx_key)
                &&& (r is Some <==> find_approx_ge_spec(mem@, self.root_node().unwrap().addr(), approx_key) != 0)
            },
    {
        match self.root {
            None => None,
            Some(node) => ImplicitRbTreeNode::read(mem, node.address()).find_approx_ge(mem, node.address(), approx_key),
        }
    }
}

/// Rotating a left child `x` right over its parent and then rotating the
/// parent back left over `x` restores every word of memory, when `x` and
/// its right child are red (their parent words are plain addresses) and the
/// nodes involved are apart.
pub proof fn lemma_rotate_right_then_left(m: Map<usize, usize>, x: usize)
    requires
        rotate_right_ok(m, x),
        parent_word(m, x) != 0,
        left_at(m, parent_word(m, x)) == x,
        right_at(m, x) != 0 ==> parent_word(m, right_at(m, x)) == x,
        right_at(m, x) != 0 ==> apart(right_at(m, x), parent_word(m, x)),
        parent_word(m, parent_word(m, x)) != 0 ==> {
            let g = parent_word(m, parent_word(m, x));
            &&& right_at(m, x) != 0 ==> apart(g, right_at(m, x))
            &&& right_at(m, g) != x
            &&& left_at(m, g) != x
        },
        rotate_left_ok(rotate_right_spec(m, x), parent_word(m, x)),
    ensures
        forall|a: usize|
            word_at(rotate_left_spec(rotate_right_spec(m, x), parent_word(m, x)), a) == word_at(m, a),
{
    let p = parent_word(m, x);
    let r = right_at(m, x);
    let g = parent_word(m, p);
    lemma_fields(x);
    lemma_fields(p);
    if r != 0 {
        lemma_fields(r);
    }
    if g != 0 {
        lemma_fields(g);
    }
    let m1 = rotate_right_spec(m, x);
    assert(parent_word(m1, p) == x);
    assert(left_at(m1, p) == r);
    assert(parent_word(m1, x) == g);
    let m2 = rotate_left_spec(m1, p);
    assert forall|a: usize| word_at(m2, a) == word_at(m, a) by {
        if a == fld(x, 1) || a == fld(x, 3) || a == fld(p, 1) || a == fld(p, 2) {
        } else if r != 0 && a == fld(r, 1) {
        } else if g != 0 && (a == fld(g, 2) || a == fld(g, 3)) {
        } else {
        }
    }
}

/// Two node references are equal exactly when they hold the same address.
pub proof fn lemma_node_ref_eq(a: ImplicitRbTreeNodeRef, b: ImplicitRbTreeNodeRef)
    ensures
        (a == b) == (a.addr() == b.addr()),
{
}

/// The nodes a rotation of `x` over its parent touches do not overlap: the
/// moved child (`child`, the right one for `rotate_right` and the left one
/// for `rotate_left`) is apart from the parent and the grandparent.
pub open spec fn rotation_apart(m: Map<usize, usize>, x: usize, child: usize) -> bool {
    &&& parent_word(m, x) != 0
    &&& child != 0 ==> apart(child, parent_word(m, x))
    &&& child != 0 && parent_word(m, parent_word(m, x)) != 0 ==> apart(
        child,
        parent_word(m, parent_word(m, x)),
    )
}

/// What `rotate_right` of a node `x` with a parent does, from `m` to `m2`:
/// `x` takes its parent's place under the grandparent (and the parent's
/// parent word), the parent becomes `x`'s right child, and `x`'s former
/// right child moves over to be the parent's left child. Keys and the other
/// links stay.
pub open spec fn rotate_right_effect(m: Map<usize, usize>, x: usize, m2: Map<usize, usize>) -> bool {
    let p = parent_word(m, x);
    let r = right_at(m, x);
    let g = parent_word(m, p);
    &&& right_at(m2, x) == p
    &&& left_at(m2, x) == left_at(m, x)
    &&& parent_word(m2, x) == g
    &&& left_at(m2, p) == r
    &&& right_at(m2, p) == right_at(m, p)
    &&& parent_word(m2, p) == x
    &&& word_at(m2, x) == word_at(m, x)
    &&& word_at(m2, p) == word_at(m, p)
    &&& r != 0 ==> parent_word(m2, r) == p
    &&& g != 0 && right_at(m, g) == p ==> right_at(m2, g) == x && left_at(m2, g) == left_at(m, g)
    &&& g != 0 && right_at(m, g) != p ==> left_at(m2, g) == x && right_at(m2, g) == right_at(m, g)
}

/// What `rotate_left` of a node `x` with a parent does, from `m` to `m2`: the
/// mirror image of [`rotate_right_effect`]; the parent becomes `x`'s left
/// child and `x`'s former left child moves over to be the parent's right
/// child.
pub open spec fn rotate_left_effect(m: Map<usize, usize>, x: usize, m2: Map<usize, usize>) -> bool {
    let p = parent_word(m, x);
    let l = left_at(m, x);
    let g = parent_word(m, p);
    &&& left_at(m2, x) == p
    &&& right_at(m2, x) == right_at(m, x)
    &&& parent_word(m2, x) == g
    &&& right_at(m2, p) == l
    &&& left_at(m2, p) == left_at(m, p)
    &&& parent_word(m2, p) == x
    &&& word_at(m2, x) == word_at(m, x)
    &&& word_at(m2, p) == word_at(m, p)
    &&& l != 0 ==> parent_word(m2, l) == p
    &&& g != 0 && right_at(m, g) == p ==> right_at(m2, g) == x && left_at(m2, g) == left_at(m, g)
    &&& g != 0 && right_at(m, g) != p ==> left_at(m2, g) == x && right_at(m2, g) == right_at(m, g)
}

/// `rotate_right_spec` has the effect [`rotate_right_effect`] describes
/// when the nodes it touches do not overlap.
pub proof fn lemma_rotate_right_effect(m: Map<usize, usize>, x: usize)
    requires
        rotate_right_ok(m, x),
        rotation_apart(m, x, right_at(m, x)),
    ensures
        rotate_right_effect(m, x, rotate_right_spec(m, x)),
{
    let p = parent_word(m, x);
    let r = right_at(m, x);
    lemma_fields(x);
    lemma_fields(p);
    if r != 0 {
        lemma_fields(r);
    }
    let g = parent_word(m, p);
    if g != 0 {
        lemma_fields(g);
    }
}

/// `rotate_left_spec` has the effect [`rotate_left_effect`] describes when
/// the nodes it touches do not overlap.
pub proof fn lemma_rotate_left_effect(m: Map<usize, usize>, x: usize)
    requires
        rotate_left_ok(m, x),
        rotation_apart(m, x, left_at(m, x)),
    ensures
        rotate_left_effect(m, x, rotate_left_spec(m, x)),
{
    let p = parent_word(m, x);
    let l = left_at(m, x);
    lemma_fields(x);
    lemma_fields(p);
    if l != 0 {
        lemma_fields(l);
    }
    let g = parent_word(m, p);
    if g != 0 {
        lemma_fields(g);
    }
}

/// Removing a node that has at most one child puts that child (or nothing,
/// for a leaf) into the updated link and changes nothing else: no subtree of
/// the removed node is lost.
pub proof fn lemma_inner_removal_keeps_only_child(
    m: Map<usize, usize>,
    root: usize,
    node: usize,
    slot: usize,
    fuel: nat,
)
    requires
        left_at(m, node) == 0 || right_at(m, node) == 0,
    ensures
        ({
            let child = if left_at(m, node) != 0 {
                left_at(m, node)
            } else {
                right_at(m, node)
            };
            let ir = inner_removal_spec(m, root, node, slot, fuel);
            &&& ir.0
            &&& slot == 0 ==> ir.2 == child && ir.1 == m
            &&& slot != 0 ==> ir.1 == m.insert(slot, child) && ir.2 == root
            &&& slot != 0 ==> word_at(ir.1, slot) == child
        }),
{
}

/// The nodes `s` form a linked shape in `m`: each is at a usable address,
/// they do not overlap, none is its own parent, a node's parent and children
/// are nodes of `s` (or zero), and a node with a parent is one of that
/// parent's children.
pub open spec fn tree_shape(m: Map<usize, usize>, s: Set<usize>) -> bool {
    &&& forall|n: usize| #[trigger] s.contains(n) ==> node_ok(n) && parent_at(m, n) != n
    &&& forall|a: usize, b: usize| #[trigger] s.contains(a) && #[trigger] s.contains(b) && a != b ==> apart(a, b)
    &&& forall|n: usize|
        #[trigger] s.contains(n) && parent_at(m, n) != 0 ==> s.contains(parent_at(m, n)) && (left_at(
            m,
            parent_at(m, n),
        ) == n || right_at(m, parent_at(m, n)) == n)
    &&& forall|n: usize| #[trigger] s.contains(n) && left_at(m, n) != 0 ==> s.contains(left_at(m, n))
    &&& forall|n: usize| #[trigger] s.contains(n) && right_at(m, n) != 0 ==> s.contains(right_at(m, n))
}

/// No red node of `s` other than `except` has a red parent.
pub open spec fn red_parent_free_except(m: Map<usize, usize>, s: Set<usize>, except: usize) -> bool {
    forall|n: usize|
        #[trigger] s.contains(n) && n != except && !black_at(m, n) && parent_at(m, n) != 0 ==> black_at(
            m,
            parent_at(m, n),
        )
}

/// No red node of `s` has a red parent.
pub open spec fn red_parent_free(m: Map<usize, usize>, s: Set<usize>) -> bool {
    forall|n: usize|
        #[trigger] s.contains(n) && !black_at(m, n) && parent_at(m, n) != 0 ==> black_at(m, parent_at(m, n))
}

/// At `curr`, the parent is missing or black, or the uncle is a red node:
/// the cases the recolouring handles without rotating.
pub open spec fn parent_black_or_uncle_red(m: Map<usize, usize>, curr: usize) -> bool {
    let p = parent_at(m, curr);
    let g = parent_at(m, p);
    let u = if right_at(m, g) == p {
        left_at(m, g)
    } else {
        right_at(m, g)
    };
    p == 0 || black_at(m, p) || (u != 0 && !black_at(m, u))
}

/// Every pass of the recolouring loop from `curr`, within `fuel` passes,
/// meets a missing or black parent or a red uncle.
pub open spec fn recolor_without_rotation(m: Map<usize, usize>, curr: usize, fuel: nat) -> bool
    decreases fuel,
{
    let st = recolor_step(m, curr);
    &&& parent_black_or_uncle_red(m, curr)
    &&& st.0 && st.2 != 0 && fuel > 0 ==> recolor_without_rotation(st.1, st.2, (fuel - 1) as nat)
}

/// Colouring a node of a linked shape changes only that node's colour: every
/// parent, child and other colour stays, and so does the shape.
pub proof fn lemma_paint_frame(m: Map<usize, usize>, s: Set<usize>, n: usize, color: Color)
    requires
        tree_shape(m, s),
        s.contains(n),
    ensures
        tree_shape(set_color_at(m, n, color), s),
        black_at(set_color_at(m, n, color), n) == (color == Color::Black),
        forall|k: usize|
            #[trigger] s.contains(k) ==> parent_at(set_color_at(m, n, color), k) == parent_at(m, k)
                && left_at(set_color_at(m, n, color), k) == left_at(m, k) && right_at(
                set_color_at(m, n, color),
                k,
            ) == right_at(m, k) && (k != n ==> black_at(set_color_at(m, n, color), k) == black_at(m, k)),
{
    let m2 = set_color_at(m, n, color);
    lemma_color_word(parent_word(m, n), color);
    lemma_fields(n);
    assert forall|k: usize| #[trigger] s.contains(k) implies parent_at(m2, k) == parent_at(m, k) && left_at(
        m2,
        k,
    ) == left_at(m, k) && right_at(m2, k) == right_at(m, k) && (k != n ==> black_at(m2, k) == black_at(
        m,
        k,
    )) by {
        lemma_fields(k);
        if k != n {
            assert(apart(k, n));
        }
    }
}

/// One pass of the recolouring loop that meets a missing or black parent or
/// a red uncle keeps the shape, and moves the only red node with a red parent
/// up to where the loop goes on; when the loop ends there is none.
pub proof fn lemma_recolor_step_red_parent_free(m: Map<usize, usize>, curr: usize, s: Set<usize>)
    requires
        tree_shape(m, s),
        s.contains(curr),
        red_parent_free_except(m, s, curr),
        recolor_step(m, curr).0,
        parent_black_or_uncle_red(m, curr),
    ensures
        tree_shape(recolor_step(m, curr).1, s),
        recolor_step(m, curr).2 == 0 ==> red_parent_free(recolor_step(m, curr).1, s),
        recolor_step(m, curr).2 != 0 ==> s.contains(recolor_step(m, curr).2) && red_parent_free_except(
            recolor_step(m, curr).1,
            s,
            recolor_step(m, curr).2,
        ),
{
    let p = parent_at(m, curr);
    let g = parent_at(m, p);
    let u = if right_at(m, g) == p {
        left_at(m, g)
    } else {
        right_at(m, g)
    };
    if p == 0 || black_at(m, p) {
        assert forall|n: usize|
            #[trigger] s.contains(n) && !black_at(m, n) && parent_at(m, n) != 0 implies black_at(
            m,
            parent_at(m, n),
        ) by {}
        return;
    }
    assert(s.contains(p));
    assert(s.contains(g));
    assert(s.contains(u));
    let m1 = set_color_at(m, p, Color::Black);
    lemma_paint_frame(m, s, p, Color::Black);
    let m2 = set_color_at(m1, u, Color::Black);
    lemma_paint_frame(m1, s, u, Color::Black);
    assert(parent_at(m2, p) == g);
    let m3 = set_color_at(m2, g, Color::Red);
    lemma_paint_frame(m2, s, g, Color::Red);
    assert(recolor_step(m, curr).1 == m3);
    assert(recolor_step(m, curr).2 == g);
    assert(black_at(m3, p) || p == g);
    assert(p != g);
    assert(black_at(m3, p));
    assert(u == g || black_at(m3, u));
    assert forall|n: usize|
        #[trigger] s.contains(n) && n != g && !black_at(m3, n) && parent_at(m3, n) != 0 implies black_at(
        m3,
        parent_at(m3, n),
    ) by {
        let q = parent_at(m, n);
        assert(parent_at(m3, n) == q);
        assert(n != p);
        assert(n != u);
        assert(!black_at(m, n));
        if q == g {
            assert(left_at(m, g) == n || right_at(m, g) == n);
            assert(false);
        } else if q == p || q == u {
        } else {
            assert(s.contains(q));
            if n == curr {
                assert(false);
            }
            assert(black_at(m, q));
        }
    }
}

/// The recolouring loop from `curr`, ending within `fuel` passes and meeting
/// a missing or black parent or a red uncle at each pass, leaves no red node
/// with a red parent in a shape where `curr` was the only one.
pub proof fn lemma_recolor_run_red_parent_free(m: Map<usize, usize>, curr: usize, s: Set<usize>, fuel: nat)
    requires
        tree_shape(m, s),
        s.contains(curr),
        red_parent_free_except(m, s, curr),
        recolor_run(m, curr, fuel).0,
        recolor_without_rotation(m, curr, fuel),
    ensures
        tree_shape(recolor_run(m, curr, fuel).1, s),
        red_parent_free(recolor_run(m, curr, fuel).1, s),
    decreases fuel,
{
    let st = recolor_step(m, curr);
    lemma_recolor_step_red_parent_free(m, curr, s);
    if st.2 != 0 {
        lemma_recolor_run_red_parent_free(st.1, st.2, s, (fuel - 1) as nat);
    }
}

/// Recolouring after linking in a red node keeps red nodes from having red
/// parents: in a shape of nodes where the new node at `node` is the only red
/// node with a red parent, and where each pass meets a missing or black
/// parent or a red uncle, no red node has a red parent afterwards.
pub proof fn lemma_recolor_node_red_parent_free(m: Map<usize, usize>, node: usize, root: usize, s: Set<usize>)
    requires
        recolor_ok(m, node, root),
        tree_shape(m, s),
        s.contains(node),
        s.contains(root),
        red_parent_free_except(m, s, node),
        recolor_without_rotation(m, node, recolor_fuel(m, node)),
    ensures
        tree_shape(recolor_result(m, node, root), s),
        red_parent_free(recolor_result(m, node, root), s),
{
    let fuel = recolor_fuel(m, node);
    lemma_recolor_run_red_parent_free(m, node, s, fuel);
    let m1 = recolor_run(m, node, fuel).1;
    lemma_paint_frame(m1, s, root, Color::Black);
}

} // verus!
