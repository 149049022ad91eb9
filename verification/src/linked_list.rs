//! An intrusive singly linked list of words: each node is two words in
//! memory, the value followed by the address of the next node (zero at the
//! end).
use vstd::prelude::*;
use crate::memory::{Memory, wsize, word_size, word_at, lemma_word_size, lemma_aligned};

verus! {

/// The node at `a` occupies the two words `a` and `a + wsize()`, both
/// addressable.
pub open spec fn node_addr_ok(a: usize) -> bool {
    &&& a != 0
    &&& a % wsize() == 0
    &&& a + 2 * wsize() <= usize::MAX
}

/// The two-word nodes at `a` and `b` do not overlap.
pub open spec fn nodes_apart(a: usize, b: usize) -> bool {
    a + 2 * wsize() <= b || b + 2 * wsize() <= a
}

/// The node addresses in `nodes` are usable and pairwise apart.
pub open spec fn nodes_ok(nodes: Seq<usize>) -> bool {
    &&& forall|i: int| 0 <= i < nodes.len() ==> node_addr_ok(#[trigger] nodes[i])
    &&& forall|i: int, j: int|
        0 <= i < nodes.len() && 0 <= j < nodes.len() && i != j ==> nodes_apart(
            #[trigger] nodes[i],
            #[trigger] nodes[j],
        )
}

/// In `m`, each node of `nodes` links to the next one and the last links to
/// zero.
pub open spec fn links_in(m: Map<usize, usize>, nodes: Seq<usize>) -> bool {
    forall|i: int|
        0 <= i < nodes.len() ==> word_at(m, (#[trigger] nodes[i] + wsize()) as usize) == if i + 1
            < nodes.len() {
            nodes[i + 1]
        } else {
            0
        }
}

/// A push of the node at `node_addr` took the list from `before` to
/// `after`: the node came in front.
pub open spec fn pushed(before: LinkedList, after: LinkedList, node_addr: usize) -> bool {
    after.nodes() == seq![node_addr].add(before.nodes())
}

/// A pop that returned `r` took the list from `before` to `after`: an empty
/// list stays as it is and gives zero, any other loses its first node and
/// gives it.
pub open spec fn popped(before: LinkedList, after: LinkedList, r: usize) -> bool {
    &&& before.nodes().len() == 0 ==> r == 0 && after.nodes() == before.nodes()
    &&& before.nodes().len() > 0 ==> r == before.nodes()[0] && after.nodes()
        == before.nodes().drop_first()
}

/// One call on a list: a push of the node at the given address, or a pop
/// that returned the given value.
#[derive(Clone, Copy, Debug, PartialEq, Eq, Structural)]
pub enum ListCall {
    Push(usize),
    Pop(usize),
}

/// The call `c` took the list from `before` to `after`.
pub open spec fn list_call(before: LinkedList, after: LinkedList, c: ListCall) -> bool {
    match c {
        ListCall::Push(a) => pushed(before, after, a),
        ListCall::Pop(r) => popped(before, after, r),
    }
}

/// The pushes among `calls` less the pops that returned a node.
pub open spec fn net_pushes(calls: Seq<ListCall>) -> int
    decreases calls.len(),
{
    if calls.len() == 0 {
        0
    } else {
        net_pushes(calls.drop_last()) + match calls.last() {
            ListCall::Push(_) => 1int,
            ListCall::Pop(r) => if r != 0 {
                -1int
            } else {
                0int
            },
        }
    }
}

/// A stack of nodes threaded through memory.
pub struct LinkedList {
    root: usize,
    len: usize,
    nodes: Ghost<Seq<usize>>,
}

impl LinkedList {
    /// The node addresses, first node first.
    pub closed spec fn nodes(self) -> Seq<usize> {
        self.nodes@
    }

    /// The counter and the first node agree with the node sequence.
    #[verifier::type_invariant]
    spec fn counted(self) -> bool {
        &&& self.len == self.nodes@.len()
        &&& self.root == if self.len > 0 {
            self.nodes@[0]
        } else {
            0
        }
    }

    /// The list is linked up in `mem` as its node sequence says.
    pub open spec fn wf(self, mem: Map<usize, usize>) -> bool {
        &&& nodes_ok(self.nodes())
        &&& links_in(mem, self.nodes())
    }

    /// The values held, first node first.
    pub open spec fn values(self, mem: Map<usize, usize>) -> Seq<usize> {
        self.nodes().map_values(|a: usize| word_at(mem, a))
    }

    /// The empty list.
    pub fn new() -> (r: Self)
        ensures
            r.nodes() == Seq::<usize>::empty(),
            forall|m: Map<usize, usize>| r.wf(m),
    {
        LinkedList { root: 0, len: 0, nodes: Ghost(Seq::empty()) }
    }

    /// Makes the two words at `node_addr` the new first node, holding `val`.
    pub fn push(&mut self, mem: &mut Memory, node_addr: usize, val: usize)
        requires
            old(self).wf(old(mem)@),
            node_addr_ok(node_addr),
            forall|i: int|
                0 <= i < old(self).nodes().len() ==> nodes_apart(
                    node_addr,
                    #[trigger] old(self).nodes()[i],
                ),
            old(self).nodes().len() < usize::MAX,
        ensures
            final(self).wf(final(mem)@),
            pushed(*old(self), *final(self), node_addr),
            final(mem)@ == old(mem)@.insert(node_addr, val).insert(
                (node_addr + wsize()) as usize,
                if old(self).nodes().len() > 0 {
                    old(self).nodes()[0]
                } else {
                    0
                },
            ),
    {
        proof {
            lemma_word_size();
            lemma_aligned(node_addr as int, wsize() as int);
        }
        proof {
            use_type_invariant(&*self);
        }
        let ghost old_nodes = self.nodes@;
        mem.write(node_addr, val);
        mem.write(node_addr + word_size(), self.root);
        *self = LinkedList {
            root: node_addr,
            len: self.len + 1,
            nodes: Ghost(seq![node_addr].add(old_nodes)),
        };
        proof {
            let nodes = self.nodes@;
            assert forall|i: int| 0 <= i < nodes.len() implies node_addr_ok(#[trigger] nodes[i]) by {
                if i > 0 {
                    assert(nodes[i] == old_nodes[i - 1]);
                }
            }
            assert forall|i: int, j: int|
                0 <= i < nodes.len() && 0 <= j < nodes.len() && i != j implies nodes_apart(
                #[trigger] nodes[i],
                #[trigger] nodes[j],
            ) by {
                if i > 0 && j > 0 {
                    assert(nodes[i] == old_nodes[i - 1]);
                    assert(nodes[j] == old_nodes[j - 1]);
                } else if i == 0 {
                    assert(nodes[j] == old_nodes[j - 1]);
                } else {
                    assert(nodes[i] == old_nodes[i - 1]);
                }
            }
            assert forall|i: int| 0 <= i < nodes.len() implies word_at(
                mem@,
                (#[trigger] nodes[i] + wsize()) as usize,
            ) == if i + 1 < nodes.len() {
                nodes[i + 1]
            } else {
                0
            } by {
                if i > 0 {
                    assert(nodes[i] == old_nodes[i - 1]);
                    assert(nodes_apart(node_addr, old_nodes[i - 1]));
                    assert(word_at(old(mem)@, (old_nodes[i - 1] + wsize()) as usize) == if i
                        < old_nodes.len() {
                        old_nodes[i]
                    } else {
                        0
                    });
                }
            }
        }
    }

    /// Unlinks the first node and returns its address, or returns zero when
    /// the list is empty. Memory is not written.
    pub fn pop_front(&mut self, mem: &Memory) -> (r: usize)
        requires
            old(self).wf(mem@),
        ensures
            final(self).wf(mem@),
            popped(*old(self), *final(self), r),
    {
        proof {
            use_type_invariant(&*self);
        }
        if self.root == 0 {
            return 0;
        }
        proof {
            lemma_word_size();
            lemma_aligned(self.root as int, wsize() as int);
        }
        let ret = self.root;
        let ghost old_nodes = self.nodes@;
        let next = mem.read(ret + word_size());
        *self = LinkedList { root: next, len: self.len - 1, nodes: Ghost(old_nodes.drop_first()) };
        proof {
            let nodes = self.nodes@;
            assert forall|i: int| 0 <= i < nodes.len() implies node_addr_ok(#[trigger] nodes[i]) by {
                assert(nodes[i] == old_nodes[i + 1]);
            }
            assert forall|i: int, j: int|
                0 <= i < nodes.len() && 0 <= j < nodes.len() && i != j implies nodes_apart(
                #[trigger] nodes[i],
                #[trigger] nodes[j],
            ) by {
                assert(nodes[i] == old_nodes[i + 1]);
                assert(nodes[j] == old_nodes[j + 1]);
            }
            assert forall|i: int| 0 <= i < nodes.len() implies word_at(
                mem@,
                (#[trigger] nodes[i] + wsize()) as usize,
            ) == if i + 1 < nodes.len() {
                nodes[i + 1]
            } else {
                0
            } by {
                assert(nodes[i] == old_nodes[i + 1]);
            }
        }
        ret
    }

    /// Whether the list holds no node.
    pub fn is_empty(&self) -> (r: bool)
        ensures
            r == (self.nodes().len() == 0),
    {
        self.len() == 0
    }

    /// The number of nodes.
    pub fn len(&self) -> (r: usize)
        ensures
            r == self.nodes().len(),
    {
        proof {
            use_type_invariant(&*self);
        }
        self.len
    }
}

/// Links of the list survive any write that avoids the nodes' link words.
pub proof fn lemma_list_frame(l: LinkedList, m1: Map<usize, usize>, m2: Map<usize, usize>)
    requires
        l.wf(m1),
        forall|i: int|
            0 <= i < l.nodes().len() ==> word_at(m2, (#[trigger] l.nodes()[i] + wsize()) as usize)
                == word_at(m1, (l.nodes()[i] + wsize()) as usize),
    ensures
        l.wf(m2),
{
    assert forall|i: int| 0 <= i < l.nodes().len() implies word_at(
        m2,
        (#[trigger] l.nodes()[i] + wsize()) as usize,
    ) == if i + 1 < l.nodes().len() {
        l.nodes()[i + 1]
    } else {
        0
    } by {
        assert(word_at(m2, (l.nodes()[i] + wsize()) as usize) == word_at(
            m1,
            (l.nodes()[i] + wsize()) as usize,
        ));
    }
}

/// A pushed node is the next one popped, and popping it restores the list.
pub proof fn lemma_push_then_pop(before: LinkedList, after_push: LinkedList, node_addr: usize)
    requires
        after_push.nodes() == seq![node_addr].add(before.nodes()),
    ensures
        after_push.nodes().len() > 0,
        after_push.nodes()[0] == node_addr,
        after_push.nodes().drop_first() == before.nodes(),
{
    assert(after_push.nodes().drop_first() =~= before.nodes());
}

/// A list reached from the empty list by a sequence of pushes and pops holds
/// as many nodes as there were pushes less pops that returned a node:
/// `states[i + 1]` is the list after call `calls[i]` on `states[i]`.
pub proof fn lemma_len_counts_calls(states: Seq<LinkedList>, calls: Seq<ListCall>)
    requires
        states.len() == calls.len() + 1,
        states[0].nodes().len() == 0,
        forall|i: int| 0 <= i < calls.len() ==> list_call(states[i], states[i + 1], #[trigger] calls[i]),
        forall|i: int| 0 <= i < states.len() ==> nodes_ok(#[trigger] states[i].nodes()),
    ensures
        states.last().nodes().len() == net_pushes(calls),
    decreases calls.len(),
{
    if calls.len() > 0 {
        let k = calls.len() - 1;
        lemma_len_counts_calls(states.drop_last(), calls.drop_last());
        assert(states.drop_last().last() == states[k]);
        assert(list_call(states[k], states[k + 1], calls[k]));
        assert(nodes_ok(states[k].nodes()));
        if states[k].nodes().len() > 0 {
            assert(node_addr_ok(states[k].nodes()[0]));
        }
    }
}

} // verus!
