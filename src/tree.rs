use vstd::prelude::*;

use std::collections::VecDeque;

verus! {

/// A node holding one value and an ordered sequence of owned subtrees.
pub struct Tree<T> {
    pub value: T,
    pub children: Vec<Tree<T>>,
}

/// Number of nodes in a tree.
pub open spec fn size<T>(t: Tree<T>) -> nat
    decreases t, 1nat,
{
    1 + sizes(t.children@)
}

/// Total number of nodes in a sequence of trees.
pub open spec fn sizes<T>(s: Seq<Tree<T>>) -> nat
    decreases s, 0nat,
{
    if s.len() == 0 {
        0
    } else {
        sizes(s.subrange(0, s.len() - 1)) + size(s[s.len() - 1])
    }
}

pub proof fn lemma_sizes_concat<T>(a: Seq<Tree<T>>, b: Seq<Tree<T>>)
    ensures
        sizes(a + b) == sizes(a) + sizes(b),
    decreases b.len(),
{
    if b.len() == 0 {
        assert(a + b =~= a);
    } else {
        let ab = a + b;
        assert(ab.subrange(0, ab.len() - 1) =~= a + b.subrange(0, b.len() - 1));
        assert(ab[ab.len() - 1] == b[b.len() - 1]);
        lemma_sizes_concat(a, b.subrange(0, b.len() - 1));
    }
}

pub proof fn lemma_sizes_first<T>(q: Seq<Tree<T>>)
    requires
        q.len() > 0,
    ensures
        sizes(q) == size(q[0]) + sizes(q.drop_first()),
{
    let one = seq![q[0]];
    assert(q =~= one + q.drop_first());
    lemma_sizes_concat(one, q.drop_first());
    assert(one.subrange(0, 0) =~= Seq::<Tree<T>>::empty());
    assert(sizes(one) == sizes(Seq::<Tree<T>>::empty()) + size(q[0]));
}

/// Dequeuing the front node and enqueuing its children removes exactly one node
/// from the work left.
pub proof fn lemma_queue_step<T>(q: Seq<Tree<T>>)
    requires
        q.len() > 0,
    ensures
        sizes(q.drop_first() + q[0].children@) + 1 == sizes(q),
{
    lemma_sizes_first(q);
    lemma_sizes_concat(q.drop_first(), q[0].children@);
}

/// Breadth-first order of the nodes reachable from a FIFO queue of trees: the
/// front node comes first, then its children join the back of the queue.
pub open spec fn bfs<T>(q: Seq<Tree<T>>) -> Seq<Tree<T>>
    decreases sizes(q),
{
    if q.len() == 0 {
        seq![]
    } else {
        proof {
            lemma_queue_step(q);
        }
        seq![q[0]] + bfs(q.drop_first() + q[0].children@)
    }
}

/// Every node of the tree in level order: the root, then each level left to right.
pub open spec fn level_order<T>(t: Tree<T>) -> Seq<Tree<T>> {
    bfs(seq![t])
}

/// The values of `level_order(t)`, in the same order.
pub open spec fn level_values<T>(t: Tree<T>) -> Seq<T> {
    level_order(t).map_values(|n: Tree<T>| n.value)
}

/// The number of children of each node of `level_order(t)`, in the same order.
pub open spec fn child_counts<T>(t: Tree<T>) -> Seq<usize> {
    level_order(t).map_values(|n: Tree<T>| n.children@.len() as usize)
}

/// A breadth-first walk over a tree: a FIFO queue of the nodes still to visit.
pub struct Nodes<'a, T> {
    queue: VecDeque<&'a Tree<T>>,
}

impl<'a, T> Nodes<'a, T> {
    /// The trees still queued, front first.
    pub closed spec fn pending(&self) -> Seq<Tree<T>> {
        deref_all(self.queue@)
    }

    /// A walk that starts at `root`.
    pub fn start(root: &'a Tree<T>) -> (r: Nodes<'a, T>)
        ensures
            r.pending() == seq![*root],
    {
        let mut queue: VecDeque<&'a Tree<T>> = VecDeque::new();
        queue.push_back(root);
        let r = Nodes { queue };
        proof {
            assert(r.pending() =~= seq![*root]);
        }
        r
    }

    /// The next node in level order: the front of the queue, whose children
    /// join the back of the queue. `None` once the queue is empty.
    pub fn next(&mut self) -> (r: Option<&'a Tree<T>>)
        ensures
            old(self).pending().len() == 0 ==> r is None && final(self).pending() == old(
                self,
            ).pending(),
            old(self).pending().len() > 0 ==> r is Some && *r->0 == old(self).pending()[0]
                && final(self).pending() == old(self).pending().drop_first() + old(
                self,
            ).pending()[0].children@,
    {
        let ghost start = self.pending();
        match self.queue.pop_front() {
            None => None,
            Some(node) => {
                proof {
                    assert(self.pending() =~= start.drop_first());
                }
                let mut j: usize = 0;
                while j < node.children.len()
                    invariant
                        j <= node.children@.len(),
                        start.len() > 0,
                        *node == start[0],
                        self.pending() == start.drop_first() + node.children@.subrange(0, j as int),
                    decreases node.children@.len() - j,
                {
                    let ghost prev = self.queue@;
                    let child: &'a Tree<T> = &node.children[j];
                    self.queue.push_back(child);
                    proof {
                        assert(deref_all(self.queue@) =~= deref_all(prev).push(*child));
                        assert(node.children@.subrange(0, j + 1) =~= node.children@.subrange(
                            0,
                            j as int,
                        ).push(node.children@[j as int]));
                    }
                    j += 1;
                }
                proof {
                    assert(node.children@.subrange(0, j as int) =~= node.children@);
                }
                Some(node)
            },
        }
    }
}

/// The values behind a sequence of references.
pub open spec fn deref_all<A>(s: Seq<&A>) -> Seq<A> {
    s.map_values(|r: &A| *r)
}

impl<T> Tree<T> {
    /// A node with the given value over the given subtrees.
    pub fn new(value: T, children: Vec<Tree<T>>) -> (r: Tree<T>)
        ensures
            r.value == value,
            r.children == children,
    {
        Tree { value, children }
    }

    /// References to every node, root first, then each level left to right.
    pub fn nodes(&self) -> (r: Vec<&Tree<T>>)
        ensures
            deref_all(r@) == level_order(*self),
    {
        let mut it = Nodes::start(self);
        let mut out: Vec<&Tree<T>> = Vec::new();
        proof {
            assert(deref_all(out@) + bfs(it.pending()) =~= level_order(*self));
        }
        loop
            invariant
                deref_all(out@) + bfs(it.pending()) == level_order(*self),
            ensures
                deref_all(out@) == level_order(*self),
            decreases sizes(it.pending()),
        {
            let ghost q = it.pending();
            match it.next() {
                Some(node) => {
                    let ghost prev = out@;
                    out.push(node);
                    proof {
                        lemma_queue_step(q);
                        assert(deref_all(out@) =~= deref_all(prev) + seq![*node]);
                    }
                },
                None => {
                    proof {
                        assert(deref_all(out@) + bfs(q) =~= deref_all(out@));
                    }
                    break ;
                },
            }
        }
        out
    }

    /// References to every value, in the order of `nodes`.
    pub fn values(&self) -> (r: Vec<&T>)
        ensures
            deref_all(r@) == level_values(*self),
    {
        let nodes = self.nodes();
        let mut out: Vec<&T> = Vec::new();
        let mut i: usize = 0;
        while i < nodes.len()
            invariant
                i <= nodes@.len(),
                out@.len() == i,
                deref_all(nodes@) == level_order(*self),
                deref_all(out@) == deref_all(nodes@).subrange(0, i as int).map_values(|n: Tree<T>| n.value),
            decreases nodes@.len() - i,
        {
            let ghost prev = out@;
            let v: &T = &nodes[i].value;
            out.push(v);
            proof {
                assert(deref_all(out@) =~= deref_all(prev).push(*v));
                assert(deref_all(nodes@).subrange(0, i + 1) =~= deref_all(nodes@).subrange(
                    0,
                    i as int,
                ).push(*nodes@[i as int]));
            }
            i += 1;
            proof {
                assert(deref_all(out@) =~= deref_all(nodes@).subrange(0, i as int).map_values(|n: Tree<T>| n.value));
            }
        }
        proof {
            assert(deref_all(nodes@).subrange(0, i as int) =~= deref_all(nodes@));
        }
        out
    }
}

} // verus!
