use vstd::prelude::*;

use crate::digest::{shape_digest, tree_digest, value_digest, value_hashes, xor_all, IO};
use crate::listing::{is_dir_node, kept, Entry};
use crate::tree::{bfs, child_counts, level_order, lemma_queue_step, size, sizes, Tree};

verus! {

/// Dropping the `j`-th word from a XOR removes exactly that word from the result.
pub proof fn lemma_xor_all_remove(s: Seq<u64>, j: int)
    requires
        0 <= j < s.len(),
    ensures
        xor_all(s) == xor_all(s.remove(j)) ^ s[j],
    decreases s.len(),
{
    let r = s.remove(j);
    if j == s.len() - 1 {
        assert(r =~= s.drop_last());
    } else {
        let d = s.drop_last();
        assert(r.drop_last() =~= d.remove(j));
        assert(r.last() == s.last());
        lemma_xor_all_remove(d, j);
        let a = xor_all(d.remove(j));
        let b = s[j];
        let c = s.last();
        assert((a ^ b) ^ c == (a ^ c) ^ b) by (bit_vector);
    }
}

/// The XOR of a sequence of words does not depend on their order: any two
/// sequences that hold the same words, as many times each, give the same XOR.
/// So the parallel value fold gives one result whatever order its workers
/// finish in.
pub proof fn lemma_xor_all_permutation(s: Seq<u64>, t: Seq<u64>)
    requires
        s.to_multiset() == t.to_multiset(),
    ensures
        xor_all(s) == xor_all(t),
    decreases s.len(),
{
    broadcast use vstd::seq_lib::group_to_multiset_ensures;

    if s.len() == 0 {
        assert(s.to_multiset().len() == 0);
        assert(t.to_multiset().len() == t.len());
    } else {
        let x = s.last();
        assert(s.to_multiset().count(x) > 0) by {
            assert(s.contains(x)) by {
                assert(s[s.len() - 1] == x);
            }
        }
        assert(t.contains(x));
        let j = choose|j: int| 0 <= j < t.len() && t[j] == x;
        assert(s.drop_last() =~= s.remove(s.len() - 1));
        assert(s.drop_last().to_multiset() == t.remove(j).to_multiset());
        lemma_xor_all_permutation(s.drop_last(), t.remove(j));
        lemma_xor_all_remove(t, j);
    }
}

/// Replacing one word changes the XOR by exactly the old and the new word.
pub proof fn lemma_xor_all_update(s: Seq<u64>, i: int, x: u64)
    requires
        0 <= i < s.len(),
    ensures
        xor_all(s.update(i, x)) == xor_all(s) ^ s[i] ^ x,
{
    let u = s.update(i, x);
    lemma_xor_all_remove(s, i);
    lemma_xor_all_remove(u, i);
    assert(u.remove(i) =~= s.remove(i));
    let a = xor_all(s.remove(i));
    let b = s[i];
    assert(a ^ x == (a ^ b) ^ b ^ x) by (bit_vector);
}

/// Two trees of the same shape whose per-value hashes differ in one node
/// only: their digests differ by exactly the XOR of that node's two hashes.
/// The digest changes whenever that node's hash does.
pub proof fn lemma_one_value_changed(t1: Tree<IO>, t2: Tree<IO>, i: int)
    requires
        child_counts(t1) == child_counts(t2),
        value_hashes(t1).len() == value_hashes(t2).len(),
        0 <= i < value_hashes(t1).len(),
        forall|j: int|
            0 <= j < value_hashes(t1).len() && j != i ==> value_hashes(t1)[j] == value_hashes(
                t2,
            )[j],
    ensures
        tree_digest(t1) ^ tree_digest(t2) == value_hashes(t1)[i] ^ value_hashes(t2)[i],
        tree_digest(t1) == tree_digest(t2) <==> value_hashes(t1)[i] == value_hashes(t2)[i],
{
    let h1 = value_hashes(t1);
    let h2 = value_hashes(t2);
    assert(h2 =~= h1.update(i, h2[i]));
    lemma_xor_all_update(h1, i, h2[i]);
    let s = shape_digest(t1);
    assert(shape_digest(t2) == s);
    let v1 = value_digest(t1);
    let a = h1[i];
    let b = h2[i];
    assert((s ^ v1) ^ (s ^ (v1 ^ a ^ b)) == a ^ b) by (bit_vector);
    assert(((s ^ v1) == (s ^ (v1 ^ a ^ b))) <==> (a == b)) by (bit_vector);
}

/// The breadth-first order from a queue visits as many nodes as the queue holds.
pub proof fn lemma_bfs_len<T>(q: Seq<Tree<T>>)
    ensures
        bfs(q).len() == sizes(q),
    decreases sizes(q),
{
    if q.len() > 0 {
        lemma_queue_step(q);
        lemma_bfs_len(q.drop_first() + q[0].children@);
    }
}

/// Two trees with different numbers of nodes (one has, say, an empty
/// subdirectory more than the other) feed different child-count sequences to
/// the shape hasher.
pub proof fn lemma_shape_input_tracks_size<T>(t1: Tree<T>, t2: Tree<T>)
    requires
        size(t1) != size(t2),
    ensures
        child_counts(t1) != child_counts(t2),
{
    lemma_leaf_sizes(t1);
    lemma_leaf_sizes(t2);
    lemma_bfs_len(seq![t1]);
    lemma_bfs_len(seq![t2]);
    assert(child_counts(t1).len() == size(t1));
    assert(child_counts(t2).len() == size(t2));
}

proof fn lemma_leaf_sizes<T>(t: Tree<T>)
    ensures
        sizes(seq![t]) == size(t),
{
    let one = seq![t];
    assert(one.subrange(0, 0) =~= Seq::<Tree<T>>::empty());
    assert(sizes(one) == sizes(Seq::<Tree<T>>::empty()) + size(t));
}

/// A node without children is the whole of its level order.
pub proof fn lemma_leaf_level_order<T>(t: Tree<T>)
    requires
        t.children@.len() == 0,
    ensures
        level_order(t) == seq![t],
{
    let q = seq![t];
    lemma_queue_step(q);
    assert(q.drop_first() + q[0].children@ =~= Seq::<Tree<T>>::empty());
    assert(bfs(Seq::<Tree<T>>::empty()) =~= Seq::<Tree<T>>::empty());
    assert(seq![t] + Seq::<Tree<T>>::empty() =~= seq![t]);
}

proof fn lemma_kept_none(es: Seq<Entry>)
    requires
        forall|k: int| 0 <= k < es.len() ==> es[k] is Other,
    ensures
        kept(es).len() == 0,
    decreases es.len(),
{
    if es.len() > 0 {
        lemma_kept_none(es.drop_first());
    }
}

/// A directory whose listing holds only entries that are neither files nor
/// directories (symbolic links among them) has the digest of an empty
/// directory at the same path.
pub proof fn lemma_other_entries_ignored(
    path: String,
    es: Seq<Entry>,
    with_others: Tree<IO>,
    empty: Tree<IO>,
)
    requires
        forall|k: int| 0 <= k < es.len() ==> es[k] is Other,
        is_dir_node(with_others, path, es),
        is_dir_node(empty, path, seq![]),
    ensures
        tree_digest(with_others) == tree_digest(empty),
{
    lemma_kept_none(es);
    lemma_kept_none(seq![]);
    lemma_leaf_level_order(with_others);
    lemma_leaf_level_order(empty);
    assert(child_counts(with_others) =~= child_counts(empty));
    assert(value_hashes(with_others) =~= value_hashes(empty));
}

} // verus!
