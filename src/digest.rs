use vstd::prelude::*;
use vstd::std_specs::hash::DefaultHasherAdditionalSpecFns;

use std::collections::hash_map::DefaultHasher;
use std::hash::Hash;
use std::hash::Hasher;

use rayon::iter::IntoParallelIterator;
use rayon::iter::ParallelIterator;

use crate::tree::{child_counts, deref_all, level_values, Tree};

verus! {

/// The payload of a materialized directory tree.
///
/// A file carries its path and the bytes read from it; a directory carries its
/// path only, its content being the subtrees below it.
pub enum IO {
    File(String, Vec<u8>),
    Dir(String),
}

/// The writes that hashing a path makes into a hasher.
pub uninterp spec fn path_writes_of(path: Seq<char>) -> Seq<Seq<u8>>;

/// The eight little-endian bytes of `x`.
pub open spec fn le_bytes(x: u64) -> Seq<u8> {
    seq![
        (x & 0xff) as u8,
        ((x >> 8u64) & 0xff) as u8,
        ((x >> 16u64) & 0xff) as u8,
        ((x >> 24u64) & 0xff) as u8,
        ((x >> 32u64) & 0xff) as u8,
        ((x >> 40u64) & 0xff) as u8,
        ((x >> 48u64) & 0xff) as u8,
        ((x >> 56u64) & 0xff) as u8,
    ]
}

/// The value of the hasher's `finish` after the given writes.
pub open spec fn finish_of(writes: Seq<Seq<u8>>) -> u64 {
    <DefaultHasher as DefaultHasherAdditionalSpecFns>::spec_finish(writes)
}

/// The writes that hash a byte string: its length as a word, then its bytes.
pub open spec fn bytes_writes(b: Seq<u8>) -> Seq<Seq<u8>> {
    seq![le_bytes(b.len() as u64), b]
}

/// The hash of one value: a file hashes its path then its contents, a
/// directory its path alone.
pub open spec fn io_digest(v: IO) -> u64 {
    match v {
        IO::File(p, c) => finish_of(path_writes_of(p@) + bytes_writes(c@)),
        IO::Dir(p) => finish_of(path_writes_of(p@)),
    }
}

/// The XOR of all the words of `s`, with 0 for the empty sequence.
pub open spec fn xor_all(s: Seq<u64>) -> u64
    decreases s.len(),
{
    if s.len() == 0 {
        0
    } else {
        xor_all(s.drop_last()) ^ s.last()
    }
}

/// The digest of the tree's branching structure: the child count of every
/// node, in level order, fed to one hasher as words.
///
/// Words are always written as eight little-endian bytes, so the digest does
/// not depend on the width or byte order of the machine's `usize`.
pub open spec fn shape_digest<T>(t: Tree<T>) -> u64 {
    finish_of(child_counts(t).map_values(|c: usize| le_bytes(c as u64)))
}

/// The per-value hashes of every node, in level order.
pub open spec fn value_hashes(t: Tree<IO>) -> Seq<u64> {
    level_values(t).map_values(|v: IO| io_digest(v))
}

/// The digest of the node values: the XOR of their hashes.
pub open spec fn value_digest(t: Tree<IO>) -> u64 {
    xor_all(value_hashes(t))
}

/// The digest of a tree: its shape digest XOR its value digest.
pub open spec fn tree_digest(t: Tree<IO>) -> u64 {
    shape_digest(t) ^ value_digest(t)
}

/// Relies on `Path`'s `Hash` impl: what it writes depends on the path alone.
#[verifier::external_body]
fn feed_path(h: &mut DefaultHasher, path: &String)
    ensures
        final(h)@ == old(h)@ + path_writes_of(path@),
{
    std::path::Path::new(path.as_str()).hash(h)
}

/// The eight little-endian bytes of `x`.
pub fn le_bytes_of(x: u64) -> (r: Vec<u8>)
    ensures
        r@ == le_bytes(x),
{
    let mut r: Vec<u8> = Vec::new();
    r.push((x & 0xff) as u8);
    r.push(((x >> 8u64) & 0xff) as u8);
    r.push(((x >> 16u64) & 0xff) as u8);
    r.push(((x >> 24u64) & 0xff) as u8);
    r.push(((x >> 32u64) & 0xff) as u8);
    r.push(((x >> 40u64) & 0xff) as u8);
    r.push(((x >> 48u64) & 0xff) as u8);
    r.push(((x >> 56u64) & 0xff) as u8);
    proof {
        assert(r@ =~= le_bytes(x));
    }
    r
}

/// Feeds one word to the hasher, as eight little-endian bytes.
fn feed_word(h: &mut DefaultHasher, w: usize)
    ensures
        final(h)@ == old(h)@.push(le_bytes(w as u64)),
{
    let bytes = le_bytes_of(w as u64);
    h.write(bytes.as_slice());
}

/// Feeds a byte string to the hasher: its length, then its bytes.
fn feed_bytes(h: &mut DefaultHasher, b: &Vec<u8>)
    ensures
        final(h)@ == old(h)@ + bytes_writes(b@),
{
    let ghost start = h@;
    feed_word(h, b.len());
    h.write(b.as_slice());
    proof {
        assert(h@ =~= start + bytes_writes(b@));
    }
}

/// The hash of one value.
pub fn hash_val(v: &IO) -> (r: u64)
    ensures
        r == io_digest(*v),
{
    let mut h = DefaultHasher::new();
    match v {
        IO::File(p, c) => {
            feed_path(&mut h, p);
            feed_bytes(&mut h, c);
            proof {
                assert(h@ =~= path_writes_of(p@) + bytes_writes(c@));
            }
        },
        IO::Dir(p) => {
            feed_path(&mut h, p);
            proof {
                assert(h@ =~= path_writes_of(p@));
            }
        },
    }
    h.finish()
}

/// The XOR of two words.
pub fn xor_pair(a: u64, b: u64) -> (r: u64)
    ensures
        r == a ^ b,
{
    a ^ b
}

/// Relies on rayon's `map` and `reduce`: with XOR, which is associative, and
/// 0, its identity, the parallel reduction yields the XOR of every mapped item.
#[verifier::external_body]
fn par_xor_hashes(values: Vec<&IO>) -> (r: u64)
    ensures
        r == xor_all(deref_all(values@).map_values(|v: IO| io_digest(v))),
{
    values.into_par_iter().map(hash_val).reduce(|| 0, xor_pair)
}

impl Tree<IO> {
    /// The digest of the tree's shape and of all its values.
    pub fn hash(&self) -> (r: u64)
        ensures
            r == tree_digest(*self),
    {
        let nodes = self.nodes();
        let mut h = DefaultHasher::new();
        let mut i: usize = 0;
        while i < nodes.len()
            invariant
                i <= nodes@.len(),
                deref_all(nodes@) == crate::tree::level_order(*self),
                h@ == deref_all(nodes@).subrange(0, i as int).map_values(
                    |n: Tree<IO>| le_bytes((n.children@.len() as usize) as u64),
                ),
            decreases nodes@.len() - i,
        {
            let ghost prev = h@;
            feed_word(&mut h, nodes[i].children.len());
            i += 1;
            proof {
                assert(h@ =~= deref_all(nodes@).subrange(0, i as int).map_values(
                    |n: Tree<IO>| le_bytes((n.children@.len() as usize) as u64),
                ));
            }
        }
        let shape = h.finish();
        proof {
            assert(deref_all(nodes@).subrange(0, i as int) =~= deref_all(nodes@));
            assert(h@ =~= child_counts(*self).map_values(|c: usize| le_bytes(c as u64)));
        }
        let values = self.values();
        let vals = par_xor_hashes(values);
        shape ^ vals
    }
}

} // verus!
