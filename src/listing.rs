use vstd::prelude::*;

use crate::digest::IO;
use crate::tree::Tree;

verus! {

/// One entry of a directory listing, as the filesystem classified it.
///
/// A regular file comes with its path and contents, a subdirectory with the
/// tree already built from it; anything else (a symbolic link, a socket, a
/// device) is `Other`.
pub enum Entry {
    File(String, Vec<u8>),
    Dir(Tree<IO>),
    Other,
}

/// The entries that produce a node, in listing order: all but `Other`.
pub open spec fn kept(es: Seq<Entry>) -> Seq<Entry>
    decreases es.len(),
{
    if es.len() == 0 {
        seq![]
    } else if es[0] is Other {
        kept(es.drop_first())
    } else {
        seq![es[0]] + kept(es.drop_first())
    }
}

/// Node `n` is the one that entry `e` produces: a leaf for a file, the
/// subtree itself for a directory.
pub open spec fn node_of_entry(n: Tree<IO>, e: Entry) -> bool {
    match e {
        Entry::File(p, c) => n.value == IO::File(p, c) && n.children@.len() == 0,
        Entry::Dir(t) => n == t,
        Entry::Other => false,
    }
}

/// `t` is the node of the directory at `path` whose listing is `es`: it is
/// tagged with the path, and its children are the nodes of the kept entries,
/// in order.
pub open spec fn is_dir_node(t: Tree<IO>, path: String, es: Seq<Entry>) -> bool {
    &&& t.value == IO::Dir(path)
    &&& t.children@.len() == kept(es).len()
    &&& forall|k: int| 0 <= k < kept(es).len() ==> node_of_entry(#[trigger] t.children@[k], kept(es)[k])
}

impl Tree<IO> {
    /// The node of the directory at `path` from its listing: files become
    /// leaves, subdirectories their subtrees, other entries nothing.
    pub fn from_entries(path: String, entries: Vec<Entry>) -> (r: Tree<IO>)
        ensures
            is_dir_node(r, path, entries@),
    {
        let ghost all = entries@;
        let ghost mut done: Seq<Entry> = seq![];
        let mut rest = entries;
        let mut children: Vec<Tree<IO>> = Vec::new();
        proof {
            assert(all =~= rest@);
        }
        while rest.len() > 0
            invariant
                done + kept(rest@) == kept(all),
                children@.len() == done.len(),
                forall|k: int| 0 <= k < done.len() ==> node_of_entry(#[trigger] children@[k], done[k]),
            decreases rest@.len(),
        {
            let ghost before = rest@;
            let e = rest.remove(0);
            proof {
                assert(rest@ =~= before.drop_first());
            }
            match e {
                Entry::File(p, c) => {
                    children.push(Tree { value: IO::File(p, c), children: Vec::new() });
                    proof {
                        assert(done.push(before[0]) + kept(rest@) =~= done + kept(before));
                        done = done.push(before[0]);
                    }
                },
                Entry::Dir(t) => {
                    children.push(t);
                    proof {
                        assert(done.push(before[0]) + kept(rest@) =~= done + kept(before));
                        done = done.push(before[0]);
                    }
                },
                Entry::Other => {},
            }
        }
        proof {
            assert(done =~= kept(all));
        }
        Tree { value: IO::Dir(path), children }
    }
}

} // verus!
