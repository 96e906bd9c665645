use std::collections::hash_map::DefaultHasher;
use std::hash::Hash;
use std::hash::Hasher;
use std::path::Path;

use treehash::{hash_val, le_bytes_of, xor_pair, Entry, Nodes, Tree, IO};

fn file(path: &str, contents: &str) -> Entry {
    Entry::File(path.to_string(), contents.as_bytes().to_vec())
}

fn dir(path: &str, entries: Vec<Entry>) -> Tree<IO> {
    Tree::from_entries(path.to_string(), entries)
}

fn sample(with_c: bool, c_contents: &str) -> Tree<IO> {
    let mut b_entries = Vec::new();
    if with_c {
        b_entries.push(file("root/b/c.txt", c_contents));
    }
    let b = dir("root/b", b_entries);
    dir("root", vec![file("root/a.txt", "x"), Entry::Dir(b)])
}

fn path_of(v: &IO) -> String {
    match v {
        IO::File(p, _) => p.clone(),
        IO::Dir(p) => p.clone(),
    }
}

fn reference_value_hash(v: &IO) -> u64 {
    let mut h = DefaultHasher::new();
    match v {
        IO::File(p, c) => {
            Path::new(p.as_str()).hash(&mut h);
            c.hash(&mut h);
        }
        IO::Dir(p) => Path::new(p.as_str()).hash(&mut h),
    }
    h.finish()
}

#[test]
fn nodes_come_in_level_order() {
    let c = dir("r/a/c", vec![]);
    let a = dir("r/a", vec![Entry::Dir(c)]);
    let b = dir("r/b", vec![]);
    let r = dir("r", vec![Entry::Dir(a), Entry::Dir(b), file("r/f", "1")]);
    let order: Vec<String> = r.nodes().iter().map(|n| path_of(&n.value)).collect();
    assert_eq!(order, vec!["r", "r/a", "r/b", "r/f", "r/a/c"]);
    let vals: Vec<String> = r.values().iter().map(|v| path_of(v)).collect();
    assert_eq!(vals, order);
}

#[test]
fn nodes_walk_step_by_step() {
    let a = dir("r/a", vec![file("r/a/x", "1")]);
    let t = dir("r", vec![Entry::Dir(a), file("r/b", "2")]);
    let mut it = Nodes::start(&t);
    let mut seen = Vec::new();
    while let Some(n) = it.next() {
        seen.push(path_of(&n.value));
    }
    assert_eq!(seen, vec!["r", "r/a", "r/b", "r/a/x"]);
    assert!(it.next().is_none());
}

#[test]
fn single_node_traversal() {
    let t = Tree::new(7u32, Vec::new());
    assert_eq!(t.nodes().len(), 1);
    assert_eq!(t.values(), vec![&7u32]);
}

#[test]
fn from_entries_keeps_files_and_dirs_in_order() {
    let sub = dir("r/s", vec![file("r/s/x", "x")]);
    let t = dir("r", vec![file("r/a", "aa"), Entry::Other, Entry::Dir(sub), Entry::Other]);
    assert!(matches!(&t.value, IO::Dir(p) if p == "r"));
    assert_eq!(t.children.len(), 2);
    assert!(matches!(&t.children[0].value, IO::File(p, c) if p == "r/a" && c == b"aa"));
    assert!(t.children[0].children.is_empty());
    assert!(matches!(&t.children[1].value, IO::Dir(p) if p == "r/s"));
    assert_eq!(t.children[1].children.len(), 1);
}

#[test]
fn digest_matches_std_hasher_words() {
    // Shape: child counts 2, 0, 1, 0 in level order; values XOR-folded.
    let t = sample(true, "y");
    let mut h = DefaultHasher::new();
    for n in t.nodes() {
        h.write(&(n.children.len() as u64).to_le_bytes());
    }
    let shape = h.finish();
    let vals = t.values().iter().fold(0u64, |acc, v| acc ^ reference_value_hash(v));
    assert_eq!(t.hash(), shape ^ vals);
}

#[test]
fn hash_val_matches_std_hasher() {
    let f = IO::File("d/f.txt".to_string(), b"hello".to_vec());
    let d = IO::Dir("d".to_string());
    assert_eq!(hash_val(&f), reference_value_hash(&f));
    assert_eq!(hash_val(&d), reference_value_hash(&d));
}

#[test]
fn hash_val_depends_on_path() {
    let a = IO::Dir("a".to_string());
    let b = IO::Dir("b".to_string());
    assert_ne!(hash_val(&a), hash_val(&b));
}

#[test]
fn hash_val_depends_on_contents() {
    let a = IO::File("f".to_string(), b"x".to_vec());
    let b = IO::File("f".to_string(), b"y".to_vec());
    let d = IO::Dir("f".to_string());
    assert_ne!(hash_val(&a), hash_val(&b));
    assert_ne!(hash_val(&a), hash_val(&d));
}

#[test]
fn le_bytes_exact() {
    assert_eq!(le_bytes_of(0x0102030405060708), vec![8, 7, 6, 5, 4, 3, 2, 1]);
    assert_eq!(le_bytes_of(0), vec![0; 8]);
    assert_eq!(le_bytes_of(u64::MAX), vec![255; 8]);
}

#[test]
fn xor_pair_exact() {
    assert_eq!(xor_pair(0b1100, 0b1010), 0b0110);
    assert_eq!(xor_pair(5, 5), 0);
    assert_eq!(xor_pair(9, 0), 9);
}

#[test]
fn hashing_twice_is_deterministic() {
    let t = sample(true, "y");
    assert_eq!(t.hash(), t.hash());
    assert_eq!(sample(true, "y").hash(), sample(true, "y").hash());
}

#[test]
fn changing_one_byte_changes_digest() {
    assert_ne!(sample(true, "y").hash(), sample(true, "z").hash());
    let a = dir("r", vec![file("r/f", "abcdef")]);
    let b = dir("r", vec![file("r/f", "abcdeg")]);
    assert_ne!(a.hash(), b.hash());
}

#[test]
fn adding_empty_subdirectory_changes_digest() {
    let a = dir("r", vec![file("r/f", "1")]);
    let b = dir("r", vec![file("r/f", "1"), Entry::Dir(dir("r/e", vec![]))]);
    assert_ne!(a.hash(), b.hash());
}

#[test]
fn value_fold_ignores_order() {
    let vals = vec![
        IO::Dir("r".to_string()),
        IO::File("r/a".to_string(), b"1".to_vec()),
        IO::File("r/b".to_string(), b"2".to_vec()),
        IO::Dir("r/c".to_string()),
    ];
    let hs: Vec<u64> = vals.iter().map(hash_val).collect();
    let forward = hs.iter().fold(0, |a, b| xor_pair(a, *b));
    let backward = hs.iter().rev().fold(0, |a, b| xor_pair(a, *b));
    let paired = xor_pair(xor_pair(hs[2], hs[0]), xor_pair(hs[3], hs[1]));
    assert_eq!(forward, backward);
    assert_eq!(forward, paired);
    // Siblings listed in another order: same shape, same values, same digest.
    let t1 = dir("r", vec![file("r/a", "1"), file("r/b", "2")]);
    let t2 = dir("r", vec![file("r/b", "2"), file("r/a", "1")]);
    assert_eq!(t1.hash(), t2.hash());
}

#[test]
fn symlink_only_directory_equals_empty_directory() {
    let with_link = dir("r", vec![Entry::Other]);
    let with_two = dir("r", vec![Entry::Other, Entry::Other]);
    let empty = dir("r", vec![]);
    assert_eq!(with_link.hash(), empty.hash());
    assert_eq!(with_two.hash(), empty.hash());
}

#[test]
fn duplicate_values_cancel_out() {
    // Two nodes with the same value cancel in the XOR fold: trees of the same
    // shape whose only files are such pairs collide, whatever the files hold.
    let t1 = Tree::new(
        IO::Dir("r".to_string()),
        vec![
            Tree::new(IO::File("r/f".to_string(), b"x".to_vec()), Vec::new()),
            Tree::new(IO::File("r/f".to_string(), b"x".to_vec()), Vec::new()),
        ],
    );
    let t2 = Tree::new(
        IO::Dir("r".to_string()),
        vec![
            Tree::new(IO::File("r/g".to_string(), b"other".to_vec()), Vec::new()),
            Tree::new(IO::File("r/g".to_string(), b"other".to_vec()), Vec::new()),
        ],
    );
    assert_eq!(t1.hash(), t2.hash());
    // Two empty subdirectories at one path collide with two files at another.
    let t3 = Tree::new(
        IO::Dir("r".to_string()),
        vec![
            Tree::new(IO::Dir("r/d".to_string()), Vec::new()),
            Tree::new(IO::Dir("r/d".to_string()), Vec::new()),
        ],
    );
    assert_eq!(t1.hash(), t3.hash());
}

#[test]
fn end_to_end_delete_and_restore() {
    let first = sample(true, "y").hash();
    let second = sample(true, "y").hash();
    assert_eq!(first, second);
    let deleted = sample(false, "").hash();
    assert_ne!(first, deleted);
    let restored = sample(true, "y").hash();
    assert_eq!(first, restored);
}
