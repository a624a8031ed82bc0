use certified_assets::certification::CertificationTree;
use certified_assets::tree::{PathFound, Witness};
use sha2::Digest;

fn to_hash_tree(w: &Witness) -> ic_certification::HashTree {
    match w {
        Witness::Empty => ic_certification::empty(),
        Witness::Pruned(h) => ic_certification::pruned(*h),
        Witness::Leaf(v) => ic_certification::leaf(v.clone()),
        Witness::Labeled(l, sub) => ic_certification::labeled(l.clone(), to_hash_tree(sub)),
        Witness::Fork(l, r) => ic_certification::fork(to_hash_tree(l), to_hash_tree(r)),
    }
}

fn tagged(tag: &str, parts: &[&[u8]]) -> [u8; 32] {
    let mut h = sha2::Sha256::new();
    h.update([tag.len() as u8]);
    h.update(tag.as_bytes());
    for part in parts {
        h.update(part);
    }
    h.finalize().into()
}

fn hash_of(n: u8) -> [u8; 32] {
    sha2::Sha256::digest([n]).into()
}

fn tree_of(labels: &[&str]) -> CertificationTree {
    let mut tree = CertificationTree::new();
    for (i, label) in labels.iter().enumerate() {
        tree.put(label.as_bytes().to_vec(), hash_of(i as u8));
    }
    tree
}

#[test]
fn digest_of_the_empty_tree() {
    let expected = tagged("ic-hashtree-empty", &[]);
    assert_eq!(Witness::Empty.digest(), expected);
    assert_eq!(CertificationTree::new().root(), expected);
    assert_eq!(
        Witness::Empty.digest().to_vec(),
        vec![
            0x4e, 0x3e, 0xd3, 0x5c, 0x4e, 0x2d, 0x1e, 0xe8, 0x99, 0x96, 0x48, 0x3f, 0xb6, 0x26,
            0x0a, 0x64, 0xcf, 0xfb, 0x6c, 0x47, 0xdb, 0xab, 0x21, 0x6e, 0x79, 0x30, 0xe8, 0x2f,
            0x81, 0x90, 0xd1, 0x20
        ]
    );
}

#[test]
fn digest_of_a_leaf_is_tagged() {
    let leaf = Witness::Leaf(b"value".to_vec());
    assert_eq!(leaf.digest(), tagged("ic-hashtree-leaf", &[b"value"]));
    assert_ne!(leaf.digest().to_vec(), b"value".to_vec());
    assert_ne!(leaf.digest(), <[u8; 32]>::from(sha2::Sha256::digest(b"value")));
}

#[test]
fn digest_of_a_labeled_tree_is_tagged() {
    let inner = Witness::Leaf(b"value".to_vec());
    let labeled = Witness::Labeled(b"label".to_vec(), Box::new(Witness::Leaf(b"value".to_vec())));
    assert_eq!(labeled.digest(), tagged("ic-hashtree-labeled", &[b"label", &inner.digest()]));
    assert_ne!(labeled.digest(), inner.digest());
}

#[test]
fn digest_of_a_fork_is_tagged() {
    let left = Witness::Leaf(b"l".to_vec());
    let right = Witness::Pruned(hash_of(9));
    let fork = Witness::Fork(
        Box::new(Witness::Leaf(b"l".to_vec())),
        Box::new(Witness::Pruned(hash_of(9))),
    );
    assert_eq!(fork.digest(), tagged("ic-hashtree-fork", &[&left.digest(), &right.digest()]));
    assert_eq!(right.digest(), hash_of(9));
    assert_ne!(fork.digest(), left.digest());
}

#[test]
fn digests_agree_with_ic_certification() {
    let w = Witness::Fork(
        Box::new(Witness::Labeled(
            b"a".to_vec(),
            Box::new(Witness::Fork(
                Box::new(Witness::Labeled(b"x".to_vec(), Box::new(Witness::Leaf(b"hello".to_vec())))),
                Box::new(Witness::Labeled(b"y".to_vec(), Box::new(Witness::Leaf(b"world".to_vec())))),
            )),
        )),
        Box::new(Witness::Fork(
            Box::new(Witness::Labeled(b"b".to_vec(), Box::new(Witness::Pruned(hash_of(1))))),
            Box::new(Witness::Labeled(b"c".to_vec(), Box::new(Witness::Empty))),
        )),
    );
    assert_eq!(w.digest(), to_hash_tree(&w).digest());
}

#[test]
fn root_of_one_two_and_three_entries() {
    let a = b"a".to_vec();
    let b = b"b".to_vec();
    let c = b"c".to_vec();
    let la = tagged("ic-hashtree-labeled", &[&a, &hash_of(0)]);
    let lb = tagged("ic-hashtree-labeled", &[&b, &hash_of(1)]);
    let lc = tagged("ic-hashtree-labeled", &[&c, &hash_of(2)]);
    assert_eq!(tree_of(&["a"]).root(), la);
    assert_eq!(tree_of(&["a", "b"]).root(), tagged("ic-hashtree-fork", &[&la, &lb]));
    let right = tagged("ic-hashtree-fork", &[&lb, &lc]);
    assert_eq!(tree_of(&["a", "b", "c"]).root(), tagged("ic-hashtree-fork", &[&la, &right]));
}

#[test]
fn entries_are_kept_in_order_whatever_the_order_of_puts() {
    let mut one = CertificationTree::new();
    let mut other = CertificationTree::new();
    let labels = ["m", "a", "z", "b", "mm", ""];
    for label in labels {
        one.put(label.as_bytes().to_vec(), hash_of(label.len() as u8));
    }
    for label in labels.iter().rev() {
        other.put(label.as_bytes().to_vec(), hash_of(label.len() as u8));
    }
    assert_eq!(one.root(), other.root());
    assert_eq!(one.len(), 6);
    other.put(b"q".to_vec(), hash_of(1));
    assert_ne!(one.root(), other.root());
    other.remove(b"q");
    assert_eq!(one.root(), other.root());
    other.remove(b"not there");
    assert_eq!(one.root(), other.root());
}

#[test]
fn put_replaces_the_digest_under_a_label() {
    let mut tree = tree_of(&["a", "b"]);
    assert_eq!(tree.get(b"a"), Some(hash_of(0)));
    tree.put(b"a".to_vec(), hash_of(7));
    assert_eq!(tree.len(), 2);
    assert_eq!(tree.get(b"a"), Some(hash_of(7)));
    assert_eq!(tree.get(b"b"), Some(hash_of(1)));
    assert_eq!(tree.get(b"c"), None);
}

#[test]
fn witness_of_a_present_label_shows_what_is_under_it() {
    let labels = ["a", "b", "c", "d", "e", "f", "g"];
    let mut tree = CertificationTree::new();
    for label in labels {
        let leaf = Witness::Leaf(label.as_bytes().to_vec());
        tree.put(label.as_bytes().to_vec(), leaf.digest());
    }
    for label in labels {
        let w = tree.witness(label.as_bytes(), Witness::Leaf(label.as_bytes().to_vec()));
        assert_eq!(w.digest(), tree.root());
        match w.find_path(&vec![label.as_bytes().to_vec()]) {
            PathFound::Found(v) => assert_eq!(v, label.as_bytes().to_vec()),
            other => panic!("{:?}", other),
        }
        let ic_tree = to_hash_tree(&w);
        assert_eq!(ic_tree.digest(), tree.root());
        assert_eq!(
            ic_tree.lookup_path([label.as_bytes()]),
            ic_certification::LookupResult::Found(label.as_bytes())
        );
    }
}

#[test]
fn witness_of_an_absent_label_proves_absence() {
    let labels = ["b", "d", "f", "h", "j"];
    let tree = tree_of(&labels);
    for missing in ["a", "c", "e", "g", "i", "k", "", "bb", "jj"] {
        let w = tree.witness(missing.as_bytes(), Witness::Empty);
        assert_eq!(w.digest(), tree.root());
        assert!(matches!(w.find_path(&vec![missing.as_bytes().to_vec()]), PathFound::Absent));
        let ic_tree = to_hash_tree(&w);
        assert_eq!(ic_tree.digest(), tree.root());
        assert_eq!(
            ic_tree.lookup_path([missing.as_bytes()]),
            ic_certification::LookupResult::Absent
        );
    }
}

#[test]
fn witness_says_nothing_of_other_labels() {
    let tree = tree_of(&["b", "d", "f", "h", "j", "l", "n", "p"]);
    let w = tree.witness(b"b", Witness::Pruned(hash_of(0)));
    assert_eq!(w.digest(), tree.root());
    assert!(matches!(w.find_path(&vec![b"n".to_vec()]), PathFound::Unknown));
    assert!(matches!(w.find_path(&vec![b"b".to_vec()]), PathFound::Unknown));
    assert_eq!(
        to_hash_tree(&w).lookup_path([b"n".as_slice()]),
        ic_certification::LookupResult::Unknown
    );
}

#[test]
fn witness_of_the_empty_tree_proves_absence() {
    let tree = CertificationTree::new();
    let w = tree.witness(b"a", Witness::Empty);
    assert_eq!(w.digest(), tree.root());
    assert!(matches!(w.find_path(&vec![b"a".to_vec()]), PathFound::Absent));
}

#[test]
fn a_path_that_ends_above_a_leaf_is_malformed() {
    let w = Witness::Labeled(
        b"a".to_vec(),
        Box::new(Witness::Labeled(b"b".to_vec(), Box::new(Witness::Leaf(b"v".to_vec())))),
    );
    assert!(matches!(w.find_path(&vec![b"a".to_vec()]), PathFound::Malformed));
    assert!(matches!(w.find_path(&vec![]), PathFound::Malformed));
    match w.find_path(&vec![b"a".to_vec(), b"b".to_vec()]) {
        PathFound::Found(v) => assert_eq!(v, b"v".to_vec()),
        other => panic!("{:?}", other),
    }
    assert!(matches!(w.find_path(&vec![b"a".to_vec(), b"c".to_vec()]), PathFound::Absent));
}
