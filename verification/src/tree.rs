//! Hash256 trees: the shape a verifier sees, its digest, and lookups in it.
//!
//! A tree is empty, a leaf with a value, a subtree under a label, a fork of
//! two trees, or a pruned subtree of which only the digest is left. A witness
//! is such a tree with everything pruned that the reader does not need; its
//! digest is still the digest of the full tree.

use crate::bytes::{lex_lt, rank, Rank};
use crate::hash::{
    empty_digest, empty_hash, fork_digest, fork_hash, labeled_digest, labeled_hash, leaf_digest,
    leaf_hash, Hash256,
};
use vstd::prelude::*;

verus! {

/// A hash tree as a mathematical value.
pub enum Tree {
    Empty,
    Pruned(Seq<u8>),
    Leaf(Seq<u8>),
    Labeled(Seq<u8>, Box<Tree>),
    Fork(Box<Tree>, Box<Tree>),
}

/// What looking for one label in a tree finds.
pub enum LabelLookup {
    /// The label is there, over this subtree.
    Found(Tree),
    /// The tree shows that the label is not there.
    Absent,
    /// A pruned part may hold the label.
    Unknown,
    /// Every label seen comes after the one looked for.
    Earlier,
    /// Every label seen comes before the one looked for.
    Later,
}

/// What following a path of labels down a tree finds.
pub enum PathLookup {
    /// The path ends at a leaf with this value.
    Found(Seq<u8>),
    /// The tree shows that nothing is at the path.
    Absent,
    /// A pruned part may hold the path.
    Unknown,
    /// The path ends inside the tree, above a leaf.
    Malformed,
}

/// The digest of a tree.
pub open spec fn digest_of(t: Tree) -> Seq<u8>
    decreases t,
{
    match t {
        Tree::Empty => empty_digest(),
        Tree::Pruned(h) => h,
        Tree::Leaf(v) => leaf_digest(v),
        Tree::Labeled(l, sub) => labeled_digest(l, digest_of(*sub)),
        Tree::Fork(l, r) => fork_digest(digest_of(*l), digest_of(*r)),
    }
}

/// Looks for `label` among the labels at the top of `t`, reading forks from
/// left to right and relying on labels that ascend.
pub open spec fn lookup_label(t: Tree, label: Seq<u8>) -> LabelLookup
    decreases t,
{
    match t {
        Tree::Labeled(l, sub) => if label == l {
            LabelLookup::Found(*sub)
        } else if lex_lt(label, l) {
            LabelLookup::Earlier
        } else {
            LabelLookup::Later
        },
        Tree::Fork(l, r) => match lookup_label(*l, label) {
            LabelLookup::Later => match lookup_label(*r, label) {
                LabelLookup::Earlier => LabelLookup::Absent,
                other => other,
            },
            LabelLookup::Unknown => match lookup_label(*r, label) {
                LabelLookup::Earlier => LabelLookup::Unknown,
                other => other,
            },
            other => other,
        },
        Tree::Pruned(_) => LabelLookup::Unknown,
        _ => LabelLookup::Absent,
    }
}

/// Follows `path` down `t`, one label per level.
pub open spec fn lookup_path(t: Tree, path: Seq<Seq<u8>>) -> PathLookup
    decreases path.len(),
{
    if path.len() == 0 {
        match t {
            Tree::Leaf(v) => PathLookup::Found(v),
            Tree::Empty => PathLookup::Absent,
            Tree::Pruned(_) => PathLookup::Unknown,
            _ => PathLookup::Malformed,
        }
    } else {
        match lookup_label(t, path[0]) {
            LabelLookup::Found(sub) => lookup_path(sub, path.drop_first()),
            LabelLookup::Unknown => PathLookup::Unknown,
            _ => PathLookup::Absent,
        }
    }
}

/// A hash tree, or a part of one with the rest pruned.
#[derive(Debug)]
pub enum Witness {
    Empty,
    Pruned(Hash256),
    Leaf(Vec<u8>),
    Labeled(Vec<u8>, Box<Witness>),
    Fork(Box<Witness>, Box<Witness>),
}

/// The tree that a witness holds.
pub open spec fn tree_of(w: Witness) -> Tree
    decreases w,
{
    match w {
        Witness::Empty => Tree::Empty,
        Witness::Pruned(h) => Tree::Pruned(h@),
        Witness::Leaf(v) => Tree::Leaf(v@),
        Witness::Labeled(l, sub) => Tree::Labeled(l@, Box::new(tree_of(*sub))),
        Witness::Fork(l, r) => Tree::Fork(Box::new(tree_of(*l)), Box::new(tree_of(*r))),
    }
}

impl View for Witness {
    type V = Tree;

    open spec fn view(&self) -> Tree {
        tree_of(*self)
    }
}

/// What `Witness::find_label` finds.
pub enum LabelFound<'a> {
    Found(&'a Witness),
    Absent,
    Unknown,
    Earlier,
    Later,
}

impl<'a> View for LabelFound<'a> {
    type V = LabelLookup;

    open spec fn view(&self) -> LabelLookup {
        match self {
            LabelFound::Found(w) => LabelLookup::Found(w@),
            LabelFound::Absent => LabelLookup::Absent,
            LabelFound::Unknown => LabelLookup::Unknown,
            LabelFound::Earlier => LabelLookup::Earlier,
            LabelFound::Later => LabelLookup::Later,
        }
    }
}

/// What `Witness::find_path` finds.
#[derive(Debug)]
pub enum PathFound {
    Found(Vec<u8>),
    Absent,
    Unknown,
    Malformed,
}

impl View for PathFound {
    type V = PathLookup;

    open spec fn view(&self) -> PathLookup {
        match self {
            PathFound::Found(v) => PathLookup::Found(v@),
            PathFound::Absent => PathLookup::Absent,
            PathFound::Unknown => PathLookup::Unknown,
            PathFound::Malformed => PathLookup::Malformed,
        }
    }
}

impl Witness {
    /// The digest of the tree this witness was cut from.
    pub fn digest(&self) -> (h: Hash256)
        ensures
            h@ == digest_of(self@),
        decreases self,
    {
        match self {
            Witness::Empty => empty_hash(),
            Witness::Pruned(h) => *h,
            Witness::Leaf(v) => leaf_hash(v.as_slice()),
            Witness::Labeled(l, sub) => {
                let inner = sub.digest();
                labeled_hash(l.as_slice(), &inner)
            },
            Witness::Fork(l, r) => {
                let left = l.digest();
                let right = r.digest();
                fork_hash(&left, &right)
            },
        }
    }

    /// Looks for `label` among the labels at the top of this tree.
    pub fn find_label<'a>(&'a self, label: &[u8]) -> (found: LabelFound<'a>)
        ensures
            found@ == lookup_label(self@, label@),
        decreases self,
    {
        match self {
            Witness::Labeled(l, sub) => match rank(label, l.as_slice()) {
                Rank::Same => LabelFound::Found(&**sub),
                Rank::Before => LabelFound::Earlier,
                Rank::After => LabelFound::Later,
            },
            Witness::Fork(l, r) => match l.find_label(label) {
                LabelFound::Later => match r.find_label(label) {
                    LabelFound::Earlier => LabelFound::Absent,
                    other => other,
                },
                LabelFound::Unknown => match r.find_label(label) {
                    LabelFound::Earlier => LabelFound::Unknown,
                    other => other,
                },
                other => other,
            },
            Witness::Pruned(_) => LabelFound::Unknown,
            _ => LabelFound::Absent,
        }
    }

    /// Follows `path` down this tree and returns the value of the leaf it
    /// ends at, or why there is none.
    pub fn find_path(&self, path: &Vec<Vec<u8>>) -> (found: PathFound)
        ensures
            found@ == lookup_path(self@, path_view(path@)),
    {
        let mut here: &Witness = self;
        let mut i: usize = 0;
        assert(path_view(path@).skip(0) =~= path_view(path@));
        while i < path.len()
            invariant
                i <= path@.len(),
                lookup_path(self@, path_view(path@)) == lookup_path(
                    here@,
                    path_view(path@).skip(i as int),
                ),
            decreases path@.len() - i,
        {
            let ghost rest = path_view(path@).skip(i as int);
            assert(rest[0] == path@[i as int]@);
            assert(rest.drop_first() =~= path_view(path@).skip(i + 1));
            match here.find_label(path[i].as_slice()) {
                LabelFound::Found(sub) => {
                    here = sub;
                },
                LabelFound::Unknown => {
                    return PathFound::Unknown;
                },
                _ => {
                    return PathFound::Absent;
                },
            }
            i += 1;
        }
        match here {
            Witness::Leaf(v) => PathFound::Found(crate::bytes::to_vec(v.as_slice())),
            Witness::Empty => PathFound::Absent,
            Witness::Pruned(_) => PathFound::Unknown,
            _ => PathFound::Malformed,
        }
    }
}

/// A path of byte-string labels as a mathematical value.
pub open spec fn path_view(path: Seq<Vec<u8>>) -> Seq<Seq<u8>> {
    Seq::new(path.len(), |i: int| path[i]@)
}

} // verus!
