//! The certification tree: one root digest over a sorted list of labeled
//! subtree digests, and witnesses that show one label, or its absence,
//! against that root.
//!
//! The tree over a list of entries is fixed by the list alone: none for an
//! empty list, the labeled entry itself for a list of one, and otherwise a
//! fork over the trees of the list's two halves. Entries are kept in
//! ascending order of their labels, so the same set of entries always gives
//! the same root.

use crate::hash::{
    empty_digest, empty_hash, fork_digest, fork_hash, labeled_digest, labeled_hash, Hash256,
};
use crate::ordered::{
    has_label, labels_of, lemma_lower_bound, lower_bound, put_into, sorted, take_from, Labeled,
    SortedVec,
};
use crate::bytes::{lemma_lex_asymmetric, lemma_lex_irreflexive, lex_lt};
use crate::tree::{digest_of, lookup_label, LabelLookup, Tree, Witness};
use vstd::prelude::*;

verus! {

/// One entry of the tree: a label and the digest of the subtree under it.
pub struct CertEntry {
    pub label: Vec<u8>,
    pub hash: Hash256,
}

impl Labeled for CertEntry {
    open spec fn label(&self) -> Seq<u8> {
        self.label@
    }

    fn label_bytes(&self) -> (b: &[u8]) {
        self.label.as_slice()
    }
}

/// The entries as pairs of label and subtree digest.
pub open spec fn entries_of(items: Seq<CertEntry>) -> Seq<(Seq<u8>, Seq<u8>)> {
    Seq::new(items.len(), |i: int| (items[i].label@, items[i].hash@))
}

/// The labels of a list of entries.
pub open spec fn entry_labels(entries: Seq<(Seq<u8>, Seq<u8>)>) -> Seq<Seq<u8>> {
    Seq::new(entries.len(), |i: int| entries[i].0)
}

/// The digest of the tree over `entries[lo..hi]`.
pub open spec fn range_root(entries: Seq<(Seq<u8>, Seq<u8>)>, lo: int, hi: int) -> Seq<u8>
    decreases hi - lo,
{
    if hi <= lo {
        empty_digest()
    } else if hi - lo == 1 {
        labeled_digest(entries[lo].0, entries[lo].1)
    } else {
        let mid = lo + (hi - lo) / 2;
        fork_digest(range_root(entries, lo, mid), range_root(entries, mid, hi))
    }
}

/// The root digest over all of `entries`.
pub open spec fn root_of(entries: Seq<(Seq<u8>, Seq<u8>)>) -> Seq<u8> {
    range_root(entries, 0, entries.len() as int)
}

/// Whether the witness for place `p` shows the entry at `i`: the entry at `p`
/// itself where the label is present, and the entries on both sides of the
/// gap at `p` where it is not.
pub open spec fn shown(i: int, p: int, present: bool) -> bool {
    if present {
        i == p
    } else {
        i == p - 1 || i == p
    }
}

/// Whether the witness for place `p` shows any entry of `lo..hi`.
pub open spec fn shows_any(lo: int, hi: int, p: int, present: bool) -> bool {
    if present {
        lo <= p < hi
    } else {
        lo <= p <= hi
    }
}

/// The tree over `entries[lo..hi]` with everything pruned but the entries
/// shown for place `p`. A shown entry keeps its label; under the label
/// stands `inner` where the label is the one asked for, and the pruned
/// subtree otherwise.
pub open spec fn partial(
    entries: Seq<(Seq<u8>, Seq<u8>)>,
    lo: int,
    hi: int,
    p: int,
    present: bool,
    inner: Tree,
) -> Tree
    decreases hi - lo,
{
    if hi <= lo {
        Tree::Empty
    } else if !shows_any(lo, hi, p, present) {
        Tree::Pruned(range_root(entries, lo, hi))
    } else if hi - lo == 1 {
        Tree::Labeled(
            entries[lo].0,
            Box::new(
                if present {
                    inner
                } else {
                    Tree::Pruned(entries[lo].1)
                },
            ),
        )
    } else {
        let mid = lo + (hi - lo) / 2;
        Tree::Fork(
            Box::new(partial(entries, lo, mid, p, present, inner)),
            Box::new(partial(entries, mid, hi, p, present, inner)),
        )
    }
}

/// The witness for `target` over all of `entries`: it shows `inner` under the
/// label where the label is present, and the neighbours of the gap where it
/// is not.
pub open spec fn witness_of(entries: Seq<(Seq<u8>, Seq<u8>)>, target: Seq<u8>, inner: Tree) -> Tree {
    let labels = entry_labels(entries);
    partial(
        entries,
        0,
        entries.len() as int,
        lower_bound(labels, target),
        has_label(labels, target),
        inner,
    )
}

/// A pruned tree has the digest of the full tree, as long as what stands
/// under the shown label has the digest recorded for it.
pub proof fn lemma_partial_digest(
    entries: Seq<(Seq<u8>, Seq<u8>)>,
    lo: int,
    hi: int,
    p: int,
    present: bool,
    inner: Tree,
)
    requires
        0 <= lo <= hi <= entries.len(),
        present && lo <= p < hi ==> digest_of(inner) == entries[p].1,
    ensures
        digest_of(partial(entries, lo, hi, p, present, inner)) == range_root(entries, lo, hi),
    decreases hi - lo,
{
    if hi > lo && shows_any(lo, hi, p, present) {
        if hi - lo > 1 {
            let mid = lo + (hi - lo) / 2;
            lemma_partial_digest(entries, lo, mid, p, present, inner);
            lemma_partial_digest(entries, mid, hi, p, present, inner);
        } else if !present {
            assert(digest_of(Tree::Pruned(entries[lo].1)) == entries[lo].1);
        }
    }
}

/// What a lookup of `target` finds in the pruned tree over `lo..hi`, where
/// `p` is the target's place: the subtree where the label is present; where
/// it is not, absence as soon as both neighbours of the gap are in the range,
/// and otherwise on which side of the range the target falls.
pub proof fn lemma_partial_lookup(
    entries: Seq<(Seq<u8>, Seq<u8>)>,
    lo: int,
    hi: int,
    p: int,
    present: bool,
    inner: Tree,
    target: Seq<u8>,
)
    requires
        0 <= lo < hi <= entries.len(),
        0 <= p <= entries.len(),
        present ==> p < entries.len() && entries[p].0 == target,
        !present && p > 0 ==> lex_lt(entries[p - 1].0, target),
        !present && p < entries.len() ==> lex_lt(target, entries[p].0),
    ensures
        lookup_label(partial(entries, lo, hi, p, present, inner), target) == (if !shows_any(
            lo,
            hi,
            p,
            present,
        ) {
            LabelLookup::Unknown
        } else if present {
            LabelLookup::Found(inner)
        } else if p == lo {
            LabelLookup::Earlier
        } else if p == hi {
            LabelLookup::Later
        } else {
            LabelLookup::Absent
        }),
    decreases hi - lo,
{
    if shows_any(lo, hi, p, present) {
        if hi - lo == 1 {
            if !present {
                if p == lo {
                    lemma_lex_irreflexive(target);
                } else {
                    lemma_lex_asymmetric(entries[lo].0, target);
                    lemma_lex_irreflexive(target);
                }
            }
        } else {
            let mid = lo + (hi - lo) / 2;
            lemma_partial_lookup(entries, lo, mid, p, present, inner, target);
            lemma_partial_lookup(entries, mid, hi, p, present, inner, target);
        }
    }
}

/// The witness for a label has the root's digest and answers a lookup of the
/// label: with `inner` where the label is present, with absence where it is
/// not.
pub proof fn lemma_witness(entries: Seq<(Seq<u8>, Seq<u8>)>, target: Seq<u8>, inner: Tree)
    requires
        sorted(entry_labels(entries)),
        has_label(entry_labels(entries), target) ==> digest_of(inner) == entries[lower_bound(
            entry_labels(entries),
            target,
        )].1,
    ensures
        digest_of(witness_of(entries, target, inner)) == root_of(entries),
        has_label(entry_labels(entries), target) ==> lookup_label(
            witness_of(entries, target, inner),
            target,
        ) == LabelLookup::Found(inner),
        !has_label(entry_labels(entries), target) ==> ({
            let found = lookup_label(witness_of(entries, target, inner), target);
            found is Absent || found is Earlier || found is Later
        }),
{
    let labels = entry_labels(entries);
    let p = lower_bound(labels, target);
    let present = has_label(labels, target);
    lemma_lower_bound(labels, target);
    lemma_partial_digest(entries, 0, entries.len() as int, p, present, inner);
    if entries.len() > 0 {
        if !present {
            if p > 0 {
                assert(labels[p - 1] == entries[p - 1].0);
            }
            if p < entries.len() {
                assert(labels[p] == entries[p].0);
                crate::bytes::lemma_lex_total(labels[p], target);
            }
        } else {
            assert(labels[p] == entries[p].0);
        }
        lemma_partial_lookup(entries, 0, entries.len() as int, p, present, inner, target);
    }
}

/// The entries after `label` has been set to `hash`, at the label's place.
pub open spec fn put_entry(
    entries: Seq<(Seq<u8>, Seq<u8>)>,
    label: Seq<u8>,
    hash: Seq<u8>,
) -> Seq<(Seq<u8>, Seq<u8>)> {
    let p = lower_bound(entry_labels(entries), label);
    if has_label(entry_labels(entries), label) {
        entries.update(p, (label, hash))
    } else {
        entries.insert(p, (label, hash))
    }
}

/// The entries without the one labeled `label`.
pub open spec fn remove_entry(entries: Seq<(Seq<u8>, Seq<u8>)>, label: Seq<u8>) -> Seq<
    (Seq<u8>, Seq<u8>),
> {
    let p = lower_bound(entry_labels(entries), label);
    if has_label(entry_labels(entries), label) {
        entries.remove(p)
    } else {
        entries
    }
}

/// The digest of the tree over `entries[lo..hi]`.
fn range_hash(entries: &SortedVec<CertEntry>, lo: usize, hi: usize) -> (h: Hash256)
    requires
        lo <= hi <= entries@.len(),
    ensures
        h@ == range_root(entries_of(entries@), lo as int, hi as int),
    decreases hi - lo,
{
    if hi <= lo {
        empty_hash()
    } else if hi - lo == 1 {
        let e = entries.at(lo);
        labeled_hash(e.label.as_slice(), &e.hash)
    } else {
        let mid: usize = lo + (hi - lo) / 2;
        let left = range_hash(entries, lo, mid);
        let right = range_hash(entries, mid, hi);
        fork_hash(&left, &right)
    }
}

/// The pruned tree over `entries[lo..hi]` for place `p`. `inner` is handed
/// down to the one range that holds `p`.
fn build_partial(
    entries: &SortedVec<CertEntry>,
    lo: usize,
    hi: usize,
    p: usize,
    present: bool,
    inner: Option<Witness>,
    Ghost(t): Ghost<Tree>,
) -> (w: Witness)
    requires
        lo <= hi <= entries@.len(),
        p <= entries@.len(),
        present && lo <= p < hi ==> (inner matches Some(x) && x@ == t),
    ensures
        w@ == partial(entries_of(entries@), lo as int, hi as int, p as int, present, t),
    decreases hi - lo,
{
    let any: bool = if present {
        lo <= p && p < hi
    } else {
        lo <= p && p <= hi
    };
    let ghost es = entries_of(entries@);
    if hi <= lo {
        Witness::Empty
    } else if !any {
        Witness::Pruned(range_hash(entries, lo, hi))
    } else if hi - lo == 1 {
        let e = entries.at(lo);
        assert(es[lo as int] == (e.label@, e.hash@));
        let sub = match inner {
            Some(x) => if present {
                x
            } else {
                Witness::Pruned(e.hash)
            },
            None => Witness::Pruned(e.hash),
        };
        let w = Witness::Labeled(crate::bytes::to_vec(e.label.as_slice()), Box::new(sub));
        assert(w@ == Tree::Labeled(e.label@, Box::new(sub@)));
        w
    } else {
        let mid: usize = lo + (hi - lo) / 2;
        if present && p < mid {
            let left = build_partial(entries, lo, mid, p, present, inner, Ghost(t));
            let right = build_partial(entries, mid, hi, p, present, None, Ghost(t));
            let w = Witness::Fork(Box::new(left), Box::new(right));
            assert(w@ == Tree::Fork(Box::new(left@), Box::new(right@)));
            w
        } else {
            let left = build_partial(entries, lo, mid, p, present, None, Ghost(t));
            let right = build_partial(entries, mid, hi, p, present, inner, Ghost(t));
            let w = Witness::Fork(Box::new(left), Box::new(right));
            assert(w@ == Tree::Fork(Box::new(left@), Box::new(right@)));
            w
        }
    }
}

/// The entries of a certification tree, in ascending order of their labels.
pub struct CertificationTree {
    entries: SortedVec<CertEntry>,
}

impl View for CertificationTree {
    type V = Seq<(Seq<u8>, Seq<u8>)>;

    closed spec fn view(&self) -> Seq<(Seq<u8>, Seq<u8>)> {
        entries_of(self.entries@)
    }
}

impl CertificationTree {
    /// The invariant: labels strictly ascend, so none occurs twice.
    pub closed spec fn wf(&self) -> bool {
        self.entries.wf()
    }

    /// A well-formed tree keeps its labels sorted.
    pub proof fn lemma_wf(&self)
        requires
            self.wf(),
        ensures
            sorted(entry_labels(self@)),
    {
        assert(entry_labels(self@) =~= self.entries.labels());
    }

    /// The tree without entries.
    pub fn new() -> (t: Self)
        ensures
            t.wf(),
            t@ == Seq::<(Seq<u8>, Seq<u8>)>::empty(),
    {
        let t = CertificationTree { entries: SortedVec::new() };
        assert(t@ =~= Seq::<(Seq<u8>, Seq<u8>)>::empty());
        t
    }

    /// The number of entries.
    pub fn len(&self) -> (n: usize)
        ensures
            n == self@.len(),
    {
        self.entries.len()
    }

    /// The root digest over the entries.
    pub fn root(&self) -> (h: Hash256)
        ensures
            h@ == root_of(self@),
    {
        range_hash(&self.entries, 0, self.entries.len())
    }

    /// Adds an entry behind all others. `label` comes after every label held.
    pub fn append(&mut self, label: Vec<u8>, hash: Hash256)
        requires
            old(self).wf(),
            old(self)@.len() > 0 ==> lex_lt(old(self)@.last().0, label@),
        ensures
            final(self).wf(),
            final(self)@ == old(self)@.push((label@, hash@)),
    {
        let ghost before = self.entries@;
        self.entries.push_last(CertEntry { label, hash });
        assert(self@ =~= entries_of(before).push((label@, hash@)));
    }

    /// Sets the digest under `label`, adding the label if it is new.
    pub fn put(&mut self, label: Vec<u8>, hash: Hash256)
        requires
            old(self).wf(),
        ensures
            final(self).wf(),
            final(self)@ == put_entry(old(self)@, label@, hash@),
    {
        let ghost before = self.entries@;
        assert(entry_labels(self@) =~= self.entries.labels());
        let entry = CertEntry { label, hash };
        proof {
            lemma_lower_bound(labels_of(before), label@);
        }
        self.entries.put(entry);
        assert(self.entries@ == put_into(before, entry));
        assert(self@ =~= put_entry(entries_of(before), label@, hash@));
    }

    /// Removes the entry under `label`, if there is one.
    pub fn remove(&mut self, label: &[u8])
        requires
            old(self).wf(),
        ensures
            final(self).wf(),
            final(self)@ == remove_entry(old(self)@, label@),
    {
        let ghost before = self.entries@;
        assert(entry_labels(self@) =~= self.entries.labels());
        proof {
            lemma_lower_bound(labels_of(before), label@);
        }
        self.entries.take(label);
        assert(self.entries@ == take_from(before, label@));
        assert(self@ =~= remove_entry(entries_of(before), label@));
    }

    /// The digest recorded under `label`, if the label is present.
    pub fn get(&self, label: &[u8]) -> (found: Option<Hash256>)
        requires
            self.wf(),
        ensures
            found.is_some() == has_label(entry_labels(self@), label@),
            found matches Some(h) ==> h@ == self@[lower_bound(entry_labels(self@), label@)].1,
    {
        assert(entry_labels(self@) =~= self.entries.labels());
        proof {
            lemma_lower_bound(self.entries.labels(), label@);
        }
        match self.entries.find(label) {
            Some(e) => Some(e.hash),
            None => None,
        }
    }

    /// A witness for `label`: the tree with everything pruned that a lookup
    /// of `label` does not read. Where the label is present, `inner` stands
    /// under it; where it is not, the witness shows the labels on both sides
    /// of the gap and `inner` is dropped.
    pub fn witness(&self, label: &[u8], inner: Witness) -> (w: Witness)
        requires
            self.wf(),
        ensures
            w@ == witness_of(self@, label@, inner@),
    {
        assert(entry_labels(self@) =~= self.entries.labels());
        let (p, present) = self.entries.search(label);
        build_partial(&self.entries, 0, self.entries.len(), p, present, Some(inner), Ghost(inner@))
    }
}

} // verus!
