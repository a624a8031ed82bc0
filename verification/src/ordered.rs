//! Collections kept in strict lexicographic order of byte-string labels.
//!
//! The store keeps its assets, each asset its encodings, and the certification
//! tree its entries in such a collection: a label occurs at most once, and
//! walking the collection visits the labels in ascending order.

use crate::bytes::{lemma_lex_asymmetric, lemma_lex_irreflexive, lemma_lex_transitive, lex_lt, rank, Rank};
use vstd::prelude::*;

verus! {

/// Labels in strictly ascending lexicographic order.
pub open spec fn sorted(labels: Seq<Seq<u8>>) -> bool {
    forall|i: int, j: int|
        0 <= i < j < labels.len() ==> lex_lt(#[trigger] labels[i], #[trigger] labels[j])
}

/// The number of leading labels that come before `target`. In a sorted
/// sequence this is the place where `target` stands or would be inserted.
pub open spec fn lower_bound(labels: Seq<Seq<u8>>, target: Seq<u8>) -> int
    decreases labels.len(),
{
    if labels.len() == 0 {
        0
    } else if lex_lt(labels[0], target) {
        1 + lower_bound(labels.drop_first(), target)
    } else {
        0
    }
}

/// Whether `target` stands at its place in `labels`.
pub open spec fn has_label(labels: Seq<Seq<u8>>, target: Seq<u8>) -> bool {
    let p = lower_bound(labels, target);
    p < labels.len() && labels[p] == target
}

/// What `lower_bound` returns: every label before it comes before the
/// target, and the label at it, if any, does not.
pub proof fn lemma_lower_bound(labels: Seq<Seq<u8>>, target: Seq<u8>)
    ensures
        0 <= lower_bound(labels, target) <= labels.len(),
        forall|i: int|
            0 <= i < lower_bound(labels, target) ==> lex_lt(#[trigger] labels[i], target),
        lower_bound(labels, target) < labels.len() ==> !lex_lt(
            labels[lower_bound(labels, target)],
            target,
        ),
    decreases labels.len(),
{
    if labels.len() > 0 && lex_lt(labels[0], target) {
        let rest = labels.drop_first();
        lemma_lower_bound(rest, target);
        assert forall|i: int| 0 <= i < lower_bound(labels, target) implies lex_lt(
            #[trigger] labels[i],
            target,
        ) by {
            if i > 0 {
                assert(labels[i] == rest[i - 1]);
            }
        }
    }
}

/// A place with the two properties of `lemma_lower_bound` is the lower bound.
pub proof fn lemma_lower_bound_is(labels: Seq<Seq<u8>>, target: Seq<u8>, p: int)
    requires
        0 <= p <= labels.len(),
        forall|i: int| 0 <= i < p ==> lex_lt(#[trigger] labels[i], target),
        p < labels.len() ==> !lex_lt(labels[p], target),
    ensures
        lower_bound(labels, target) == p,
    decreases labels.len(),
{
    if labels.len() > 0 && p > 0 {
        let rest = labels.drop_first();
        assert(lex_lt(labels[0], target));
        assert forall|i: int| 0 <= i < p - 1 implies lex_lt(#[trigger] rest[i], target) by {
            assert(rest[i] == labels[i + 1]);
        }
        lemma_lower_bound_is(rest, target, p - 1);
    }
}

/// In a sorted sequence the label at `i` has its lower bound at `i`.
pub proof fn lemma_lower_bound_of_member(labels: Seq<Seq<u8>>, i: int)
    requires
        sorted(labels),
        0 <= i < labels.len(),
    ensures
        lower_bound(labels, labels[i]) == i,
        has_label(labels, labels[i]),
{
    lemma_lex_irreflexive(labels[i]);
    lemma_lower_bound_is(labels, labels[i], i);
}

/// In a sorted sequence every label from the lower bound on is the target or
/// comes after it.
pub proof fn lemma_after_lower_bound(labels: Seq<Seq<u8>>, target: Seq<u8>, i: int)
    requires
        sorted(labels),
        lower_bound(labels, target) <= i < labels.len(),
    ensures
        !lex_lt(labels[i], target),
{
    let p = lower_bound(labels, target);
    lemma_lower_bound(labels, target);
    if i > p && lex_lt(labels[i], target) {
        lemma_lex_transitive(labels[p], labels[i], target);
    }
}

/// Inserting an absent label at its lower bound keeps the order.
pub proof fn lemma_insert_sorted(labels: Seq<Seq<u8>>, target: Seq<u8>)
    requires
        sorted(labels),
        !has_label(labels, target),
    ensures
        sorted(labels.insert(lower_bound(labels, target), target)),
        lower_bound(labels.insert(lower_bound(labels, target), target), target) == lower_bound(
            labels,
            target,
        ),
{
    let p = lower_bound(labels, target);
    let out = labels.insert(p, target);
    lemma_lower_bound(labels, target);
    assert forall|i: int, j: int| 0 <= i < j < out.len() implies lex_lt(
        #[trigger] out[i],
        #[trigger] out[j],
    ) by {
        if j == p {
            assert(out[i] == labels[i]);
        } else if i == p {
            assert(out[j] == labels[j - 1]);
            lemma_after_lower_bound(labels, target, j - 1);
            crate::bytes::lemma_lex_total(labels[j - 1], target);
            if labels[j - 1] == target {
                lemma_lower_bound_of_member(labels, j - 1);
            }
        } else {
            let a = if i < p { i } else { i - 1 };
            let b = if j < p { j } else { j - 1 };
            assert(out[i] == labels[a] && out[j] == labels[b]);
        }
    }
    lemma_lower_bound_of_member(out, p);
}

/// Removing a label keeps the order.
pub proof fn lemma_remove_sorted(labels: Seq<Seq<u8>>, at: int)
    requires
        sorted(labels),
        0 <= at < labels.len(),
    ensures
        sorted(labels.remove(at)),
        !has_label(labels.remove(at), labels[at]),
        lower_bound(labels.remove(at), labels[at]) == at,
{
    let out = labels.remove(at);
    assert forall|i: int, j: int| 0 <= i < j < out.len() implies lex_lt(
        #[trigger] out[i],
        #[trigger] out[j],
    ) by {
        let a = if i < at { i } else { i + 1 };
        let b = if j < at { j } else { j + 1 };
        assert(out[i] == labels[a] && out[j] == labels[b]);
    }
    assert forall|i: int| 0 <= i < at implies lex_lt(#[trigger] out[i], labels[at]) by {
        assert(out[i] == labels[i]);
    }
    if at < out.len() {
        assert(out[at] == labels[at + 1]);
        lemma_lex_asymmetric(labels[at], labels[at + 1]);
        lemma_lex_irreflexive(labels[at]);
    }
    lemma_lower_bound_is(out, labels[at], at);
}

/// Something that is ordered and found by a byte-string label.
pub trait Labeled: Sized {
    /// The label, as a mathematical byte string.
    spec fn label(&self) -> Seq<u8>;

    /// The label's bytes.
    fn label_bytes(&self) -> (b: &[u8])
        ensures
            b@ == self.label(),
    ;
}

/// The labels of a sequence of items, in the sequence's order.
pub open spec fn labels_of<T: Labeled>(items: Seq<T>) -> Seq<Seq<u8>> {
    Seq::new(items.len(), |i: int| items[i].label())
}

/// Items held in strictly ascending order of their labels.
pub struct SortedVec<T: Labeled> {
    items: Vec<T>,
}

impl<T: Labeled> View for SortedVec<T> {
    type V = Seq<T>;

    closed spec fn view(&self) -> Seq<T> {
        self.items@
    }
}

impl<T: Labeled> SortedVec<T> {
    /// The labels held, in ascending order.
    pub open spec fn labels(&self) -> Seq<Seq<u8>> {
        labels_of(self@)
    }

    /// The invariant: labels strictly ascend, so none occurs twice.
    pub open spec fn wf(&self) -> bool {
        sorted(self.labels())
    }

    /// An empty collection.
    pub fn new() -> (s: Self)
        ensures
            s.wf(),
            s@ == Seq::<T>::empty(),
    {
        let s = SortedVec { items: Vec::new() };
        assert(s.labels() =~= Seq::<Seq<u8>>::empty());
        s
    }

    /// The number of items.
    pub fn len(&self) -> (n: usize)
        ensures
            n == self@.len(),
    {
        self.items.len()
    }

    /// The item at place `i`.
    pub fn at(&self, i: usize) -> (item: &T)
        requires
            i < self@.len(),
        ensures
            *item == self@[i as int],
    {
        &self.items[i]
    }

    /// The place where `target` stands or would be inserted, and whether it
    /// stands there.
    pub fn search(&self, target: &[u8]) -> (r: (usize, bool))
        requires
            self.wf(),
        ensures
            r.0 == lower_bound(self.labels(), target@),
            r.1 == has_label(self.labels(), target@),
            r.0 <= self@.len(),
            r.1 ==> r.0 < self@.len(),
    {
        let ghost labels = self.labels();
        let mut lo: usize = 0;
        let mut hi: usize = self.items.len();
        while lo < hi
            invariant
                labels == self.labels(),
                sorted(labels),
                lo <= hi <= self.items@.len(),
                self.items@.len() == labels.len(),
                forall|i: int| 0 <= i < lo ==> lex_lt(#[trigger] labels[i], target@),
                forall|i: int| hi <= i < labels.len() ==> lex_lt(target@, #[trigger] labels[i]),
            decreases hi - lo,
        {
            let mid: usize = lo + (hi - lo) / 2;
            let here = self.items[mid].label_bytes();
            assert(here@ == labels[mid as int]);
            match rank(here, target) {
                Rank::Before => {
                    assert forall|i: int| 0 <= i < mid + 1 implies lex_lt(
                        #[trigger] labels[i],
                        target@,
                    ) by {
                        if i < mid {
                            lemma_lex_transitive(labels[i], labels[mid as int], target@);
                        }
                    }
                    lo = mid + 1;
                },
                Rank::Same => {
                    proof {
                        lemma_lower_bound_of_member(labels, mid as int);
                    }
                    return (mid, true);
                },
                Rank::After => {
                    proof {
                        crate::bytes::lemma_lex_total(here@, target@);
                    }
                    assert forall|i: int| mid <= i < labels.len() implies lex_lt(
                        target@,
                        #[trigger] labels[i],
                    ) by {
                        if i > mid {
                            lemma_lex_transitive(target@, labels[mid as int], labels[i]);
                        }
                    }
                    hi = mid;
                },
            }
        }
        proof {
            if lo < labels.len() {
                lemma_lex_asymmetric(target@, labels[lo as int]);
                lemma_lex_irreflexive(target@);
            }
            lemma_lower_bound_is(labels, target@, lo as int);
        }
        (lo, false)
    }

    /// The item labeled `target`, if there is one.
    pub fn find(&self, target: &[u8]) -> (found: Option<&T>)
        requires
            self.wf(),
        ensures
            found.is_some() == has_label(self.labels(), target@),
            found matches Some(item) ==> *item == self@[lower_bound(self.labels(), target@)],
    {
        let (p, found) = self.search(target);
        if found {
            Some(&self.items[p])
        } else {
            None
        }
    }

    /// Adds `item` behind all others. Its label comes after every label held.
    pub fn push_last(&mut self, item: T)
        requires
            old(self).wf(),
            old(self)@.len() > 0 ==> lex_lt(old(self)@.last().label(), item.label()),
        ensures
            final(self).wf(),
            final(self)@ == old(self)@.push(item),
    {
        let ghost labels = self.labels();
        self.items.push(item);
        proof {
            let after = self.labels();
            assert(after =~= labels.push(item.label()));
            assert forall|i: int, j: int| 0 <= i < j < after.len() implies lex_lt(
                #[trigger] after[i],
                #[trigger] after[j],
            ) by {
                if j == labels.len() {
                    assert(after[i] == labels[i]);
                    if i < labels.len() - 1 {
                        lemma_lex_transitive(labels[i], labels[labels.len() - 1], item.label());
                    }
                } else {
                    assert(after[i] == labels[i] && after[j] == labels[j]);
                }
            }
        }
    }

    /// Puts `item` at the place of its label, in place of the item that had
    /// that label, if any. Returns the item replaced.
    pub fn put(&mut self, item: T) -> (replaced: Option<T>)
        requires
            old(self).wf(),
        ensures
            final(self).wf(),
            final(self)@ == put_into(old(self)@, item),
            replaced == if has_label(old(self).labels(), item.label()) {
                Some(old(self)@[lower_bound(old(self).labels(), item.label())])
            } else {
                None::<T>
            },
    {
        let ghost before = self@;
        let ghost labels = self.labels();
        let (p, found) = self.search(item.label_bytes());
        if found {
            self.items.push(item);
            let previous = self.items.swap_remove(p);
            proof {
                assert(self@ =~= before.update(p as int, item));
                assert(self.labels() =~= labels);
            }
            Some(previous)
        } else {
            self.items.insert(p, item);
            proof {
                lemma_insert_sorted(labels, item.label());
                assert(self.labels() =~= labels.insert(p as int, item.label()));
            }
            None
        }
    }

    /// Takes out the item labeled `target`, if there is one.
    pub fn take(&mut self, target: &[u8]) -> (taken: Option<T>)
        requires
            old(self).wf(),
        ensures
            final(self).wf(),
            final(self)@ == take_from(old(self)@, target@),
            taken == if has_label(old(self).labels(), target@) {
                Some(old(self)@[lower_bound(old(self).labels(), target@)])
            } else {
                None::<T>
            },
    {
        let ghost labels = self.labels();
        let (p, found) = self.search(target);
        if found {
            let item = self.items.remove(p);
            proof {
                lemma_remove_sorted(labels, p as int);
                assert(self.labels() =~= labels.remove(p as int));
            }
            Some(item)
        } else {
            None
        }
    }
}

/// The sequence after `item` has taken the place of its label.
pub open spec fn put_into<T: Labeled>(items: Seq<T>, item: T) -> Seq<T> {
    let p = lower_bound(labels_of(items), item.label());
    if has_label(labels_of(items), item.label()) {
        items.update(p, item)
    } else {
        items.insert(p, item)
    }
}

/// The sequence without the item labeled `target`.
pub open spec fn take_from<T: Labeled>(items: Seq<T>, target: Seq<u8>) -> Seq<T> {
    let p = lower_bound(labels_of(items), target);
    if has_label(labels_of(items), target) {
        items.remove(p)
    } else {
        items
    }
}

/// Taking an item out and putting one with the same label in comes to the
/// same as putting it in directly.
pub proof fn lemma_take_then_put<T: Labeled>(items: Seq<T>, item: T)
    requires
        sorted(labels_of(items)),
    ensures
        put_into(take_from(items, item.label()), item) == put_into(items, item),
{
    let labels = labels_of(items);
    let target = item.label();
    let p = lower_bound(labels, target);
    lemma_lower_bound(labels, target);
    if has_label(labels, target) {
        lemma_remove_sorted(labels, p);
        assert(labels_of(items.remove(p)) =~= labels.remove(p));
        assert(items.remove(p).insert(p, item) =~= items.update(p, item));
    }
}

/// Every item of the sequence after a put is the item put or an item of the
/// sequence before, and the sequence stays sorted.
pub proof fn lemma_put_members<T: Labeled>(items: Seq<T>, item: T)
    requires
        sorted(labels_of(items)),
    ensures
        sorted(labels_of(put_into(items, item))),
        forall|i: int|
            0 <= i < put_into(items, item).len() ==> (#[trigger] put_into(items, item)[i] == item
                || items.contains(put_into(items, item)[i])),
{
    let labels = labels_of(items);
    let target = item.label();
    let p = lower_bound(labels, target);
    let out = put_into(items, item);
    lemma_lower_bound(labels, target);
    if has_label(labels, target) {
        assert(labels_of(out) =~= labels);
    } else {
        lemma_insert_sorted(labels, target);
        assert(labels_of(out) =~= labels.insert(p, target));
    }
    assert forall|i: int| 0 <= i < out.len() implies (#[trigger] out[i] == item || items.contains(
        out[i],
    )) by {
        if has_label(labels, target) {
            if i != p {
                assert(out[i] == items[i]);
            }
        } else {
            if i < p {
                assert(out[i] == items[i]);
            } else if i > p {
                assert(out[i] == items[i - 1]);
            }
        }
    }
}

/// Every item of the sequence after a take is an item of the sequence
/// before, and the sequence stays sorted.
pub proof fn lemma_take_members<T: Labeled>(items: Seq<T>, target: Seq<u8>)
    requires
        sorted(labels_of(items)),
    ensures
        sorted(labels_of(take_from(items, target))),
        forall|i: int|
            0 <= i < take_from(items, target).len() ==> items.contains(
                #[trigger] take_from(items, target)[i],
            ),
{
    let labels = labels_of(items);
    let p = lower_bound(labels, target);
    let out = take_from(items, target);
    lemma_lower_bound(labels, target);
    if has_label(labels, target) {
        lemma_remove_sorted(labels, p);
        assert(labels_of(out) =~= labels.remove(p));
    }
    assert forall|i: int| 0 <= i < out.len() implies items.contains(#[trigger] out[i]) by {
        if has_label(labels, target) {
            if i < p {
                assert(out[i] == items[i]);
            } else {
                assert(out[i] == items[i + 1]);
            }
        } else {
            assert(out[i] == items[i]);
        }
    }
}

/// Sorted labels with `target` among them.
pub open spec fn with_label(labels: Seq<Seq<u8>>, target: Seq<u8>) -> Seq<Seq<u8>> {
    if has_label(labels, target) {
        labels
    } else {
        labels.insert(lower_bound(labels, target), target)
    }
}

/// Sorted labels without `target`.
pub open spec fn without_label(labels: Seq<Seq<u8>>, target: Seq<u8>) -> Seq<Seq<u8>> {
    if has_label(labels, target) {
        labels.remove(lower_bound(labels, target))
    } else {
        labels
    }
}

/// Of two labels of which the first comes before the second, the first has
/// its place in sorted labels before or at the place of the second.
pub proof fn lemma_lower_bound_monotone(labels: Seq<Seq<u8>>, a: Seq<u8>, b: Seq<u8>)
    requires
        lex_lt(a, b),
    ensures
        lower_bound(labels, a) <= lower_bound(labels, b),
{
    let p = lower_bound(labels, a);
    let q = lower_bound(labels, b);
    lemma_lower_bound(labels, a);
    lemma_lower_bound(labels, b);
    if q < p {
        lemma_lex_transitive(labels[q], a, b);
    }
}

/// After a label has been put among sorted labels it stands at its place,
/// and any other label stands where it stood, moved on by one where the new
/// label came in before it.
pub proof fn lemma_put_labels(labels: Seq<Seq<u8>>, target: Seq<u8>, other: Seq<u8>)
    requires
        sorted(labels),
    ensures
        sorted(with_label(labels, target)),
        has_label(with_label(labels, target), target),
        lower_bound(with_label(labels, target), target) == lower_bound(labels, target),
        other != target ==> has_label(with_label(labels, target), other) == has_label(
            labels,
            other,
        ),
        other != target ==> lower_bound(with_label(labels, target), other) == lower_bound(
            labels,
            other,
        ) + (if !has_label(labels, target) && lex_lt(target, other) {
            1int
        } else {
            0int
        }),
{
    let p = lower_bound(labels, target);
    let q = lower_bound(labels, other);
    let after = with_label(labels, target);
    lemma_lower_bound(labels, target);
    lemma_lower_bound(labels, other);
    if has_label(labels, target) {
    } else {
        lemma_insert_sorted(labels, target);
        lemma_lower_bound_of_member(after, p);
        if other != target {
            crate::bytes::lemma_lex_total(target, other);
            if lex_lt(target, other) {
                lemma_lower_bound_monotone(labels, target, other);
                assert forall|i: int| 0 <= i < q + 1 implies lex_lt(#[trigger] after[i], other) by {
                    if i < p {
                        assert(after[i] == labels[i]);
                    } else if i > p {
                        assert(after[i] == labels[i - 1]);
                    }
                }
                if q + 1 < after.len() {
                    assert(after[q + 1] == labels[q]);
                }
                lemma_lower_bound_is(after, other, q + 1);
            } else {
                lemma_lower_bound_monotone(labels, other, target);
                lemma_lex_asymmetric(other, target);
                assert forall|i: int| 0 <= i < q implies lex_lt(#[trigger] after[i], other) by {
                    assert(after[i] == labels[i]);
                }
                if q < p {
                    assert(after[q] == labels[q]);
                } else {
                    assert(after[q] == target);
                }
                lemma_lower_bound_is(after, other, q);
                if q < labels.len() && q == p {
                    assert(after[q] != other);
                    lemma_after_lower_bound(labels, target, q);
                    if labels[q] == other {
                        crate::bytes::lemma_lex_total(labels[q], target);
                    }
                }
            }
        }
    }
}

/// After a label has been taken from sorted labels it is not among them,
/// and any other label stands where it stood, moved back by one where the
/// label taken stood before it.
pub proof fn lemma_take_labels(labels: Seq<Seq<u8>>, target: Seq<u8>, other: Seq<u8>)
    requires
        sorted(labels),
    ensures
        sorted(without_label(labels, target)),
        !has_label(without_label(labels, target), target),
        other != target ==> has_label(without_label(labels, target), other) == has_label(
            labels,
            other,
        ),
        other != target ==> lower_bound(without_label(labels, target), other) == lower_bound(
            labels,
            other,
        ) - (if has_label(labels, target) && lex_lt(target, other) {
            1int
        } else {
            0int
        }),
{
    let p = lower_bound(labels, target);
    let q = lower_bound(labels, other);
    let after = without_label(labels, target);
    lemma_lower_bound(labels, target);
    lemma_lower_bound(labels, other);
    if has_label(labels, target) {
        lemma_remove_sorted(labels, p);
        if other != target {
            crate::bytes::lemma_lex_total(target, other);
            if lex_lt(target, other) {
                lemma_lower_bound_monotone(labels, target, other);
                assert(q > p) by {
                    if q == p {
                        assert(labels[q] == target);
                    }
                }
                assert forall|i: int| 0 <= i < q - 1 implies lex_lt(#[trigger] after[i], other) by {
                    if i < p {
                        assert(after[i] == labels[i]);
                    } else {
                        assert(after[i] == labels[i + 1]);
                    }
                }
                if q - 1 < after.len() {
                    assert(after[q - 1] == labels[q]);
                }
                lemma_lower_bound_is(after, other, q - 1);
            } else {
                lemma_lower_bound_monotone(labels, other, target);
                lemma_lex_asymmetric(other, target);
                assert forall|i: int| 0 <= i < q implies lex_lt(#[trigger] after[i], other) by {
                    assert(after[i] == labels[i]);
                }
                if q < after.len() {
                    if q < p {
                        assert(after[q] == labels[q]);
                    } else {
                        assert(after[q] == labels[q + 1]);
                        lemma_lex_transitive(other, target, labels[q + 1]);
                        lemma_lex_asymmetric(other, labels[q + 1]);
                    }
                }
                lemma_lower_bound_is(after, other, q);
                if q == p {
                    assert(labels[q] == target);
                    if q < after.len() {
                        lemma_lex_irreflexive(other);
                    }
                }
            }
        }
    }
}

} // verus!
