//! Who may do what: principals and the permissions granted to them.

use crate::bytes::{bytes_eq, to_vec};
use crate::ordered::{has_label, labels_of, sorted, Labeled, SortedVec};
use vstd::prelude::*;

verus! {

/// An opaque caller identity, as the host names it.
#[derive(Clone, Debug, PartialEq, Eq, PartialOrd, Ord, Hash)]
pub struct Principal {
    bytes: Vec<u8>,
}

impl View for Principal {
    type V = Seq<u8>;

    closed spec fn view(&self) -> Seq<u8> {
        self.bytes@
    }
}

impl Labeled for Principal {
    open spec fn label(&self) -> Seq<u8> {
        self@
    }

    fn label_bytes(&self) -> (b: &[u8]) {
        self.bytes.as_slice()
    }
}

impl Principal {
    /// The principal with the given bytes.
    pub fn from_slice(bytes: &[u8]) -> (p: Principal)
        ensures
            p@ == bytes@,
    {
        Principal { bytes: to_vec(bytes) }
    }

    /// The bytes of the principal.
    pub fn as_slice(&self) -> (bytes: &[u8])
        ensures
            bytes@ == self@,
    {
        self.bytes.as_slice()
    }

    /// The principal of a caller that did not identify itself: the single
    /// byte 4.
    pub fn anonymous() -> (p: Principal)
        ensures
            p@ == seq![4u8],
    {
        let mut bytes: Vec<u8> = Vec::new();
        bytes.push(4u8);
        assert(bytes@ =~= seq![4u8]);
        Principal { bytes }
    }

    /// Whether two principals are the same.
    pub fn same_as(&self, other: &Principal) -> (same: bool)
        ensures
            same == (self@ == other@),
    {
        bytes_eq(self.bytes.as_slice(), other.bytes.as_slice())
    }

    /// A copy of the principal.
    pub fn duplicate(&self) -> (p: Principal)
        ensures
            p@ == self@,
    {
        Principal { bytes: to_vec(self.bytes.as_slice()) }
    }
}

/// A capability that a principal can hold.
#[derive(Clone, Copy, Debug, PartialEq, Eq, Structural)]
pub enum Permission {
    /// May change the assets.
    Commit,
    /// May grant and revoke permissions.
    ManagePermissions,
}

/// The holders of each permission, as mathematical values: two lists of
/// principals in ascending order.
pub struct PermissionsModel {
    pub commit: Seq<Seq<u8>>,
    pub manage: Seq<Seq<u8>>,
}

impl PermissionsModel {
    /// The holders of `permission`.
    pub open spec fn holders(self, permission: Permission) -> Seq<Seq<u8>> {
        match permission {
            Permission::Commit => self.commit,
            Permission::ManagePermissions => self.manage,
        }
    }

    /// Whether `principal` holds `permission`.
    pub open spec fn holds(self, principal: Seq<u8>, permission: Permission) -> bool {
        has_label(self.holders(permission), principal)
    }

    /// The lists after `principal` has been granted `permission`.
    pub open spec fn grant(self, principal: Seq<u8>, permission: Permission) -> PermissionsModel {
        match permission {
            Permission::Commit => PermissionsModel {
                commit: with_principal(self.commit, principal),
                ..self
            },
            Permission::ManagePermissions => PermissionsModel {
                manage: with_principal(self.manage, principal),
                ..self
            },
        }
    }

    /// The lists after `permission` has been taken from `principal`.
    pub open spec fn revoke(self, principal: Seq<u8>, permission: Permission) -> PermissionsModel {
        match permission {
            Permission::Commit => PermissionsModel {
                commit: without_principal(self.commit, principal),
                ..self
            },
            Permission::ManagePermissions => PermissionsModel {
                manage: without_principal(self.manage, principal),
                ..self
            },
        }
    }

    /// Both lists are in strictly ascending order.
    pub open spec fn wf(self) -> bool {
        sorted(self.commit) && sorted(self.manage)
    }
}

/// A sorted list with `principal` in it.
pub open spec fn with_principal(list: Seq<Seq<u8>>, principal: Seq<u8>) -> Seq<Seq<u8>> {
    if has_label(list, principal) {
        list
    } else {
        list.insert(crate::ordered::lower_bound(list, principal), principal)
    }
}

/// A sorted list with each of `principals` in it.
pub open spec fn granted_all(list: Seq<Seq<u8>>, principals: Seq<Seq<u8>>) -> Seq<Seq<u8>>
    decreases principals.len(),
{
    if principals.len() == 0 {
        list
    } else {
        granted_all(with_principal(list, principals[0]), principals.drop_first())
    }
}

/// A sorted list without `principal`.
pub open spec fn without_principal(list: Seq<Seq<u8>>, principal: Seq<u8>) -> Seq<Seq<u8>> {
    if has_label(list, principal) {
        list.remove(crate::ordered::lower_bound(list, principal))
    } else {
        list
    }
}

/// The permissions granted to each principal.
pub struct PermissionRegistry {
    commit: SortedVec<Principal>,
    manage: SortedVec<Principal>,
}

impl View for PermissionRegistry {
    type V = PermissionsModel;

    closed spec fn view(&self) -> PermissionsModel {
        PermissionsModel { commit: self.commit.labels(), manage: self.manage.labels() }
    }
}

/// Grants in a list: puts `principal` at its place unless it is there.
fn grant_in(list: &mut SortedVec<Principal>, principal: &Principal)
    requires
        old(list).wf(),
    ensures
        final(list).wf(),
        final(list).labels() == with_principal(old(list).labels(), principal@),
{
    let ghost before = list@;
    let (p, found) = list.search(principal.as_slice());
    if !found {
        let fresh = principal.duplicate();
        list.put(fresh);
        assert(list.labels() =~= with_principal(labels_of(before), principal@));
    }
}

/// Revokes in a list: removes `principal` if it is there.
fn revoke_in(list: &mut SortedVec<Principal>, principal: &Principal)
    requires
        old(list).wf(),
    ensures
        final(list).wf(),
        final(list).labels() == without_principal(old(list).labels(), principal@),
{
    let ghost before = list@;
    proof {
        crate::ordered::lemma_lower_bound(labels_of(before), principal@);
    }
    list.take(principal.as_slice());
    assert(list.labels() =~= without_principal(labels_of(before), principal@));
}

/// The principals of a list, copied out in order.
fn principals_of(list: &SortedVec<Principal>) -> (out: Vec<Principal>)
    ensures
        labels_of(out@) == list.labels(),
{
    let mut out: Vec<Principal> = Vec::new();
    let mut i: usize = 0;
    while i < list.len()
        invariant
            i <= list@.len(),
            labels_of(out@) == list.labels().take(i as int),
        decreases list@.len() - i,
    {
        let ghost before = labels_of(out@);
        out.push(list.at(i).duplicate());
        assert(labels_of(out@) =~= before.push(list.labels()[i as int]));
        assert(list.labels().take(i + 1) =~= list.labels().take(i as int).push(
            list.labels()[i as int],
        ));
        i += 1;
    }
    assert(list.labels().take(i as int) =~= list.labels());
    out
}

/// A sorted list with the given principals. `None` where they do not stand
/// in strictly ascending order.
fn restore_list(list: &Vec<Principal>) -> (r: Option<SortedVec<Principal>>)
    ensures
        r is Some == sorted(labels_of(list@)),
        r matches Some(x) ==> x.wf() && x.labels() == labels_of(list@),
{
    let ghost labels = labels_of(list@);
    let mut out: SortedVec<Principal> = SortedVec::new();
    let mut i: usize = 0;
    assert(out.labels() =~= labels.take(0));
    while i < list.len()
        invariant
            labels == labels_of(list@),
            i <= list@.len(),
            out.wf(),
            out@.len() == i,
            out.labels() == labels.take(i as int),
        decreases list@.len() - i,
    {
        let ghost before = out.labels();
        if i > 0 {
            let last = out.at(i - 1);
            assert(last.label() == out.labels()[i - 1]);
            match crate::bytes::rank(last.as_slice(), list[i].as_slice()) {
                crate::bytes::Rank::Before => {},
                _ => {
                    proof {
                        crate::bytes::lemma_lex_irreflexive(labels[i as int]);
                        assert(!crate::bytes::lex_lt(labels[i - 1], labels[i as int]));
                    }
                    return None;
                },
            }
        }
        out.push_last(list[i].duplicate());
        assert(out.labels() =~= before.push(labels[i as int]));
        assert(labels.take(i + 1) =~= labels.take(i as int).push(labels[i as int]));
        i += 1;
    }
    assert(labels.take(i as int) =~= labels);
    Some(out)
}

impl PermissionRegistry {
    /// The registry with the given lists of holders. `None` where a list
    /// does not stand in strictly ascending order.
    pub fn restore(commit: &Vec<Principal>, manage: &Vec<Principal>) -> (r: Option<Self>)
        ensures
            r is Some == (sorted(labels_of(commit@)) && sorted(labels_of(manage@))),
            r matches Some(x) ==> x.wf() && x@ == (PermissionsModel {
                commit: labels_of(commit@),
                manage: labels_of(manage@),
            }),
    {
        let commit = match restore_list(commit) {
            Some(list) => list,
            None => {
                return None;
            },
        };
        let manage = match restore_list(manage) {
            Some(list) => list,
            None => {
                return None;
            },
        };
        Some(PermissionRegistry { commit, manage })
    }

    /// The invariant: each list of holders is in strictly ascending order, so
    /// no principal occurs twice in it.
    pub closed spec fn wf(&self) -> bool {
        self.commit.wf() && self.manage.wf()
    }

    /// A well-formed registry has well-formed lists.
    pub proof fn lemma_wf(&self)
        requires
            self.wf(),
        ensures
            self@.wf(),
    {
    }

    /// The registry without any grant.
    pub fn new() -> (r: Self)
        ensures
            r.wf(),
            r@.commit == Seq::<Seq<u8>>::empty(),
            r@.manage == Seq::<Seq<u8>>::empty(),
    {
        let r = PermissionRegistry { commit: SortedVec::new(), manage: SortedVec::new() };
        assert(r@.commit =~= Seq::<Seq<u8>>::empty());
        assert(r@.manage =~= Seq::<Seq<u8>>::empty());
        r
    }

    /// Grants `permission` to `principal`.
    pub fn grant(&mut self, principal: &Principal, permission: Permission)
        requires
            old(self).wf(),
        ensures
            final(self).wf(),
            final(self)@ == old(self)@.grant(principal@, permission),
            final(self)@.holds(principal@, permission),
    {
        match permission {
            Permission::Commit => grant_in(&mut self.commit, principal),
            Permission::ManagePermissions => grant_in(&mut self.manage, principal),
        }
        proof {
            lemma_grant_holds(old(self)@.holders(permission), principal@);
        }
    }

    /// Takes `permission` from `principal`. Nothing guards the last holder of
    /// a permission: it can be revoked like any other.
    pub fn revoke(&mut self, principal: &Principal, permission: Permission)
        requires
            old(self).wf(),
        ensures
            final(self).wf(),
            final(self)@ == old(self)@.revoke(principal@, permission),
            !final(self)@.holds(principal@, permission),
    {
        match permission {
            Permission::Commit => revoke_in(&mut self.commit, principal),
            Permission::ManagePermissions => revoke_in(&mut self.manage, principal),
        }
        proof {
            lemma_revoke_holds(old(self)@.holders(permission), principal@);
        }
    }

    /// Makes `principals` the holders of `permission`, in place of those
    /// who held it.
    pub fn set_holders(&mut self, permission: Permission, principals: &Vec<Principal>)
        requires
            old(self).wf(),
        ensures
            final(self).wf(),
            final(self)@.holders(permission) == granted_all(
                Seq::<Seq<u8>>::empty(),
                labels_of(principals@),
            ),
            final(self)@ == (match permission {
                Permission::Commit => PermissionsModel {
                    commit: final(self)@.commit,
                    ..old(self)@
                },
                Permission::ManagePermissions => PermissionsModel {
                    manage: final(self)@.manage,
                    ..old(self)@
                },
            }),
    {
        let ghost all = labels_of(principals@);
        let mut list: SortedVec<Principal> = SortedVec::new();
        let mut i: usize = 0;
        assert(list.labels() =~= Seq::<Seq<u8>>::empty());
        assert(all.skip(0) =~= all);
        while i < principals.len()
            invariant
                all == labels_of(principals@),
                i <= principals@.len(),
                list.wf(),
                granted_all(Seq::<Seq<u8>>::empty(), all) == granted_all(
                    list.labels(),
                    all.skip(i as int),
                ),
            decreases principals@.len() - i,
        {
            let ghost rest = all.skip(i as int);
            assert(rest[0] == principals@[i as int]@);
            assert(rest.drop_first() =~= all.skip(i + 1));
            grant_in(&mut list, &principals[i]);
            i += 1;
        }
        match permission {
            Permission::Commit => {
                self.commit = list;
            },
            Permission::ManagePermissions => {
                self.manage = list;
            },
        }
    }

    /// Whether `principal` holds `permission`.
    pub fn check(&self, principal: &Principal, permission: Permission) -> (held: bool)
        requires
            self.wf(),
        ensures
            held == self@.holds(principal@, permission),
    {
        match permission {
            Permission::Commit => self.commit.search(principal.as_slice()).1,
            Permission::ManagePermissions => self.manage.search(principal.as_slice()).1,
        }
    }

    /// The holders of `permission`, in ascending order.
    pub fn list(&self, permission: Permission) -> (holders: Vec<Principal>)
        ensures
            labels_of(holders@) == self@.holders(permission),
    {
        match permission {
            Permission::Commit => principals_of(&self.commit),
            Permission::ManagePermissions => principals_of(&self.manage),
        }
    }
}

/// After a grant the principal is in the list, and the list is still sorted.
pub proof fn lemma_grant_holds(list: Seq<Seq<u8>>, principal: Seq<u8>)
    requires
        sorted(list),
    ensures
        sorted(with_principal(list, principal)),
        has_label(with_principal(list, principal), principal),
{
    if !has_label(list, principal) {
        crate::ordered::lemma_insert_sorted(list, principal);
        crate::ordered::lemma_lower_bound(list, principal);
    }
}

/// After a revocation the principal is not in the list, and the list is
/// still sorted.
pub proof fn lemma_revoke_holds(list: Seq<Seq<u8>>, principal: Seq<u8>)
    requires
        sorted(list),
    ensures
        sorted(without_principal(list, principal)),
        !has_label(without_principal(list, principal), principal),
{
    if has_label(list, principal) {
        crate::ordered::lemma_lower_bound(list, principal);
        crate::ordered::lemma_remove_sorted(list, crate::ordered::lower_bound(list, principal));
    }
}

} // verus!
