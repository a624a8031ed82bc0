//! Handing the service over to an identity: what the first step decides,
//! which controllers the host is then asked to set, and what is granted and
//! recorded when the host has done so.
//!
//! The calls to the host lie between these steps and are not made here. A
//! hand-over that needs the host changes nothing before the host has done
//! its part, so that one that fails leaves nothing behind.

use crate::error::Error;
use crate::ordered::labels_of;
use crate::permissions::{Permission, Principal};
use crate::state::StateModel;
use crate::stores::config::{ConfigStore, Mode, Status};
use crate::stores::heap::StateStore;
use vstd::prelude::*;

verus! {

/// What a grant of ownership is given.
pub struct GrantOwnershipArgs {
    pub mode: Mode,
    pub ii_principal: Principal,
}

/// What is left to do after the first step of a grant of ownership.
#[derive(Clone, Copy, Debug, PartialEq, Eq, Structural)]
pub enum OwnershipStep {
    /// Nothing: the identity may commit, and that is all.
    Done,
    /// The host is to be asked for the controllers and then to set new
    /// ones; nothing has been granted or recorded yet.
    UpdateControllers,
}

/// The first step of a grant of ownership. On trial the identity is granted
/// the commit permission and recorded, and that is all. In the other modes
/// nothing changes yet: the host has to set the controllers first. Fails
/// with `AlreadyExists`, and changes nothing, where the service has been set
/// up already.
pub fn handle_grant_ownership(
    config: &mut ConfigStore,
    service: &mut StateStore,
    args: &GrantOwnershipArgs,
) -> (r: Result<OwnershipStep, Error>)
    requires
        old(service).wf(),
    ensures
        final(service).wf(),
        r is Ok == !(old(config)@.0 is Active),
        r matches Ok(step) ==> step == (if args.mode == Mode::Trial {
            OwnershipStep::Done
        } else {
            OwnershipStep::UpdateControllers
        }),
        r matches Err(e) ==> e == Error::AlreadyExists,
        r is Ok && args.mode == Mode::Trial ==> {
            &&& final(config)@ == (old(config)@.0, Some(args.ii_principal@))
            &&& final(service)@ == (StateModel {
                permissions: old(service)@.permissions.grant(
                    args.ii_principal@,
                    Permission::Commit,
                ),
                ..old(service)@
            })
            &&& final(service)@.permissions.holds(args.ii_principal@, Permission::Commit)
        },
        r is Err || args.mode != Mode::Trial ==> final(config)@ == old(config)@
            && final(service)@ == old(service)@,
        final(service).published_root() == old(service).published_root(),
{
    if config.is_active() {
        return Err(Error::AlreadyExists);
    }
    match args.mode {
        Mode::Trial => {
            config.set_ii_principal(args.ii_principal.duplicate());
            service.grant_permission(args.ii_principal.duplicate(), &Permission::Commit);
            Ok(OwnershipStep::Done)
        },
        _ => Ok(OwnershipStep::UpdateControllers),
    }
}

/// The controllers that a grant of ownership asks the host to set: for a
/// developer the controllers as they are and the identity behind them; for
/// a user the service itself and the identity, and no other; on trial the
/// controllers as they are.
pub open spec fn controllers_after(
    mode: Mode,
    service: Seq<u8>,
    identity: Seq<u8>,
    current: Seq<Seq<u8>>,
) -> Seq<Seq<u8>> {
    match mode {
        Mode::Developer => current.push(identity),
        Mode::User => seq![service, identity],
        Mode::Trial => current,
    }
}

/// A copy of a list of principals.
pub fn copy_principals(list: &Vec<Principal>) -> (copy: Vec<Principal>)
    ensures
        labels_of(copy@) == labels_of(list@),
{
    let mut copy: Vec<Principal> = Vec::new();
    let ghost all = labels_of(list@);
    let mut i: usize = 0;
    while i < list.len()
        invariant
            all == labels_of(list@),
            i <= list@.len(),
            labels_of(copy@) == all.take(i as int),
        decreases list@.len() - i,
    {
        let ghost before = labels_of(copy@);
        copy.push(list[i].duplicate());
        assert(labels_of(copy@) =~= before.push(all[i as int]));
        assert(all.take(i + 1) =~= all.take(i as int).push(all[i as int]));
        i += 1;
    }
    assert(all.take(i as int) =~= all);
    copy
}

/// The controllers that a grant of ownership asks the host to set.
pub fn controllers_for(mode: Mode, service: &Principal, identity: &Principal, current: &Vec<Principal>) -> (next:
    Vec<Principal>)
    ensures
        labels_of(next@) == controllers_after(mode, service@, identity@, labels_of(current@)),
{
    match mode {
        Mode::Developer => add_controller(current, identity),
        Mode::User => {
            let mut next: Vec<Principal> = Vec::new();
            next.push(service.duplicate());
            next.push(identity.duplicate());
            assert(labels_of(next@) =~= seq![service@, identity@]);
            next
        },
        Mode::Trial => copy_principals(current),
    }
}

/// The controllers with one more behind them.
pub fn add_controller(current: &Vec<Principal>, p: &Principal) -> (next: Vec<Principal>)
    ensures
        labels_of(next@) == labels_of(current@).push(p@),
{
    let mut next = copy_principals(current);
    let ghost before = labels_of(next@);
    next.push(p.duplicate());
    assert(labels_of(next@) =~= before.push(p@));
    next
}

/// The last step of a grant of ownership, when the host has set the
/// controllers: the identity is granted the commit permission and recorded,
/// and the service is active in the mode of the grant.
pub fn complete_grant_ownership(
    config: &mut ConfigStore,
    service: &mut StateStore,
    args: &GrantOwnershipArgs,
)
    requires
        old(service).wf(),
    ensures
        final(service).wf(),
        final(config)@ == (Status::Active(args.mode), Some(args.ii_principal@)),
        final(service)@ == (StateModel {
            permissions: old(service)@.permissions.grant(args.ii_principal@, Permission::Commit),
            ..old(service)@
        }),
        final(service)@.permissions.holds(args.ii_principal@, Permission::Commit),
        final(service).published_root() == old(service).published_root(),
{
    service.grant_permission(args.ii_principal.duplicate(), &Permission::Commit);
    config.set_ii_principal(args.ii_principal.duplicate());
    config.set_status(Status::Active(args.mode));
}

/// The principals of a list that are neither `a` nor `b`, in the order of
/// the list.
pub open spec fn others(list: Seq<Seq<u8>>, a: Seq<u8>, b: Seq<u8>) -> Seq<Seq<u8>>
    decreases list.len(),
{
    if list.len() == 0 {
        Seq::empty()
    } else if list.last() != a && list.last() != b {
        others(list.drop_last(), a, b).push(list.last())
    } else {
        others(list.drop_last(), a, b)
    }
}

/// The owners among the controllers: every controller but the identity and
/// the service itself.
pub fn owners(controllers: &Vec<Principal>, identity: &Principal, service: &Principal) -> (rest: Vec<
    Principal,
>)
    ensures
        labels_of(rest@) == others(labels_of(controllers@), identity@, service@),
{
    let mut rest: Vec<Principal> = Vec::new();
    let ghost all = labels_of(controllers@);
    let mut i: usize = 0;
    assert(all.take(0) =~= Seq::<Seq<u8>>::empty());
    while i < controllers.len()
        invariant
            all == labels_of(controllers@),
            i <= controllers@.len(),
            labels_of(rest@) == others(all.take(i as int), identity@, service@),
        decreases controllers@.len() - i,
    {
        let ghost before = labels_of(rest@);
        let ghost next = all.take(i + 1);
        assert(next.drop_last() =~= all.take(i as int));
        assert(next.last() == controllers@[i as int]@);
        let p = &controllers[i];
        if !p.same_as(identity) && !p.same_as(service) {
            rest.push(p.duplicate());
            assert(labels_of(rest@) =~= before.push(p@));
        }
        i += 1;
    }
    assert(all.take(i as int) =~= all);
    rest
}

} // verus!
