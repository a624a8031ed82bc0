//! The entry points of the service. Each takes the caller as the host names
//! it, checks what the caller may do, and then reads or changes the store.

use crate::asset::{find_asset, headers_view, AssetModel};
use crate::error::Error;
use crate::http::{
    answers, continued, outcome, token_hash, CallbackFunc, HttpRequest, HttpResponse,
    StreamingCallbackHttpResponse, StreamingCallbackToken,
};
use crate::ordered::labels_of;
use crate::path::normal_key;
use crate::permissions::{granted_all, Permission, PermissionsModel, Principal};
use crate::snapshot::{valid_state, StableState};
use crate::state::{deleted, got, listed, store_accepted, stored, StateModel};
use crate::stores::config::{ConfigStore, Status};
use crate::stores::heap::{denial, StateStore};
use crate::text::utf8;
use crate::types::{
    details_view, texts_view, AssetDetails, DeleteAssetArguments, EncodedAsset, GetArg, StoreArg,
};
use vstd::prelude::*;
use vstd::string::StringExecFns;

verus! {

/// The version of the interface.
pub fn api_version() -> (version: String)
    ensures
        version@ == "0.0.2"@,
{
    String::from_str("0.0.2")
}

/// Whether `caller` holds `permission`: `Ok` if so, and otherwise what the
/// caller is told.
pub fn can(service: &StateStore, caller: &Principal, permission: Permission) -> (r: Result<
    (),
    String,
>)
    requires
        service.wf(),
    ensures
        r is Ok == service@.permissions.holds(caller@, permission),
        r matches Err(text) ==> text@ == denial(permission),
{
    service.can(caller, permission)
}

/// Whether `caller` may change the assets.
pub fn can_commit(service: &StateStore, caller: &Principal) -> (r: Result<(), String>)
    requires
        service.wf(),
    ensures
        r is Ok == service@.permissions.holds(caller@, Permission::Commit),
        r matches Err(text) ==> text@ == denial(Permission::Commit),
{
    can(service, caller, Permission::Commit)
}

/// Whether the caller is one of the controllers, which only the host knows:
/// `Ok` if the host says so, and otherwise what the caller is told.
pub fn is_controller(host_says: bool) -> (r: Result<(), String>)
    ensures
        r is Ok == host_says,
        r matches Err(text) ==> text@ == "Caller is not a controller."@,
{
    if host_says {
        Ok(())
    } else {
        Err(String::from_str("Caller is not a controller."))
    }
}

/// Sets the store up for its first caller: empties it and grants the caller
/// the commit permission.
pub fn init(service: &mut StateStore, caller: Principal)
    requires
        old(service).wf(),
    ensures
        final(service).wf(),
        final(service)@.assets == Seq::<AssetModel>::empty(),
        final(service)@.fallback == None::<Seq<char>>,
        final(service)@.permissions.commit == seq![caller@],
        final(service)@.permissions.manage == Seq::<Seq<u8>>::empty(),
        final(service)@.permissions.holds(caller@, Permission::Commit),
        final(service)@.chunk_budget == old(service)@.chunk_budget,
{
    service.clear();
    service.grant_permission(caller, &Permission::Commit);
    assert(service@.permissions.commit =~= seq![caller@]);
}

/// Stores one encoding of an asset for a caller who may commit. A caller
/// who may not is told `PermissionDenied`, and nothing changes. See
/// `State::store` for what is stored.
pub fn store(service: &mut StateStore, caller: &Principal, arg: StoreArg, time: u64) -> (r: Result<
    (),
    Error,
>)
    requires
        old(service).wf(),
    ensures
        final(service).wf(),
        r is Ok <==> old(service)@.permissions.holds(caller@, Permission::Commit) && store_accepted(
            arg.content@,
            arg.sha256,
        ),
        r is Ok ==> final(service)@ == stored(
            old(service)@,
            arg.key@,
            arg.content_type@,
            arg.content_encoding@,
            arg.content@,
            arg.aliased,
            time,
        ),
        r matches Err(e) ==> {
            &&& e == (if old(service)@.permissions.holds(caller@, Permission::Commit) {
                Error::Malformed
            } else {
                Error::PermissionDenied
            })
            &&& final(service)@ == old(service)@
            &&& final(service).published_root() == old(service).published_root()
        },
{
    if service.can(caller, Permission::Commit).is_err() {
        return Err(Error::PermissionDenied);
    }
    service.store(arg, time)
}

/// Deletes an asset for a caller who may commit. A caller who may not is
/// told `PermissionDenied`, and nothing changes.
pub fn delete_asset(service: &mut StateStore, caller: &Principal, arg: DeleteAssetArguments) -> (r:
    Result<(), Error>)
    requires
        old(service).wf(),
    ensures
        final(service).wf(),
        r is Ok <==> old(service)@.permissions.holds(caller@, Permission::Commit),
        r is Ok ==> final(service)@ == deleted(old(service)@, arg.key@) && find_asset(
            final(service)@.assets,
            utf8(normal_key(arg.key@)),
        ) is None,
        r matches Err(e) ==> {
            &&& e == Error::PermissionDenied
            &&& final(service)@ == old(service)@
            &&& final(service).published_root() == old(service).published_root()
        },
{
    if service.can(caller, Permission::Commit).is_err() {
        return Err(Error::PermissionDenied);
    }
    proof {
        service.lemma_inner();
    }
    let state = service.assets_mut();
    state.delete_asset(arg.key.as_str());
    proof {
        service.lemma_inner();
    }
    Ok(())
}

/// One encoding of an asset, whole, for a caller who may commit.
pub fn get(service: &StateStore, caller: &Principal, arg: GetArg) -> (r: Result<EncodedAsset, Error>)
    requires
        service.wf(),
    ensures
        r is Ok == (service@.permissions.holds(caller@, Permission::Commit) && got(
            service@,
            arg.key@,
            texts_view(arg.accept_encodings@),
        ) is Some),
        r matches Ok(x) ==> ({
            let (a, e) = got(service@, arg.key@, texts_view(arg.accept_encodings@)).unwrap();
            &&& x.content@ == e.content()
            &&& x.content_type@ == a.content_type
            &&& x.content_encoding@ == e.name
            &&& x.total_length == e.content().len()
            &&& x.sha256@ == e.sha256()
        }),
        r matches Err(e) ==> e == (if service@.permissions.holds(caller@, Permission::Commit) {
            Error::NotFound
        } else {
            Error::PermissionDenied
        }),
{
    if service.can(caller, Permission::Commit).is_err() {
        return Err(Error::PermissionDenied);
    }
    service.state().get(&arg)
}

/// The listing of all assets, for a caller who may commit.
pub fn list(service: &StateStore, caller: &Principal) -> (r: Result<Vec<AssetDetails>, Error>)
    requires
        service.wf(),
    ensures
        r is Ok == service@.permissions.holds(caller@, Permission::Commit),
        r matches Ok(listing) ==> details_view(listing@) == listed(
            service@.assets,
            0,
            service@.assets.len() as int,
        ),
        r matches Err(e) ==> e == Error::PermissionDenied,
{
    if service.can(caller, Permission::Commit).is_err() {
        return Err(Error::PermissionDenied);
    }
    Ok(service.state().list())
}

/// Grants a permission for a caller who may manage permissions.
pub fn grant_permission(
    service: &mut StateStore,
    caller: &Principal,
    principal: Principal,
    permission: Permission,
) -> (r: Result<(), Error>)
    requires
        old(service).wf(),
    ensures
        final(service).wf(),
        r is Ok <==> old(service)@.permissions.holds(caller@, Permission::ManagePermissions),
        r is Ok ==> final(service)@ == (StateModel {
            permissions: old(service)@.permissions.grant(principal@, permission),
            ..old(service)@
        }) && final(service)@.permissions.holds(principal@, permission),
        r matches Err(e) ==> e == Error::PermissionDenied && final(service)@ == old(service)@,
        final(service).published_root() == old(service).published_root(),
{
    if service.can(caller, Permission::ManagePermissions).is_err() {
        return Err(Error::PermissionDenied);
    }
    service.grant_permission(principal, &permission);
    Ok(())
}

/// Revokes a permission for a caller who may manage permissions. The last
/// holder of a permission can be revoked like any other.
pub fn revoke_permission(
    service: &mut StateStore,
    caller: &Principal,
    principal: Principal,
    permission: Permission,
) -> (r: Result<(), Error>)
    requires
        old(service).wf(),
    ensures
        final(service).wf(),
        r is Ok <==> old(service)@.permissions.holds(caller@, Permission::ManagePermissions),
        r is Ok ==> final(service)@ == (StateModel {
            permissions: old(service)@.permissions.revoke(principal@, permission),
            ..old(service)@
        }) && !final(service)@.permissions.holds(principal@, permission),
        r matches Err(e) ==> e == Error::PermissionDenied && final(service)@ == old(service)@,
        final(service).published_root() == old(service).published_root(),
{
    if service.can(caller, Permission::ManagePermissions).is_err() {
        return Err(Error::PermissionDenied);
    }
    service.revoke_permission(principal, &permission);
    Ok(())
}

/// Answers a request. Anyone may ask.
pub fn http_request(service: &StateStore, req: HttpRequest, certificate: &[u8], callback: CallbackFunc) -> (resp:
    HttpResponse)
    requires
        service.wf(),
    ensures
        answers(
            resp,
            service@,
            outcome(service@, utf8(req.url@), headers_view(req.headers@)),
            certificate@,
            callback,
        ),
{
    service.http_request(req, certificate, callback)
}

/// Returns the chunk that a continuation token asks for. Anyone may ask.
pub fn http_request_streaming_callback(service: &StateStore, token: StreamingCallbackToken) -> (r:
    Result<StreamingCallbackHttpResponse, Error>)
    requires
        service.wf(),
    ensures
        match continued(
            service@,
            token.key@,
            token.content_encoding@,
            token.index as nat,
            token_hash(token),
        ) {
            Ok((e, more)) => {
                &&& r matches Ok(resp)
                &&& resp.body@ == e.chunks[token.index as int]
                &&& resp.token is Some == more
                &&& resp.token matches Some(next) ==> {
                    &&& next.key@ == token.key@
                    &&& next.content_encoding@ == token.content_encoding@
                    &&& next.index == token.index + 1
                    &&& token_hash(next) == token_hash(token)
                }
            },
            Err(e) => r == Err::<StreamingCallbackHttpResponse, Error>(e),
        },
{
    service.http_request_streaming_callback(token)
}

/// Answers a continuation call without ever aborting it for a token that
/// names nothing: such a token ends the stream, with an empty body and no
/// further token. A token that names a chunk is answered with the chunk, as
/// `http_request_streaming_callback` does, and one that is stale fails with
/// `Stale`.
pub fn continue_stream(service: &StateStore, token: StreamingCallbackToken) -> (r: Result<
    StreamingCallbackHttpResponse,
    Error,
>)
    requires
        service.wf(),
    ensures
        match continued(
            service@,
            token.key@,
            token.content_encoding@,
            token.index as nat,
            token_hash(token),
        ) {
            Ok((e, more)) => {
                &&& r matches Ok(resp)
                &&& resp.body@ == e.chunks[token.index as int]
                &&& resp.token is Some == more
                &&& resp.token matches Some(next) ==> {
                    &&& next.key@ == token.key@
                    &&& next.content_encoding@ == token.content_encoding@
                    &&& next.index == token.index + 1
                    &&& token_hash(next) == token_hash(token)
                }
            },
            Err(Error::NotFound) => {
                &&& r matches Ok(resp)
                &&& resp.body@.len() == 0
                &&& resp.token is None
            },
            Err(e) => r == Err::<StreamingCallbackHttpResponse, Error>(e),
        },
{
    match service.http_request_streaming_callback(token) {
        Ok(resp) => Ok(resp),
        Err(Error::NotFound) => Ok(StreamingCallbackHttpResponse { body: Vec::new(), token: None }),
        Err(e) => Err(e),
    }
}

/// Takes the state out of the store for a restart: returns its snapshot and
/// leaves the store empty.
pub fn pre_upgrade(service: &mut StateStore) -> (snapshot: StableState)
    requires
        old(service).wf(),
    ensures
        final(service).wf(),
        snapshot@ == old(service)@,
        valid_state(snapshot@),
        final(service)@.assets == Seq::<AssetModel>::empty(),
{
    let snapshot = service.export();
    service.clear();
    snapshot
}

/// The lists of holders that an upgrade may set.
pub struct SetPermissions {
    pub commit: Vec<Principal>,
    pub manage_permissions: Vec<Principal>,
}

/// Puts the state of a snapshot into the store after a restart, with hashes,
/// tree and root computed anew, and then sets the holders of the permissions
/// where the upgrade names them. Fails with `Malformed`, and changes
/// nothing, where what the snapshot holds is not a valid state.
pub fn post_upgrade(
    service: &mut StateStore,
    stable_state: StableState,
    set_permissions: Option<SetPermissions>,
) -> (r: Result<(), Error>)
    requires
        old(service).wf(),
    ensures
        final(service).wf(),
        r is Ok == valid_state(stable_state@),
        r is Ok ==> final(service)@ == (StateModel {
            permissions: match set_permissions {
                Some(lists) => PermissionsModel {
                    commit: granted_all(Seq::<Seq<u8>>::empty(), labels_of(lists.commit@)),
                    manage: granted_all(
                        Seq::<Seq<u8>>::empty(),
                        labels_of(lists.manage_permissions@),
                    ),
                },
                None => stable_state@.permissions,
            },
            ..stable_state@
        }),
        r matches Err(e) ==> e == Error::Malformed && final(service)@ == old(service)@
            && final(service).published_root() == old(service).published_root(),
{
    let mut restored = match StateStore::import(&stable_state) {
        Ok(s) => s,
        Err(e) => {
            return Err(e);
        },
    };
    match &set_permissions {
        Some(lists) => {
            proof {
                restored.lemma_inner();
            }
            let state = restored.assets_mut();
            state.set_permitted(Permission::Commit, &lists.commit);
            state.set_permitted(Permission::ManagePermissions, &lists.manage_permissions);
            proof {
                restored.lemma_inner();
            }
        },
        None => {},
    }
    *service = restored;
    Ok(())
}

/// The status of the service, for a caller who identified itself.
pub fn status(config: &ConfigStore, caller: &Principal) -> (r: Result<Status, Error>)
    ensures
        r == (if caller@ == seq![4u8] {
            Err::<Status, Error>(Error::PermissionDenied)
        } else {
            Ok::<Status, Error>(config@.0)
        }),
{
    if caller.same_as(&Principal::anonymous()) {
        return Err(Error::PermissionDenied);
    }
    Ok(config.status())
}

/// Whether the service has been set up, for a caller who identified itself.
pub fn active(config: &ConfigStore, caller: &Principal) -> (r: Result<bool, Error>)
    ensures
        r == (if caller@ == seq![4u8] {
            Err::<bool, Error>(Error::PermissionDenied)
        } else {
            Ok::<bool, Error>(config@.0 is Active)
        }),
{
    if caller.same_as(&Principal::anonymous()) {
        return Err(Error::PermissionDenied);
    }
    Ok(config.is_active())
}

/// The identity that the service runs for. Fails with `NotFound` where none
/// is set.
pub fn ii_principal(config: &ConfigStore) -> (r: Result<Principal, Error>)
    ensures
        r is Ok == config@.1 is Some,
        r matches Ok(p) ==> config@.1 == Some(p@),
        r matches Err(e) ==> e == Error::NotFound,
{
    match config.ii_principal() {
        Some(p) => Ok(p),
        None => Err(Error::NotFound),
    }
}

} // verus!
