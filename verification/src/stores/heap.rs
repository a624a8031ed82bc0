//! The certified asset store as one owned service object.

use crate::error::Error;
use crate::hash::Hash256;
use crate::http::{
    answers, continued, outcome, token_hash, CallbackFunc, HttpRequest, HttpResponse,
    StreamingCallbackHttpResponse, StreamingCallbackToken,
};
use crate::asset::{find_asset, headers_view, put_asset, AssetModel};
use crate::path::normal_key;
use crate::permissions::{Permission, Principal};
use crate::snapshot::{valid_state, StableState};
use crate::state::{
    state_root, store_accepted, stored, with_properties, State, StateModel,
};
use crate::text::utf8;
use crate::types::{SetAssetPropertiesArguments, StoreArg};
use vstd::prelude::*;
use vstd::string::StringExecFns;

verus! {

/// The chunk budget of a store that is made without one: 1900000 bytes, which
/// leaves room for the rest of a response in a message of two megabytes.
pub const DEFAULT_CHUNK_BUDGET: usize = 1900000;

/// The service object that owns the state of the asset store. Handlers get
/// it by reference; nothing reaches the state any other way.
pub struct StateStore {
    state: State,
}

impl View for StateStore {
    type V = StateModel;

    closed spec fn view(&self) -> StateModel {
        self.state@
    }
}

/// The text of a permission.
pub open spec fn permission_name(permission: Permission) -> Seq<char> {
    match permission {
        Permission::Commit => "Commit"@,
        Permission::ManagePermissions => "ManagePermissions"@,
    }
}

/// What a caller without `permission` is told.
pub open spec fn denial(permission: Permission) -> Seq<char> {
    "Caller does not have "@ + permission_name(permission) + " permission"@
}

impl StateStore {
    /// The state that the store owns.
    pub closed spec fn inner(&self) -> State {
        self.state
    }

    /// The invariant of the state that the store owns.
    pub closed spec fn wf(&self) -> bool {
        self.state.wf()
    }

    /// View, invariant and root of the store are those of its state.
    pub proof fn lemma_inner(&self)
        ensures
            self@ == self.inner()@,
            self.wf() == self.inner().wf(),
            self.published_root() == self.inner().published_root(),
    {
    }

    /// The root that the store holds and publishes.
    pub closed spec fn published_root(&self) -> Seq<u8> {
        self.state.published_root()
    }

    /// In a well-formed store the state is valid and the root held is the
    /// root computed from the assets.
    pub proof fn lemma_wf(&self)
        requires
            self.wf(),
        ensures
            valid_state(self@),
            self.published_root() == state_root(self@),
    {
        self.state.lemma_wf();
    }

    /// A store without assets or permissions, with the given chunk budget.
    pub fn new(chunk_budget: usize) -> (s: StateStore)
        ensures
            s.wf(),
            s@.assets == Seq::<AssetModel>::empty(),
            s@.fallback == None::<Seq<char>>,
            s@.permissions.commit == Seq::<Seq<u8>>::empty(),
            s@.permissions.manage == Seq::<Seq<u8>>::empty(),
            s@.chunk_budget == if chunk_budget == 0 {
                1nat
            } else {
                chunk_budget as nat
            },
    {
        StateStore { state: State::new(chunk_budget) }
    }

    /// The state, for reading.
    pub fn state(&self) -> (s: &State)
        ensures
            s@ == self@,
            s.wf() == self.wf(),
            s.published_root() == self.published_root(),
    {
        &self.state
    }

    /// The state, for changing it in place. Whoever changes it keeps it
    /// well formed.
    pub fn assets_mut(&mut self) -> (s: &mut State)
        ensures
            *s == old(self).inner(),
            final(self).inner() == *final(s),
    {
        &mut self.state
    }

    /// Empties the store.
    pub fn clear(&mut self)
        requires
            old(self).wf(),
        ensures
            final(self).wf(),
            final(self)@.assets == Seq::<AssetModel>::empty(),
            final(self)@.fallback == None::<Seq<char>>,
            final(self)@.permissions.commit == Seq::<Seq<u8>>::empty(),
            final(self)@.permissions.manage == Seq::<Seq<u8>>::empty(),
            final(self)@.chunk_budget == old(self)@.chunk_budget,
    {
        self.state.clear();
    }

    /// Grants `permission` to `principal`.
    pub fn grant_permission(&mut self, principal: Principal, permission: &Permission)
        requires
            old(self).wf(),
        ensures
            final(self).wf(),
            final(self)@ == (StateModel {
                permissions: old(self)@.permissions.grant(principal@, *permission),
                ..old(self)@
            }),
            final(self)@.permissions.holds(principal@, *permission),
            final(self).published_root() == old(self).published_root(),
    {
        self.state.grant_permission(&principal, *permission);
    }

    /// Takes `permission` from `principal`.
    pub fn revoke_permission(&mut self, principal: Principal, permission: &Permission)
        requires
            old(self).wf(),
        ensures
            final(self).wf(),
            final(self)@ == (StateModel {
                permissions: old(self)@.permissions.revoke(principal@, *permission),
                ..old(self)@
            }),
            !final(self)@.permissions.holds(principal@, *permission),
            final(self).published_root() == old(self).published_root(),
    {
        self.state.revoke_permission(&principal, *permission);
    }

    /// Stores one encoding of an asset; see `State::store`.
    pub fn store(&mut self, arg: StoreArg, time: u64) -> (r: Result<(), Error>)
        requires
            old(self).wf(),
        ensures
            final(self).wf(),
            r is Ok <==> store_accepted(arg.content@, arg.sha256),
            r is Ok ==> final(self)@ == stored(
                old(self)@,
                arg.key@,
                arg.content_type@,
                arg.content_encoding@,
                arg.content@,
                arg.aliased,
                time,
            ),
            r matches Err(e) ==> e == Error::Malformed && final(self)@ == old(self)@
                && final(self).published_root() == old(self).published_root(),
    {
        self.state.store(arg, time)
    }

    /// Sets serving properties of an asset; see
    /// `State::set_asset_properties`.
    pub fn set_asset_properties(&mut self, arg: SetAssetPropertiesArguments) -> (r: Result<
        (),
        Error,
    >)
        requires
            old(self).wf(),
        ensures
            final(self).wf(),
            r is Ok == find_asset(old(self)@.assets, utf8(normal_key(arg.key@))) is Some,
            r is Ok ==> final(self)@ == (StateModel {
                assets: put_asset(
                    old(self)@.assets,
                    with_properties(
                        find_asset(old(self)@.assets, utf8(normal_key(arg.key@))).unwrap(),
                        arg,
                    ),
                ),
                ..old(self)@
            }),
            r matches Err(e) ==> e == Error::NotFound && final(self)@ == old(self)@
                && final(self).published_root() == old(self).published_root(),
    {
        self.state.set_asset_properties(arg)
    }

    /// The root digest, as it is published to the host after every change.
    pub fn root_hash(&self) -> (h: Hash256)
        requires
            self.wf(),
        ensures
            h@ == state_root(self@),
            h@ == self.published_root(),
    {
        self.state.root_hash()
    }

    /// Answers a request; see `State::http_request`.
    pub fn http_request(&self, req: HttpRequest, certificate: &[u8], callback: CallbackFunc) -> (resp:
        HttpResponse)
        requires
            self.wf(),
        ensures
            answers(
                resp,
                self@,
                outcome(self@, utf8(req.url@), headers_view(req.headers@)),
                certificate@,
                callback,
            ),
    {
        self.state.http_request(&req, certificate, callback)
    }

    /// Returns the chunk that a continuation token asks for; see
    /// `State::http_request_streaming_callback`.
    pub fn http_request_streaming_callback(&self, token: StreamingCallbackToken) -> (r: Result<
        StreamingCallbackHttpResponse,
        Error,
    >)
        requires
            self.wf(),
        ensures
            match continued(
                self@,
                token.key@,
                token.content_encoding@,
                token.index as nat,
                token_hash(token),
            ) {
                Ok((e, more)) => {
                    &&& r matches Ok(resp)
                    &&& resp.body@ == e.chunks[token.index as int]
                    &&& resp.token is Some == more
                    &&& resp.token matches Some(next) ==> {
                        &&& next.key@ == token.key@
                        &&& next.content_encoding@ == token.content_encoding@
                        &&& next.index == token.index + 1
                        &&& token_hash(next) == token_hash(token)
                    }
                },
                Err(e) => r == Err::<StreamingCallbackHttpResponse, Error>(e),
            },
    {
        self.state.http_request_streaming_callback(&token)
    }

    /// Whether `caller` holds `permission`: `Ok` if so, and otherwise what
    /// the caller is told.
    pub fn can(&self, caller: &Principal, permission: Permission) -> (r: Result<(), String>)
        requires
            self.wf(),
        ensures
            r is Ok == self@.permissions.holds(caller@, permission),
            r matches Err(text) ==> text@ == denial(permission),
    {
        if self.state.can(caller, permission) {
            Ok(())
        } else {
            let mut text = String::from_str("Caller does not have ");
            match permission {
                Permission::Commit => text.append("Commit"),
                Permission::ManagePermissions => text.append("ManagePermissions"),
            }
            text.append(" permission");
            Err(text)
        }
    }

    /// The snapshot of the store, for crossing a restart.
    pub fn export(&self) -> (snapshot: StableState)
        requires
            self.wf(),
        ensures
            snapshot@ == self@,
            valid_state(snapshot@),
    {
        self.state.export()
    }

    /// The store that a snapshot holds. Fails with `Malformed` where what
    /// the snapshot holds is not a valid state.
    pub fn import(snapshot: &StableState) -> (r: Result<StateStore, Error>)
        ensures
            r is Ok == valid_state(snapshot@),
            r matches Ok(s) ==> s.wf() && s@ == snapshot@,
            r matches Err(e) ==> e == Error::Malformed,
    {
        match State::import(snapshot) {
            Ok(state) => Ok(StateStore { state }),
            Err(e) => Err(e),
        }
    }
}

} // verus!
