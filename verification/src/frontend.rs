//! The frontend that the service ships with: how a bundled file becomes a
//! stored asset.
//!
//! A bundled file is a path below the bundle's root and the file's bytes.
//! It is stored under the path with `/` before it, except that an index
//! document is stored under the key of its directory and any other HTML
//! document under its key without the suffix.

use crate::asset::{find_asset, put_asset};
use crate::error::Error;
use crate::hash::{sha256, sha256_of};
use crate::path::{normal_key, normalize_key};
use crate::snapshot::valid_state;
use crate::state::{stored, StateModel};
use crate::stores::heap::StateStore;
use crate::text::{ends_with, replace, replaced, text_ends_with, utf8};
use crate::types::{SetAssetPropertiesArguments, StoreArg};
use vstd::prelude::*;
use vstd::string::StringExecFns;

verus! {

/// The largest bundled file that is stored: one that fits a single chunk.
pub const MAX_CHUNK_SIZE: usize = 1024000;

/// A bundled file, ready to be stored.
pub struct FrontendAsset {
    pub key: String,
    pub data: Vec<u8>,
    pub media_type: String,
}

/// The media type that is guessed for a path from the extension of its file
/// name: the first entry of a fixed table for the extension, and
/// `application/octet-stream` where the path has no extension or the table
/// has none for it.
pub uninterp spec fn guessed_media_type(path: Seq<char>) -> Seq<char>;

/// Calls `mime_guess::from_path` and `MimeGuess::first_or_octet_stream`, and
/// writes the media type out. Trusted: the text that comes back depends on
/// the path alone.
#[verifier::external_body]
fn guess_media_type(path: &str) -> (media_type: String)
    ensures
        media_type@ == guessed_media_type(path@),
{
    mime_guess::from_path(path).first_or_octet_stream().to_string()
}

/// The key under which a bundled file is served: where the key ends with
/// `/index.html`, every `/index.html` in it becomes `/`; where it then ends
/// with `.html`, every `.html` in it is dropped.
pub open spec fn served_key(key: Seq<char>) -> Seq<char> {
    let first = if text_ends_with(key, "/index.html"@) {
        replaced(key, "/index.html"@, "/"@)
    } else {
        key
    };
    if text_ends_with(first, ".html"@) {
        replaced(first, ".html"@, ""@)
    } else {
        first
    }
}

/// The key under which a bundled file is served.
pub fn serve_under(key: &str) -> (served: String)
    ensures
        served@ == served_key(key@),
{
    let first = if ends_with(key, "/index.html") {
        replace(key, "/index.html", "/")
    } else {
        String::from_str(key)
    };
    if ends_with(first.as_str(), ".html") {
        replace(first.as_str(), ".html", "")
    } else {
        first
    }
}

/// The bundled file at `path` with the bytes `data` and the media type
/// `media_type`, under the key that is the path with `/` before it.
pub fn bundled(path: &str, data: Vec<u8>, media_type: String) -> (asset: FrontendAsset)
    ensures
        asset.key@ == "/"@ + path@,
        asset.data == data,
        asset.media_type == media_type,
{
    let mut key = String::from_str("/");
    key.append(path);
    FrontendAsset { key, data, media_type }
}

/// The bundled file at `path` with the bytes `data`, with the media type
/// that is guessed for the path.
pub fn collect_asset(path: &str, data: Vec<u8>) -> (asset: FrontendAsset)
    ensures
        asset.key@ == "/"@ + path@,
        asset.data == data,
        asset.media_type@ == guessed_media_type(path@),
{
    let media_type = guess_media_type(path);
    bundled(path, data, media_type)
}

/// What is stored for a bundled file: its bytes as the `identity` encoding,
/// with their hash, under the key that the file is served under, not
/// aliased. Fails with `Malformed` where the file does not fit one chunk.
pub fn frontend_store_arg(asset: &FrontendAsset) -> (r: Result<StoreArg, Error>)
    ensures
        r is Ok == (asset.data@.len() <= MAX_CHUNK_SIZE),
        r matches Ok(arg) ==> {
            &&& arg.key@ == served_key(asset.key@)
            &&& arg.content_type@ == asset.media_type@
            &&& arg.content_encoding@ == "identity"@
            &&& arg.content@ == asset.data@
            &&& arg.sha256 matches Some(h)
            &&& h@ == sha256_of(asset.data@)
            &&& arg.aliased == Some(false)
        },
        r matches Err(e) ==> e == Error::Malformed,
{
    if asset.data.len() > MAX_CHUNK_SIZE {
        return Err(Error::Malformed);
    }
    let hash = sha256(asset.data.as_slice());
    Ok(
        StoreArg {
            key: serve_under(asset.key.as_str()),
            content_type: asset.media_type.clone(),
            content_encoding: String::from_str("identity"),
            sha256: Some(crate::bytes::to_vec(hash.as_slice())),
            content: crate::bytes::to_vec(asset.data.as_slice()),
            aliased: Some(false),
        },
    )
}

/// The state after one bundled file has been stored at time `time`.
#[verifier::opaque]
pub open spec fn with_bundled(m: StateModel, asset: (Seq<char>, Seq<u8>, Seq<char>), time: u64) -> StateModel {
    stored(m, served_key(asset.0), asset.2, "identity"@, asset.1, Some(false), time)
}

/// Stores one bundled file. Fails with `Malformed`, and changes nothing,
/// where the file does not fit one chunk.
pub fn store_bundled(service: &mut StateStore, asset: &FrontendAsset, time: u64) -> (r: Result<
    (),
    Error,
>)
    requires
        old(service).wf(),
    ensures
        final(service).wf(),
        r is Ok == (asset.data@.len() <= MAX_CHUNK_SIZE),
        r is Ok ==> final(service)@ == with_bundled(
            old(service)@,
            (asset.key@, asset.data@, asset.media_type@),
            time,
        ),
        r matches Err(e) ==> e == Error::Malformed && final(service)@ == old(service)@,
{
    reveal(with_bundled);
    let arg = match frontend_store_arg(asset) {
        Ok(arg) => arg,
        Err(e) => {
            return Err(e);
        },
    };
    service.store(arg, time)
}

/// The serving properties of the document that lists alternative origins:
/// it may be read from any origin, and it is JSON.
pub fn well_known_properties() -> (arg: SetAssetPropertiesArguments)
    ensures
        arg.key@ == "/.well-known/ii-alternative-origins"@,
        arg.max_age is None,
        arg.allow_raw_access is None,
        arg.is_aliased is None,
        arg.headers matches Some(Some(h)) && crate::asset::headers_view(h@) == seq![
            ("Access-Control-Allow-Origin"@, "*"@),
            ("Content-Type"@, "application/json"@),
        ],
{
    let mut headers: Vec<(String, String)> = Vec::new();
    headers.push((String::from_str("Access-Control-Allow-Origin"), String::from_str("*")));
    headers.push((String::from_str("Content-Type"), String::from_str("application/json")));
    assert(crate::asset::headers_view(headers@) =~= seq![
        ("Access-Control-Allow-Origin"@, "*"@),
        ("Content-Type"@, "application/json"@),
    ]);
    SetAssetPropertiesArguments {
        key: String::from_str("/.well-known/ii-alternative-origins"),
        max_age: None,
        headers: Some(Some(headers)),
        allow_raw_access: None,
        is_aliased: None,
    }
}

/// A bundled file as a mathematical value: key, bytes and media type.
pub open spec fn bundle_view(assets: Seq<FrontendAsset>) -> Seq<(Seq<char>, Seq<u8>, Seq<char>)> {
    Seq::new(assets.len(), |i: int| (assets[i].key@, assets[i].data@, assets[i].media_type@))
}

/// The state after the bundled files have been stored one after the other
/// at time `time`. `None` where one of them does not fit one chunk.
pub open spec fn installed(
    m: StateModel,
    assets: Seq<(Seq<char>, Seq<u8>, Seq<char>)>,
    time: u64,
) -> Option<StateModel>
    decreases assets.len(),
{
    if assets.len() == 0 {
        Some(m)
    } else if assets[0].1.len() > MAX_CHUNK_SIZE {
        None
    } else {
        installed(with_bundled(m, assets[0], time), assets.drop_first(), time)
    }
}

/// The key of the document that lists alternative origins.
pub open spec fn well_known_key() -> Seq<u8> {
    utf8(normal_key("/.well-known/ii-alternative-origins"@))
}

/// The state after the serving properties of the document that lists
/// alternative origins have been set: its header fields, in normal form.
pub open spec fn with_well_known(m: StateModel) -> StateModel {
    StateModel {
        assets: put_asset(
            m.assets,
            crate::asset::AssetModel {
                headers: crate::asset::normalized(
                    seq![
                        ("Access-Control-Allow-Origin"@, "*"@),
                        ("Content-Type"@, "application/json"@),
                    ],
                ),
                ..find_asset(m.assets, well_known_key()).unwrap()
            },
        ),
        ..m
    }
}

/// The bytes of the key under which a bundled file is stored.
pub open spec fn bundled_key(asset: (Seq<char>, Seq<u8>, Seq<char>)) -> Seq<u8> {
    utf8(normal_key(served_key(asset.0)))
}

/// Whether each of the first `n` bundled files fits one chunk.
pub open spec fn all_fit(assets: Seq<(Seq<char>, Seq<u8>, Seq<char>)>, n: int) -> bool {
    forall|i: int| 0 <= i < n ==> (#[trigger] assets[i]).1.len() <= MAX_CHUNK_SIZE
}

/// Whether one of the first `n` bundled files is stored under the key with
/// the bytes `key`.
pub open spec fn holds_key(
    assets: Seq<(Seq<char>, Seq<u8>, Seq<char>)>,
    key: Seq<u8>,
    n: int,
) -> bool {
    exists|i: int| 0 <= i < n && bundled_key(#[trigger] assets[i]) == key
}

/// What installing a bundle comes to: it can be done where every file fits
/// one chunk; the state after it is valid where the state before was; and
/// under a key something is stored after it where something was before or a
/// file of the bundle is stored under the key.
pub proof fn lemma_installed(
    m: StateModel,
    assets: Seq<(Seq<char>, Seq<u8>, Seq<char>)>,
    time: u64,
    key: Seq<u8>,
)
    requires
        valid_state(m),
    ensures
        installed(m, assets, time) is Some == all_fit(assets, assets.len() as int),
        installed(m, assets, time) matches Some(after) ==> {
            &&& valid_state(after)
            &&& find_asset(after.assets, key) is Some == (find_asset(m.assets, key) is Some
                || holds_key(assets, key, assets.len() as int))
        },
    decreases assets.len(),
{
    if assets.len() > 0 {
        let first = assets[0];
        let rest = assets.drop_first();
        assert forall|i: int| 0 <= i < rest.len() implies rest[i] == assets[i + 1] by {}
        if first.1.len() <= MAX_CHUNK_SIZE {
            let next = with_bundled(m, first, time);
            reveal(with_bundled);
            crate::laws::law_store_then_get(
                m,
                served_key(first.0),
                first.2,
                "identity"@,
                first.1,
                Some(false),
                time,
            );
            let a = crate::state::stored_asset(
                m,
                served_key(first.0),
                first.2,
                "identity"@,
                first.1,
                Some(false),
                time,
            );
            crate::laws::lemma_found_asset_key(m.assets, bundled_key(first));
            assert(utf8(a.key) == bundled_key(first));
            crate::laws::lemma_find_after_put(m.assets, a, key);
            lemma_installed(next, rest, time, key);
            if all_fit(rest, rest.len() as int) {
                assert forall|i: int| 0 <= i < assets.len() implies (#[trigger] assets[i]).1.len()
                    <= MAX_CHUNK_SIZE by {
                    if i > 0 {
                        assert(rest[i - 1] == assets[i]);
                    }
                }
            } else {
                let i = choose|i: int| 0 <= i < rest.len() && (#[trigger] rest[i]).1.len()
                    > MAX_CHUNK_SIZE;
                assert(assets[i + 1] == rest[i]);
            }
            if holds_key(rest, key, rest.len() as int) {
                let i = choose|i: int| 0 <= i < rest.len() && bundled_key(#[trigger] rest[i])
                    == key;
                assert(assets[i + 1] == rest[i]);
            }
            if holds_key(assets, key, assets.len() as int) && bundled_key(first) != key {
                let i = choose|i: int| 0 <= i < assets.len() && bundled_key(#[trigger] assets[i])
                    == key;
                assert(rest[i - 1] == assets[i]);
            }
        }
    }
}

/// Stores the bundled files one after the other and then sets the serving
/// properties of the document that lists alternative origins. Fails with
/// `Malformed` where a file does not fit one chunk, and with `NotFound`
/// where the document would not be there after the files have been stored.
/// A call that fails changes nothing: all of this is looked at before the
/// first file is stored.
pub fn init_frontend_assets(service: &mut StateStore, assets: &Vec<FrontendAsset>, time: u64) -> (r:
    Result<(), Error>)
    requires
        old(service).wf(),
    ensures
        final(service).wf(),
        r is Ok == (installed(old(service)@, bundle_view(assets@), time) matches Some(m)
            && find_asset(m.assets, well_known_key()) is Some),
        r is Ok ==> final(service)@ == with_well_known(
            installed(old(service)@, bundle_view(assets@), time).unwrap(),
        ),
        r matches Err(e) ==> {
            &&& e == (if installed(old(service)@, bundle_view(assets@), time) is Some {
                Error::NotFound
            } else {
                Error::Malformed
            })
            &&& final(service)@ == old(service)@
            &&& final(service).published_root() == old(service).published_root()
        },
{
    let ghost all = bundle_view(assets@);
    let ghost start = service@;
    proof {
        service.lemma_wf();
    }
    let well_known = normalize_key("/.well-known/ii-alternative-origins");
    let mut present = service.state().lookup(well_known.as_str().as_bytes()).is_some();
    let mut seen: usize = 0;
    while seen < assets.len()
        invariant
            service.wf(),
            *service == *old(service),
            start == old(service)@,
            valid_state(start),
            all == bundle_view(assets@),
            seen <= assets@.len(),
            well_known@ == normal_key("/.well-known/ii-alternative-origins"@),
            all_fit(all, seen as int),
            present == (find_asset(start.assets, well_known_key()) is Some || holds_key(
                all,
                well_known_key(),
                seen as int,
            )),
        decreases assets@.len() - seen,
    {
        let asset = &assets[seen];
        assert(all[seen as int] == (asset.key@, asset.data@, asset.media_type@));
        if asset.data.len() > MAX_CHUNK_SIZE {
            proof {
                lemma_installed(start, all, time, well_known_key());
                assert(!all_fit(all, all.len() as int));
            }
            return Err(Error::Malformed);
        }
        let served = serve_under(asset.key.as_str());
        let key = normalize_key(served.as_str());
        let here = crate::bytes::bytes_eq(
            key.as_str().as_bytes(),
            well_known.as_str().as_bytes(),
        );
        assert(here == (bundled_key(all[seen as int]) == well_known_key()));
        proof {
            if !here && holds_key(all, well_known_key(), seen + 1) {
                let i = choose|i: int| 0 <= i < seen + 1 && bundled_key(#[trigger] all[i])
                    == well_known_key();
                assert(i < seen);
            }
        }
        if here {
            present = true;
        }
        seen += 1;
    }
    proof {
        lemma_installed(start, all, time, well_known_key());
    }
    if !present {
        return Err(Error::NotFound);
    }
    assert(all.skip(0) =~= all);
    let mut done: usize = 0;
    while done < assets.len()
        invariant
            service.wf(),
            start == old(service)@,
            all == bundle_view(assets@),
            all_fit(all, all.len() as int),
            done <= assets@.len(),
            installed(start, all, time) == installed(service@, all.skip(done as int), time),
        decreases assets@.len() - done,
    {
        let ghost tail = all.skip(done as int);
        let ghost before = service@;
        assert(tail.len() > 0);
        assert(tail[0] == all[done as int]);
        assert(tail[0].1 == assets@[done as int].data@);
        assert(tail.drop_first() =~= all.skip(done + 1));
        match store_bundled(service, &assets[done], time) {
            Ok(()) => {
                assert(installed(before, tail, time) == installed(
                    service@,
                    all.skip(done + 1),
                    time,
                ));
            },
            Err(e) => {
                return Err(e);
            },
        }
        done += 1;
    }
    assert(all.skip(done as int).len() == 0);
    let arg = well_known_properties();
    let ghost m = service@;
    match service.set_asset_properties(arg) {
        Ok(()) => {
            assert(service@ == with_well_known(m));
            Ok(())
        },
        Err(e) => Err(e),
    }
}

/// The state of a store that has just been set up for `caller`: nothing
/// stored, and `caller` the one holder of the commit permission.
pub open spec fn first_state(chunk_budget: nat, caller: Seq<u8>) -> StateModel {
    StateModel {
        assets: Seq::empty(),
        fallback: None,
        permissions: crate::permissions::PermissionsModel {
            commit: seq![caller],
            manage: Seq::empty(),
        },
        chunk_budget,
    }
}

/// The state of a store that has been set up for `caller` with the bundled
/// frontend, and in which `identity`, where there is one, may commit too.
/// `None` where the bundle cannot be installed.
pub open spec fn set_up(
    chunk_budget: nat,
    caller: Seq<u8>,
    identity: Option<Seq<u8>>,
    assets: Seq<(Seq<char>, Seq<u8>, Seq<char>)>,
    time: u64,
) -> Option<StateModel> {
    match installed(first_state(chunk_budget, caller), assets, time) {
        Some(m) => if find_asset(m.assets, well_known_key()) is Some {
            let served = with_well_known(m);
            Some(
                match identity {
                    Some(p) => StateModel {
                        permissions: served.permissions.grant(
                            p,
                            crate::permissions::Permission::Commit,
                        ),
                        ..served
                    },
                    None => served,
                },
            )
        } else {
            None
        },
        None => None,
    }
}

/// Sets the store up for its first caller with the bundled frontend: what
/// was stored and granted before is gone, the caller may commit, and the
/// bundle is installed. Fails as `init_frontend_assets` does, and then
/// changes nothing.
pub fn init(
    service: &mut StateStore,
    caller: crate::permissions::Principal,
    assets: &Vec<FrontendAsset>,
    time: u64,
) -> (r: Result<(), Error>)
    requires
        old(service).wf(),
    ensures
        final(service).wf(),
        r is Ok == set_up(
            old(service)@.chunk_budget,
            caller@,
            None,
            bundle_view(assets@),
            time,
        ) is Some,
        r is Ok ==> Some(final(service)@) == set_up(
            old(service)@.chunk_budget,
            caller@,
            None,
            bundle_view(assets@),
            time,
        ),
        r matches Err(e) ==> {
            &&& e == (if installed(
                first_state(old(service)@.chunk_budget, caller@),
                bundle_view(assets@),
                time,
            ) is Some {
                Error::NotFound
            } else {
                Error::Malformed
            })
            &&& final(service)@ == old(service)@
            &&& final(service).published_root() == old(service).published_root()
        },
{
    proof {
        service.lemma_wf();
    }
    let mut fresh = StateStore::new(service.state().chunk_budget());
    crate::api::init(&mut fresh, caller);
    assert(fresh@ == first_state(old(service)@.chunk_budget, caller@));
    match init_frontend_assets(&mut fresh, assets, time) {
        Ok(()) => {
            *service = fresh;
            Ok(())
        },
        Err(e) => Err(e),
    }
}

/// Sets the store up anew after an upgrade that keeps nothing: as `init`
/// does for the caller, and with the commit permission for the identity that
/// the configuration holds, where it holds one. Fails as `init` does, and
/// then changes nothing.
pub fn post_upgrade(
    service: &mut StateStore,
    config: &crate::stores::config::ConfigStore,
    caller: crate::permissions::Principal,
    assets: &Vec<FrontendAsset>,
    time: u64,
) -> (r: Result<(), Error>)
    requires
        old(service).wf(),
    ensures
        final(service).wf(),
        r is Ok == set_up(
            old(service)@.chunk_budget,
            caller@,
            config@.1,
            bundle_view(assets@),
            time,
        ) is Some,
        r is Ok ==> Some(final(service)@) == set_up(
            old(service)@.chunk_budget,
            caller@,
            config@.1,
            bundle_view(assets@),
            time,
        ),
        r matches Err(e) ==> {
            &&& e == (if installed(
                first_state(old(service)@.chunk_budget, caller@),
                bundle_view(assets@),
                time,
            ) is Some {
                Error::NotFound
            } else {
                Error::Malformed
            })
            &&& final(service)@ == old(service)@
            &&& final(service).published_root() == old(service).published_root()
        },
{
    match init(service, caller, assets, time) {
        Ok(()) => {},
        Err(e) => {
            return Err(e);
        },
    }
    match config.ii_principal() {
        Some(identity) => {
            service.grant_permission(identity, &crate::permissions::Permission::Commit);
        },
        None => {},
    }
    Ok(())
}

} // verus!
