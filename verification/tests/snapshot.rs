use certified_assets::api;
use certified_assets::error::Error;
use certified_assets::http::{CallbackFunc, HttpRequest};
use certified_assets::permissions::{Permission, Principal};
use certified_assets::snapshot::{StableAsset, StableEncoding, StableState};
use certified_assets::state::State;
use certified_assets::stores::heap::StateStore;
use certified_assets::types::{GetArg, SetAssetPropertiesArguments, StoreArg};

fn arg(key: &str, encoding: &str, content: &[u8]) -> StoreArg {
    StoreArg {
        key: key.to_string(),
        content_type: "text/plain".to_string(),
        content_encoding: encoding.to_string(),
        content: content.to_vec(),
        sha256: None,
        aliased: Some(true),
    }
}

fn filled() -> State {
    let mut state = State::new(4);
    state.store(arg("/b", "identity", b"bee, in several chunks"), 3).unwrap();
    state.store(arg("/a", "gzip", b"ay zipped"), 1).unwrap();
    state.store(arg("/a", "identity", b"ay"), 2).unwrap();
    state.store(arg("/c", "identity", b""), 4).unwrap();
    state
        .set_asset_properties(SetAssetPropertiesArguments {
            key: "/a".to_string(),
            max_age: Some(Some(60)),
            headers: Some(Some(vec![("x-a".to_string(), "1".to_string())])),
            allow_raw_access: Some(Some(true)),
            is_aliased: None,
        })
        .unwrap();
    state.set_fallback(Some("/a".to_string()));
    state.grant_permission(&Principal::from_slice(&[2]), Permission::Commit);
    state.grant_permission(&Principal::from_slice(&[1]), Permission::Commit);
    state.grant_permission(&Principal::from_slice(&[3]), Permission::ManagePermissions);
    state
}

fn encoding(name: &str, chunks: &[&[u8]]) -> StableEncoding {
    StableEncoding {
        name: name.to_string(),
        modified: 1,
        content_chunks: chunks.iter().map(|c| c.to_vec()).collect(),
    }
}

fn asset(key: &str, encodings: Vec<StableEncoding>) -> StableAsset {
    StableAsset {
        key: key.to_string(),
        content_type: "text/plain".to_string(),
        encodings,
        max_age: None,
        headers: vec![],
        is_aliased: None,
        allow_raw_access: None,
    }
}

fn snapshot(assets: Vec<StableAsset>) -> StableState {
    StableState {
        assets,
        fallback: None,
        commit_principals: vec![],
        manage_permissions_principals: vec![],
        chunk_budget: 10,
    }
}

#[test]
fn state_comes_back_from_its_snapshot() {
    let before = filled();
    let exported = before.export();
    let after = State::import(&exported).unwrap();
    assert_eq!(after.root_hash(), before.root_hash());
    assert_eq!(after.root_hash(), after.recompute_root());
    assert_eq!(after.chunk_budget(), 4);
    assert_eq!(after.len(), before.len());
    for key in ["/a", "/b", "/c", "/d"] {
        for accept in [vec![], vec!["gzip".to_string()], vec!["br".to_string()]] {
            let get = |s: &State| {
                s.get(&GetArg { key: key.to_string(), accept_encodings: accept.clone() })
                    .map(|a| (a.content, a.content_type, a.content_encoding, a.total_length, a.sha256))
            };
            assert_eq!(get(&after), get(&before));
        }
    }
    let listing = |s: &State| {
        s.list()
            .into_iter()
            .map(|d| {
                let encodings: Vec<(String, Vec<u8>, u64, u64)> = d
                    .encodings
                    .into_iter()
                    .map(|e| (e.content_encoding, e.sha256, e.length, e.modified))
                    .collect();
                (d.key, d.content_type, encodings)
            })
            .collect::<Vec<_>>()
    };
    assert_eq!(listing(&after), listing(&before));
    assert_eq!(listing(&after).len(), 3);
    for who in [1u8, 2, 3, 4] {
        let p = Principal::from_slice(&[who]);
        assert_eq!(after.can(&p, Permission::Commit), before.can(&p, Permission::Commit));
        assert_eq!(
            after.can(&p, Permission::ManagePermissions),
            before.can(&p, Permission::ManagePermissions)
        );
    }
    let again = after.export();
    assert_eq!(again.assets.len(), exported.assets.len());
    assert_eq!(again.fallback, Some("/a".to_string()));
}

#[test]
fn restarted_state_is_the_state() {
    let before = filled();
    let after = before.restarted();
    assert_eq!(after.root_hash(), before.root_hash());
    assert_eq!(after.len(), before.len());
    assert_eq!(after.chunk_budget(), before.chunk_budget());
    let get = |s: &State| {
        s.get(&GetArg { key: "/b".to_string(), accept_encodings: vec![] }).map(|a| a.content)
    };
    assert_eq!(get(&after), get(&before));
    assert_eq!(get(&after), Ok(b"bee, in several chunks".to_vec()));
    let empty = State::new(9).restarted();
    assert_eq!(empty.root_hash(), State::new(9).root_hash());
    assert_eq!(empty.chunk_budget(), 9);
}

#[test]
fn snapshot_holds_assets_and_principals_in_order() {
    let exported = filled().export();
    let keys: Vec<&str> = exported.assets.iter().map(|a| a.key.as_str()).collect();
    assert_eq!(keys, vec!["/a", "/b", "/c"]);
    let names: Vec<&str> = exported.assets[0].encodings.iter().map(|e| e.name.as_str()).collect();
    assert_eq!(names, vec!["gzip", "identity"]);
    assert_eq!(exported.assets[0].max_age, Some(60));
    assert_eq!(exported.assets[0].is_aliased, Some(true));
    assert_eq!(exported.assets[0].headers, vec![("x-a".to_string(), "1".to_string())]);
    let commit: Vec<&[u8]> = exported.commit_principals.iter().map(|p| p.as_slice()).collect();
    assert_eq!(commit, vec![&[1u8][..], &[2u8][..]]);
    assert_eq!(exported.manage_permissions_principals.len(), 1);
    assert_eq!(exported.chunk_budget, 4);
    assert_eq!(
        exported.assets[1].encodings[0].content_chunks.concat(),
        b"bee, in several chunks".to_vec()
    );
    assert_eq!(exported.assets[1].encodings[0].content_chunks.len(), 6);
}

#[test]
fn restart_keeps_what_is_served() {
    let mut store = StateStore::new(4);
    api::init(&mut store, Principal::from_slice(&[1]));
    api::store(&mut store, &Principal::from_slice(&[1]), arg("/index.html", "identity", b"<html/>"), 1)
        .unwrap();
    let root = store.root_hash();
    let serve = |s: &StateStore| {
        let req = HttpRequest {
            method: "GET".to_string(),
            url: "/".to_string(),
            headers: vec![],
            body: vec![],
        };
        let callback = CallbackFunc {
            principal: Principal::from_slice(&[7]),
            method: "callback".to_string(),
        };
        let resp = s.state().http_request(&req, b"cert", callback);
        (resp.status_code, resp.headers, resp.body, resp.certification.witness.digest())
    };
    let before = serve(&store);
    let snapshot = api::pre_upgrade(&mut store);
    assert_ne!(store.root_hash(), root);
    assert_eq!(api::post_upgrade(&mut store, snapshot, None), Ok(()));
    assert_eq!(store.root_hash(), root);
    assert_eq!(serve(&store), before);
    assert_eq!(api::can_commit(&store, &Principal::from_slice(&[1])), Ok(()));
}

#[test]
fn hashes_are_computed_anew_on_import() {
    let snap = snapshot(vec![asset("/a", vec![encoding("identity", &[b"ab", b"c"])])]);
    let state = State::import(&snap).unwrap();
    let got = state.get(&GetArg { key: "/a".to_string(), accept_encodings: vec![] }).unwrap();
    assert_eq!(got.content, b"abc".to_vec());
    assert_eq!(got.total_length, 3);
    assert_eq!(got.sha256[..4], [0xba, 0x78, 0x16, 0xbf]);
    let mut stored = State::new(2);
    stored.store(arg("/a", "identity", b"abc"), 1).unwrap();
    stored
        .set_asset_properties(SetAssetPropertiesArguments {
            key: "/a".to_string(),
            max_age: None,
            headers: None,
            allow_raw_access: None,
            is_aliased: Some(None),
        })
        .unwrap();
    assert_eq!(state.root_hash(), stored.root_hash());
}

#[test]
fn snapshot_that_is_out_of_order_is_malformed() {
    let one = |content: &[u8]| vec![encoding("identity", &[content])];
    let ok = snapshot(vec![asset("/a", one(b"a")), asset("/b", one(b"b"))]);
    assert!(State::import(&ok).is_ok());
    let swapped = snapshot(vec![asset("/b", one(b"b")), asset("/a", one(b"a"))]);
    assert_eq!(State::import(&swapped).err(), Some(Error::Malformed));
    let twice = snapshot(vec![asset("/a", one(b"a")), asset("/a", one(b"b"))]);
    assert_eq!(State::import(&twice).err(), Some(Error::Malformed));
    let encodings_swapped = snapshot(vec![asset(
        "/a",
        vec![encoding("identity", &[b"a"]), encoding("gzip", &[b"z"])],
    )]);
    assert_eq!(State::import(&encodings_swapped).err(), Some(Error::Malformed));
    let encodings_twice = snapshot(vec![asset(
        "/a",
        vec![encoding("gzip", &[b"a"]), encoding("gzip", &[b"z"])],
    )]);
    assert_eq!(State::import(&encodings_twice).err(), Some(Error::Malformed));
}

#[test]
fn snapshot_with_an_asset_without_content_is_malformed() {
    let no_encoding = snapshot(vec![asset("/a", vec![])]);
    assert_eq!(State::import(&no_encoding).err(), Some(Error::Malformed));
    let no_chunk = snapshot(vec![asset("/a", vec![encoding("identity", &[])])]);
    assert_eq!(State::import(&no_chunk).err(), Some(Error::Malformed));
    let empty_chunk = snapshot(vec![asset("/a", vec![encoding("identity", &[b""])])]);
    assert!(State::import(&empty_chunk).is_ok());
}

#[test]
fn snapshot_with_header_fields_out_of_normal_form_is_malformed() {
    let with_headers = |fields: &[(&str, &str)]| {
        let mut a = asset("/a", vec![encoding("identity", &[b"a"])]);
        a.headers = fields.iter().map(|(n, v)| (n.to_string(), v.to_string())).collect();
        snapshot(vec![a])
    };
    assert!(State::import(&with_headers(&[("a", "1"), ("b", "2")])).is_ok());
    assert!(State::import(&with_headers(&[])).is_ok());
    assert_eq!(State::import(&with_headers(&[("b", "2"), ("a", "1")])).err(), Some(Error::Malformed));
    assert_eq!(State::import(&with_headers(&[("a", "1"), ("a", "2")])).err(), Some(Error::Malformed));
    assert_eq!(State::import(&with_headers(&[("A", "1")])).err(), Some(Error::Malformed));
    assert_eq!(State::import(&with_headers(&[("a", "1"), ("bB", "2")])).err(), Some(Error::Malformed));
}

#[test]
fn snapshot_with_a_chunk_longer_than_the_budget_is_malformed() {
    let with_chunks = |chunks: &[&[u8]], budget: usize| {
        let mut s = snapshot(vec![
            asset("/a", vec![encoding("identity", &[b"a"])]),
            asset("/b", vec![encoding("gzip", &[b"z"]), encoding("identity", chunks)]),
        ]);
        s.chunk_budget = budget;
        s
    };
    assert!(State::import(&with_chunks(&[b"0123", b"4567", b"89"], 4)).is_ok());
    assert!(State::import(&with_chunks(&[b"01", b"", b"2345"], 4)).is_ok());
    assert_eq!(
        State::import(&with_chunks(&[b"0123", b"45678"], 4)).err(),
        Some(Error::Malformed)
    );
    assert_eq!(State::import(&with_chunks(&[b"01234"], 4)).err(), Some(Error::Malformed));
    assert!(State::import(&with_chunks(&[b"01234"], 5)).is_ok());
    let state = State::import(&with_chunks(&[b"0123", b"4567", b"89"], 4)).unwrap();
    let got = state.get(&GetArg { key: "/b".to_string(), accept_encodings: vec![] }).unwrap();
    assert_eq!(got.content, b"0123456789".to_vec());
}

#[test]
fn snapshot_with_bad_settings_is_malformed() {
    let mut no_budget = snapshot(vec![]);
    no_budget.chunk_budget = 0;
    assert_eq!(State::import(&no_budget).err(), Some(Error::Malformed));
    let mut unsorted = snapshot(vec![]);
    unsorted.commit_principals = vec![Principal::from_slice(&[2]), Principal::from_slice(&[1])];
    assert_eq!(State::import(&unsorted).err(), Some(Error::Malformed));
    let mut twice = snapshot(vec![]);
    twice.manage_permissions_principals =
        vec![Principal::from_slice(&[1]), Principal::from_slice(&[1])];
    assert_eq!(State::import(&twice).err(), Some(Error::Malformed));
    assert!(State::import(&snapshot(vec![])).is_ok());
}

#[test]
fn failed_upgrade_leaves_the_store_as_it_was() {
    let mut store = StateStore::new(4);
    api::init(&mut store, Principal::from_slice(&[1]));
    api::store(&mut store, &Principal::from_slice(&[1]), arg("/a", "identity", b"ay"), 1).unwrap();
    let root = store.root_hash();
    let bad = snapshot(vec![asset("/a", vec![])]);
    assert_eq!(api::post_upgrade(&mut store, bad, None), Err(Error::Malformed));
    assert_eq!(store.root_hash(), root);
    assert_eq!(store.state().len(), 1);
}
