use certified_assets::api::continue_stream;
use certified_assets::encoding::certificate_header;
use certified_assets::http::gateway_headers;
use certified_assets::permissions::Permission;
use certified_assets::stores::heap::StateStore;
use certified_assets::error::Error;
use certified_assets::http::{
    CallbackFunc, HttpRequest, HttpResponse, StreamingCallbackToken, StreamingStrategy,
};
use certified_assets::permissions::Principal;
use certified_assets::state::State;
use certified_assets::tree::{PathFound, Witness};
use certified_assets::types::{GetArg, SetAssetPropertiesArguments, StoreArg};
use sha2::Digest;

fn to_hash_tree(w: &Witness) -> ic_certification::HashTree {
    match w {
        Witness::Empty => ic_certification::empty(),
        Witness::Pruned(h) => ic_certification::pruned(*h),
        Witness::Leaf(v) => ic_certification::leaf(v.clone()),
        Witness::Labeled(l, sub) => ic_certification::labeled(l.clone(), to_hash_tree(sub)),
        Witness::Fork(l, r) => ic_certification::fork(to_hash_tree(l), to_hash_tree(r)),
    }
}

fn arg(key: &str, content_type: &str, encoding: &str, content: &[u8]) -> StoreArg {
    StoreArg {
        key: key.to_string(),
        content_type: content_type.to_string(),
        content_encoding: encoding.to_string(),
        content: content.to_vec(),
        sha256: None,
        aliased: None,
    }
}

fn callback() -> CallbackFunc {
    CallbackFunc {
        principal: Principal::from_slice(&[9, 9]),
        method: "http_request_streaming_callback".to_string(),
    }
}

fn request(state: &State, url: &str, headers: &[(&str, &str)]) -> HttpResponse {
    let req = HttpRequest {
        method: "GET".to_string(),
        url: url.to_string(),
        headers: headers.iter().map(|(n, v)| (n.to_string(), v.to_string())).collect(),
        body: vec![],
    };
    state.http_request(&req, b"certificate", callback())
}

fn framed(s: &str) -> String {
    format!("{}:{},", s.len(), s)
}

fn certified_value(headers: &[(String, String)], body: &[u8]) -> Vec<u8> {
    let mut block = String::new();
    for (name, value) in headers {
        block.push_str(&framed(name));
        block.push_str(&framed(value));
    }
    let mut value = sha2::Sha256::digest(block.as_bytes()).to_vec();
    value.extend_from_slice(&sha2::Sha256::digest(body));
    value
}

fn path(labels: &[&str]) -> Vec<Vec<u8>> {
    labels.iter().map(|l| l.as_bytes().to_vec()).collect()
}

#[test]
fn index_document_is_served_for_its_directory() {
    let mut state = State::new(1000);
    let body = b"<html>...</html>";
    state.store(arg("/index.html", "text/html", "identity", body), 1).unwrap();
    let resp = request(&state, "/", &[]);
    assert_eq!(resp.status_code, 200);
    assert_eq!(resp.body, body.to_vec());
    assert!(resp.streaming_strategy.is_none());
    assert!(resp.certification.certified);
    assert!(resp.certification.exact);
    assert_eq!(resp.certification.certificate, b"certificate".to_vec());
    assert_eq!(
        resp.headers,
        vec![
            ("content-type".to_string(), "text/html".to_string()),
            ("content-length".to_string(), "16".to_string()),
        ]
    );
    let witness = &resp.certification.witness;
    assert_eq!(witness.digest(), state.root_hash());
    let expected = certified_value(&resp.headers, body);
    match witness.find_path(&path(&["http_assets", "/index.html", "identity"])) {
        PathFound::Found(v) => assert_eq!(v, expected),
        other => panic!("{:?}", other),
    }
    let ic_tree = to_hash_tree(witness);
    assert_eq!(ic_tree.digest(), state.root_hash());
    assert_eq!(
        ic_tree.lookup_path(["http_assets".as_bytes(), b"/index.html", b"identity"]),
        ic_certification::LookupResult::Found(&expected)
    );
}

#[test]
fn certified_value_is_the_hash_of_the_headers_and_the_hash_of_the_body() {
    let mut state = State::new(1000);
    state.store(arg("/a.css", "text/css", "gzip", b"zipped"), 1).unwrap();
    state
        .set_asset_properties(SetAssetPropertiesArguments {
            key: "/a.css".to_string(),
            max_age: Some(Some(604800)),
            headers: Some(Some(vec![("x-one".to_string(), "1".to_string())])),
            allow_raw_access: None,
            is_aliased: None,
        })
        .unwrap();
    let resp = request(&state, "/a.css", &[("Accept-Encoding", "gzip")]);
    assert_eq!(resp.status_code, 200);
    assert_eq!(
        resp.headers,
        vec![
            ("content-type".to_string(), "text/css".to_string()),
            ("content-encoding".to_string(), "gzip".to_string()),
            ("content-length".to_string(), "6".to_string()),
            ("cache-control".to_string(), "max-age=604800".to_string()),
            ("x-one".to_string(), "1".to_string()),
        ]
    );
    let block = "12:content-type,8:text/css,16:content-encoding,4:gzip,14:content-length,1:6,\
                 13:cache-control,14:max-age=604800,5:x-one,1:1,";
    let mut expected = sha2::Sha256::digest(block.as_bytes()).to_vec();
    expected.extend_from_slice(&sha2::Sha256::digest(b"zipped"));
    match resp.certification.witness.find_path(&path(&["http_assets", "/a.css", "gzip"])) {
        PathFound::Found(v) => assert_eq!(v, expected),
        other => panic!("{:?}", other),
    }
}

#[test]
fn large_asset_is_streamed_in_three_responses() {
    let mut state = State::new(2_000_000);
    let content: Vec<u8> = (0..5_000_000u32).map(|i| (i % 251) as u8).collect();
    state.store(arg("/big.bin", "application/octet-stream", "identity", &content), 1).unwrap();
    let first = request(&state, "/big.bin", &[]);
    assert_eq!(first.status_code, 200);
    assert_eq!(first.body.len(), 2_000_000);
    assert_eq!(first.body[..], content[..2_000_000]);
    assert_eq!(first.certification.witness.digest(), state.root_hash());
    assert!(first
        .headers
        .contains(&("content-length".to_string(), "5000000".to_string())));
    let token = match first.streaming_strategy {
        Some(StreamingStrategy::Callback { callback, token }) => {
            assert_eq!(callback.method, "http_request_streaming_callback");
            assert_eq!(callback.principal.as_slice(), &[9, 9]);
            token
        }
        None => panic!("no continuation"),
    };
    assert_eq!(token.key, "/big.bin");
    assert_eq!(token.content_encoding, "identity");
    assert_eq!(token.index, 1);
    assert_eq!(token.sha256, Some(sha2::Sha256::digest(&content).to_vec()));

    let second = state.http_request_streaming_callback(&token).unwrap();
    assert_eq!(second.body.len(), 2_000_000);
    assert_eq!(second.body[..], content[2_000_000..4_000_000]);
    let token = second.token.expect("one more chunk");
    assert_eq!(token.index, 2);

    let third = state.http_request_streaming_callback(&token).unwrap();
    assert_eq!(third.body.len(), 1_000_000);
    assert_eq!(third.body[..], content[4_000_000..]);
    assert!(third.token.is_none());
}

#[test]
fn streaming_gives_what_get_gives() {
    let mut state = State::new(3);
    for content in [&b"0123456789"[..], b"012345678", b"012", b"0", b""] {
        state.store(arg("/a", "text/plain", "identity", content), 1).unwrap();
        let first = request(&state, "/a", &[]);
        let mut streamed = first.body;
        let mut next = match first.streaming_strategy {
            Some(StreamingStrategy::Callback { token, .. }) => Some(token),
            None => None,
        };
        let mut calls = 0;
        while let Some(token) = next {
            let resp = state.http_request_streaming_callback(&token).unwrap();
            streamed.extend_from_slice(&resp.body);
            next = resp.token;
            calls += 1;
        }
        let got = state
            .get(&GetArg { key: "/a".to_string(), accept_encodings: vec![] })
            .unwrap();
        assert_eq!(streamed, got.content);
        assert_eq!(streamed, content.to_vec());
        assert_eq!(calls, if content.len() > 3 { (content.len() + 2) / 3 - 1 } else { 0 });
    }
}

#[test]
fn token_is_stale_when_the_content_has_changed() {
    let mut state = State::new(3);
    state.store(arg("/a", "text/plain", "identity", b"0123456789"), 1).unwrap();
    let first = request(&state, "/a", &[]);
    let token = match first.streaming_strategy {
        Some(StreamingStrategy::Callback { token, .. }) => token,
        None => panic!("no continuation"),
    };
    state.store(arg("/a", "text/plain", "identity", b"abcdefghij"), 2).unwrap();
    assert_eq!(state.http_request_streaming_callback(&token).err(), Some(Error::Stale));
    state.store(arg("/a", "text/plain", "identity", b"0123456789"), 3).unwrap();
    assert_eq!(state.http_request_streaming_callback(&token).unwrap().body, b"345".to_vec());
}

#[test]
fn token_that_names_nothing_is_not_found() {
    let mut state = State::new(3);
    state.store(arg("/a", "text/plain", "identity", b"0123456789"), 1).unwrap();
    let hash = sha2::Sha256::digest(b"0123456789").to_vec();
    let token = |key: &str, encoding: &str, index: u64, sha256: Option<Vec<u8>>| {
        StreamingCallbackToken {
            key: key.to_string(),
            content_encoding: encoding.to_string(),
            index,
            sha256,
        }
    };
    let call = |t: StreamingCallbackToken| state.http_request_streaming_callback(&t);
    assert_eq!(call(token("/a", "identity", 3, Some(hash.clone()))).unwrap().body, b"9".to_vec());
    assert!(call(token("/a", "identity", 3, Some(hash.clone()))).unwrap().token.is_none());
    assert_eq!(call(token("/a", "identity", 0, Some(hash.clone()))).unwrap().body, b"012".to_vec());
    assert_eq!(call(token("/b", "identity", 1, Some(hash.clone()))).err(), Some(Error::NotFound));
    assert_eq!(call(token("/a", "gzip", 1, Some(hash.clone()))).err(), Some(Error::NotFound));
    assert_eq!(call(token("/a", "identity", 4, Some(hash.clone()))).err(), Some(Error::NotFound));
    assert_eq!(
        call(token("/a", "identity", u64::MAX, Some(hash.clone()))).err(),
        Some(Error::NotFound)
    );
    assert_eq!(call(token("/a", "identity", 1, None)).err(), Some(Error::NotFound));
    assert_eq!(call(token("/a", "identity", 1, Some(vec![1, 2, 3]))).err(), Some(Error::NotFound));
    assert_eq!(call(token("/a", "identity", 1, Some(vec![0; 32]))).err(), Some(Error::Stale));
}

#[test]
fn continuation_ends_the_stream_for_a_token_that_names_nothing() {
    let mut store = StateStore::new(3);
    store.grant_permission(Principal::from_slice(&[1]), &Permission::Commit);
    certified_assets::api::store(
        &mut store,
        &Principal::from_slice(&[1]),
        arg("/a", "text/plain", "identity", b"0123456789"),
        1,
    )
    .unwrap();
    let hash = sha2::Sha256::digest(b"0123456789").to_vec();
    let token = |key: &str, index: u64, sha256: Option<Vec<u8>>| StreamingCallbackToken {
        key: key.to_string(),
        content_encoding: "identity".to_string(),
        index,
        sha256,
    };
    let chunk = continue_stream(&store, token("/a", 1, Some(hash.clone()))).unwrap();
    assert_eq!(chunk.body, b"345".to_vec());
    assert_eq!(chunk.token.unwrap().index, 2);
    for nothing in [
        token("/b", 1, Some(hash.clone())),
        token("/a", 4, Some(hash.clone())),
        token("/a", 1, None),
        token("/a", 1, Some(vec![1, 2])),
    ] {
        let end = continue_stream(&store, nothing).unwrap();
        assert!(end.body.is_empty());
        assert!(end.token.is_none());
    }
    assert_eq!(continue_stream(&store, token("/a", 1, Some(vec![0; 32]))).err(), Some(Error::Stale));
}

#[test]
fn certificate_goes_with_what_the_tree_speaks_of() {
    let mut state = State::new(1000);
    state.store(arg("/z", "text/plain", "gzip", b"zipped"), 1).unwrap();
    let served = request(&state, "/z", &[("accept-encoding", "gzip")]);
    let sent = gateway_headers(&served);
    assert_eq!(sent.len(), served.headers.len() + 1);
    assert_eq!(sent[..served.headers.len()], served.headers[..]);
    assert_eq!(
        sent[served.headers.len()],
        certificate_header(b"certificate", &served.certification.witness)
    );
    assert_eq!(sent[served.headers.len()].0, "IC-Certificate");
    let missing = request(&state, "/y", &[]);
    assert_eq!(
        gateway_headers(&missing),
        vec![certificate_header(b"certificate", &missing.certification.witness)]
    );
    for (url, headers, status) in [
        ("/%zz", vec![], 400),
        ("/z", vec![("host", "a.raw.icp0.io"), ("accept-encoding", "gzip")], 403),
        ("/z", vec![], 406),
    ] {
        let resp = request(&state, url, &headers);
        assert_eq!(resp.status_code, status);
        assert!(gateway_headers(&resp).is_empty());
    }
}

#[test]
fn missing_path_is_answered_with_a_proof_of_absence() {
    let mut state = State::new(1000);
    state.store(arg("/a", "text/plain", "identity", b"ay"), 1).unwrap();
    state.store(arg("/c", "text/plain", "identity", b"sea"), 1).unwrap();
    for url in ["/b", "/", "/d", "/a/b", "/0"] {
        let resp = request(&state, url, &[]);
        assert_eq!(resp.status_code, 404);
        assert!(resp.body.is_empty());
        assert!(resp.headers.is_empty());
        assert!(!resp.certification.certified);
        let witness = &resp.certification.witness;
        assert_eq!(witness.digest(), state.root_hash());
        assert!(matches!(
            witness.find_path(&path(&["http_assets", url, "identity"])),
            PathFound::Absent
        ));
        assert!(matches!(
            witness.find_path(&path(&["http_fallback", "identity"])),
            PathFound::Absent
        ));
        let ic_tree = to_hash_tree(witness);
        assert_eq!(ic_tree.digest(), state.root_hash());
        assert_eq!(
            ic_tree.lookup_path(["http_assets".as_bytes(), url.as_bytes(), b"identity"]),
            ic_certification::LookupResult::Absent
        );
    }
}

#[test]
fn deleted_key_is_absent() {
    let mut state = State::new(1000);
    state.store(arg("/a", "text/plain", "identity", b"ay"), 1).unwrap();
    state.store(arg("/b", "text/plain", "identity", b"bee"), 1).unwrap();
    assert_eq!(request(&state, "/b", &[]).status_code, 200);
    state.delete_asset("/b");
    let resp = request(&state, "/b", &[]);
    assert_eq!(resp.status_code, 404);
    assert!(resp.body.is_empty());
    assert_eq!(resp.certification.witness.digest(), state.root_hash());
    assert!(matches!(
        resp.certification.witness.find_path(&path(&["http_assets", "/b", "identity"])),
        PathFound::Absent
    ));
    assert_eq!(
        state.get(&GetArg { key: "/b".to_string(), accept_encodings: vec![] }).err(),
        Some(Error::NotFound)
    );
}

#[test]
fn fallback_is_served_where_nothing_matches() {
    let mut state = State::new(1000);
    state.store(arg("/app.html", "text/html", "identity", b"<app/>"), 1).unwrap();
    state.store(arg("/style.css", "text/css", "identity", b"body{}"), 1).unwrap();
    state.set_fallback(Some("/app.html".to_string()));
    let resp = request(&state, "/some/route", &[]);
    assert_eq!(resp.status_code, 200);
    assert_eq!(resp.body, b"<app/>".to_vec());
    assert!(resp.certification.certified);
    assert!(!resp.certification.exact);
    let witness = &resp.certification.witness;
    assert_eq!(witness.digest(), state.root_hash());
    let expected = certified_value(&resp.headers, b"<app/>");
    match witness.find_path(&path(&["http_fallback", "identity"])) {
        PathFound::Found(v) => assert_eq!(v, expected),
        other => panic!("{:?}", other),
    }
    assert!(matches!(
        witness.find_path(&path(&["http_assets", "/some/route", "identity"])),
        PathFound::Absent
    ));
    let ic_tree = to_hash_tree(witness);
    assert_eq!(
        ic_tree.lookup_path(["http_fallback".as_bytes(), b"identity"]),
        ic_certification::LookupResult::Found(&expected)
    );
    assert_eq!(
        ic_tree.lookup_path(["http_assets".as_bytes(), b"/some/route"]),
        ic_certification::LookupResult::Absent
    );

    let exact = request(&state, "/style.css", &[]);
    assert!(exact.certification.exact);
    assert_eq!(exact.body, b"body{}".to_vec());

    state.delete_asset("/app.html");
    assert_eq!(request(&state, "/some/route", &[]).status_code, 404);
    state.set_fallback(None);
    assert_eq!(request(&state, "/some/route", &[]).status_code, 404);
}

#[test]
fn aliases_are_tried_in_order() {
    let mut state = State::new(1000);
    state.store(arg("/docs/index.html", "text/html", "identity", b"index"), 1).unwrap();
    state.store(arg("/docs.html", "text/html", "identity", b"docs"), 1).unwrap();
    state.store(arg("/about.html", "text/html", "identity", b"about"), 1).unwrap();
    assert_eq!(request(&state, "/docs", &[]).body, b"index".to_vec());
    assert_eq!(request(&state, "/docs/", &[]).body, b"index".to_vec());
    assert_eq!(request(&state, "/docs.html", &[]).body, b"docs".to_vec());
    assert_eq!(request(&state, "/about", &[]).body, b"about".to_vec());
    assert_eq!(request(&state, "/about/", &[]).status_code, 404);
    state.store(arg("/docs", "text/plain", "identity", b"exact"), 1).unwrap();
    assert_eq!(request(&state, "/docs", &[]).body, b"exact".to_vec());
}

#[test]
fn aliasing_can_be_switched_off() {
    let mut state = State::new(1000);
    let mut not_aliased = arg("/docs/index.html", "text/html", "identity", b"index");
    not_aliased.aliased = Some(false);
    state.store(not_aliased, 1).unwrap();
    assert_eq!(request(&state, "/docs", &[]).status_code, 404);
    assert_eq!(request(&state, "/docs/index.html", &[]).status_code, 200);
    let mut aliased = arg("/docs/index.html", "text/html", "identity", b"index");
    aliased.aliased = Some(true);
    state.store(aliased, 1).unwrap();
    assert_eq!(request(&state, "/docs", &[]).status_code, 200);
}

#[test]
fn url_is_decoded_and_cut_at_the_query() {
    let mut state = State::new(1000);
    state.store(arg("/a b", "text/plain", "identity", b"space"), 1).unwrap();
    state.store(arg("/ü", "text/plain", "identity", b"umlaut"), 1).unwrap();
    assert_eq!(request(&state, "/a%20b", &[]).body, b"space".to_vec());
    assert_eq!(request(&state, "/a%20b?x=%zz", &[]).body, b"space".to_vec());
    assert_eq!(request(&state, "/a%20b#frag", &[]).body, b"space".to_vec());
    assert_eq!(request(&state, "/%c3%BC", &[]).body, b"umlaut".to_vec());
    assert_eq!(request(&state, "/%C3%bc?q", &[]).body, b"umlaut".to_vec());
}

#[test]
fn malformed_url_is_a_bad_request() {
    let mut state = State::new(1000);
    state.store(arg("/a", "text/plain", "identity", b"ay"), 1).unwrap();
    for url in ["/a%", "/a%2", "/%zz", "/a%2g", "/%"] {
        let resp = request(&state, url, &[]);
        assert_eq!(resp.status_code, 400);
        assert!(resp.body.is_empty());
        assert!(!resp.certification.certified);
        assert_eq!(resp.certification.witness.digest(), state.root_hash());
    }
}

#[test]
fn encoding_is_negotiated() {
    let mut state = State::new(1000);
    state.store(arg("/a", "text/plain", "identity", b"plain"), 1).unwrap();
    state.store(arg("/a", "text/plain", "gzip", b"zipped"), 1).unwrap();
    state.store(arg("/a", "text/plain", "br", b"brotli"), 1).unwrap();
    assert_eq!(request(&state, "/a", &[]).body, b"plain".to_vec());
    assert_eq!(request(&state, "/a", &[("accept-encoding", "gzip")]).body, b"zipped".to_vec());
    assert_eq!(
        request(&state, "/a", &[("Accept-Encoding", "deflate, br;q=0.9, gzip")]).body,
        b"brotli".to_vec()
    );
    assert_eq!(
        request(&state, "/a", &[("ACCEPT-ENCODING", " gzip ,br")]).body,
        b"zipped".to_vec()
    );
    assert_eq!(request(&state, "/a", &[("accept-encoding", "deflate")]).body, b"plain".to_vec());
    assert_eq!(request(&state, "/a", &[("accept-encoding", "")]).body, b"plain".to_vec());
    assert_eq!(request(&state, "/a", &[("accept", "gzip")]).body, b"plain".to_vec());
}

#[test]
fn not_acceptable_only_without_identity() {
    let mut state = State::new(1000);
    state.store(arg("/z", "text/plain", "gzip", b"zipped"), 1).unwrap();
    assert_eq!(request(&state, "/z", &[("accept-encoding", "gzip")]).status_code, 200);
    let resp = request(&state, "/z", &[("accept-encoding", "br")]);
    assert_eq!(resp.status_code, 406);
    assert!(resp.body.is_empty());
    assert!(!resp.certification.certified);
    assert_eq!(request(&state, "/z", &[]).status_code, 406);
}

#[test]
fn raw_access_is_rejected_unless_permitted() {
    let mut state = State::new(1000);
    state.store(arg("/a", "text/plain", "identity", b"ay"), 1).unwrap();
    let raw = [("Host", "abcde-cai.raw.icp0.io")];
    let certified = [("host", "abcde-cai.icp0.io")];
    assert_eq!(request(&state, "/a", &raw).status_code, 403);
    assert!(request(&state, "/a", &raw).body.is_empty());
    assert_eq!(request(&state, "/a", &certified).status_code, 200);
    assert_eq!(request(&state, "/a", &[("host", "raw.icp0.io")]).status_code, 200);
    let allow = |allow: Option<bool>| SetAssetPropertiesArguments {
        key: "/a".to_string(),
        max_age: None,
        headers: None,
        allow_raw_access: Some(allow),
        is_aliased: None,
    };
    state.set_asset_properties(allow(Some(true))).unwrap();
    assert_eq!(request(&state, "/a", &raw).status_code, 200);
    state.set_asset_properties(allow(Some(false))).unwrap();
    assert_eq!(request(&state, "/a", &raw).status_code, 403);
    state.set_asset_properties(allow(None)).unwrap();
    assert_eq!(request(&state, "/a", &raw).status_code, 403);
    assert_eq!(request(&state, "/missing", &raw).status_code, 404);
}

#[test]
fn each_encoding_has_a_leaf_of_its_own() {
    let mut state = State::new(1000);
    state.store(arg("/a", "text/plain", "identity", b"plain"), 1).unwrap();
    state.store(arg("/a", "text/plain", "gzip", b"zipped"), 1).unwrap();
    let plain = request(&state, "/a", &[]);
    let zipped = request(&state, "/a", &[("accept-encoding", "gzip")]);
    assert_eq!(plain.certification.witness.digest(), state.root_hash());
    assert_eq!(zipped.certification.witness.digest(), state.root_hash());
    let plain_value = certified_value(&plain.headers, b"plain");
    let zipped_value = certified_value(&zipped.headers, b"zipped");
    assert_ne!(plain_value, zipped_value);
    match plain.certification.witness.find_path(&path(&["http_assets", "/a", "identity"])) {
        PathFound::Found(v) => assert_eq!(v, plain_value),
        other => panic!("{:?}", other),
    }
    match zipped.certification.witness.find_path(&path(&["http_assets", "/a", "gzip"])) {
        PathFound::Found(v) => assert_eq!(v, zipped_value),
        other => panic!("{:?}", other),
    }
    assert!(matches!(
        plain.certification.witness.find_path(&path(&["http_assets", "/a", "gzip"])),
        PathFound::Unknown
    ));
    assert!(matches!(
        plain.certification.witness.find_path(&path(&["http_assets", "/a", "br"])),
        PathFound::Unknown | PathFound::Absent
    ));
}

#[test]
fn witnesses_verify_in_a_store_with_many_assets() {
    let mut state = State::new(1000);
    let keys: Vec<String> = (0..37).map(|i| format!("/asset/{:02}.txt", (i * 7) % 37)).collect();
    for key in &keys {
        state.store(arg(key, "text/plain", "identity", key.as_bytes()), 1).unwrap();
    }
    for key in &keys {
        let resp = request(&state, key, &[]);
        assert_eq!(resp.status_code, 200);
        assert_eq!(resp.body, key.as_bytes().to_vec());
        let witness = &resp.certification.witness;
        assert_eq!(witness.digest(), state.root_hash());
        let expected = certified_value(&resp.headers, key.as_bytes());
        match witness.find_path(&path(&["http_assets", key, "identity"])) {
            PathFound::Found(v) => assert_eq!(v, expected),
            other => panic!("{:?}", other),
        }
        assert_eq!(
            to_hash_tree(witness).lookup_path(["http_assets".as_bytes(), key.as_bytes(), b"identity"]),
            ic_certification::LookupResult::Found(&expected)
        );
    }
}
