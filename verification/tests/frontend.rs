use certified_assets::api;
use certified_assets::frontend::{init, post_upgrade};
use certified_assets::permissions::{Permission, Principal};
use certified_assets::stores::config::ConfigStore;
use certified_assets::error::Error;
use certified_assets::frontend::{
    bundled, collect_asset, frontend_store_arg, init_frontend_assets, serve_under,
    well_known_properties, FrontendAsset, MAX_CHUNK_SIZE,
};
use certified_assets::scaffold::{project_path, render};
use certified_assets::stores::heap::StateStore;
use certified_assets::types::GetArg;
use sha2::Digest;

fn asset(key: &str, data: &[u8]) -> FrontendAsset {
    FrontendAsset {
        key: key.to_string(),
        data: data.to_vec(),
        media_type: "text/html".to_string(),
    }
}

#[test]
fn index_documents_are_served_under_their_directory() {
    assert_eq!(serve_under("/index.html"), "/");
    assert_eq!(serve_under("/docs/index.html"), "/docs/");
    assert_eq!(serve_under("/index.html/index.html"), "//");
}

#[test]
fn html_documents_are_served_without_their_suffix() {
    assert_eq!(serve_under("/about.html"), "/about");
    assert_eq!(serve_under("/a.html/b.html"), "/a/b");
    assert_eq!(serve_under("/a.htmlx.html"), "/ax");
}

#[test]
fn other_files_are_served_under_their_key() {
    assert_eq!(serve_under("/style.css"), "/style.css");
    assert_eq!(serve_under("/a.html/b.css"), "/a.html/b.css");
    assert_eq!(serve_under("/index.htm"), "/index.htm");
    assert_eq!(serve_under(""), "");
    assert_eq!(serve_under("/ä.html"), "/ä");
}

#[test]
fn served_key_is_what_the_two_replacements_give() {
    for key in ["/index.html", "/a/index.html", "/x.html", "/index.html.html", "/.html", "/a.css"] {
        let mut expected = key.to_string();
        if expected.ends_with("/index.html") {
            expected = expected.replace("/index.html", "/");
        }
        if expected.ends_with(".html") {
            expected = expected.replace(".html", "");
        }
        assert_eq!(serve_under(key), expected);
    }
}

#[test]
fn bundled_file_gets_a_slash_and_a_media_type() {
    let css = collect_asset("assets/style.css", b"body{}".to_vec());
    assert_eq!(css.key, "/assets/style.css");
    assert_eq!(css.data, b"body{}".to_vec());
    assert_eq!(css.media_type, "text/css");
    assert_eq!(collect_asset("index.html", vec![]).media_type, "text/html");
    assert_eq!(collect_asset("logo.png", vec![]).media_type, "image/png");
    assert_eq!(collect_asset("no_extension", vec![]).media_type, "application/octet-stream");
    assert_eq!(collect_asset(".well-known/ii-alternative-origins", vec![]).media_type, "application/octet-stream");
    let plain = bundled("a/b", b"x".to_vec(), "text/x".to_string());
    assert_eq!(plain.key, "/a/b");
    assert_eq!(plain.media_type, "text/x");
}

#[test]
fn store_arg_of_a_bundled_file() {
    let arg = frontend_store_arg(&asset("/docs/index.html", b"<html/>")).unwrap();
    assert_eq!(arg.key, "/docs/");
    assert_eq!(arg.content_type, "text/html");
    assert_eq!(arg.content_encoding, "identity");
    assert_eq!(arg.content, b"<html/>".to_vec());
    assert_eq!(arg.sha256, Some(sha2::Sha256::digest(b"<html/>").to_vec()));
    assert_eq!(arg.aliased, Some(false));
}

#[test]
fn bundled_file_must_fit_one_chunk() {
    assert_eq!(MAX_CHUNK_SIZE, 1000 * 1024);
    assert!(frontend_store_arg(&asset("/a", &vec![0u8; MAX_CHUNK_SIZE])).is_ok());
    assert_eq!(
        frontend_store_arg(&asset("/a", &vec![0u8; MAX_CHUNK_SIZE + 1])).err(),
        Some(Error::Malformed)
    );
}

#[test]
fn properties_of_the_document_of_alternative_origins() {
    let arg = well_known_properties();
    assert_eq!(arg.key, "/.well-known/ii-alternative-origins");
    assert_eq!(
        arg.headers,
        Some(Some(vec![
            ("Access-Control-Allow-Origin".to_string(), "*".to_string()),
            ("Content-Type".to_string(), "application/json".to_string()),
        ]))
    );
    assert_eq!(arg.max_age, None);
    assert_eq!(arg.allow_raw_access, None);
    assert_eq!(arg.is_aliased, None);
}

#[test]
fn frontend_is_installed_file_by_file() {
    let mut store = StateStore::new(1_900_000);
    let bundle = vec![
        asset("/index.html", b"<html/>"),
        asset("/about.html", b"<about/>"),
        asset("/.well-known/ii-alternative-origins", b"{}"),
    ];
    assert_eq!(init_frontend_assets(&mut store, &bundle, 5), Ok(()));
    let get = |key: &str| {
        store
            .state()
            .get(&GetArg { key: key.to_string(), accept_encodings: vec![] })
            .map(|a| a.content)
    };
    assert_eq!(get("/"), Ok(b"<html/>".to_vec()));
    assert_eq!(get("/about"), Ok(b"<about/>".to_vec()));
    assert_eq!(get("/index.html"), Err(Error::NotFound));
    assert_eq!(get("/.well-known/ii-alternative-origins"), Ok(b"{}".to_vec()));
    let snapshot = store.export();
    let well_known = snapshot
        .assets
        .iter()
        .find(|a| a.key == "/.well-known/ii-alternative-origins")
        .unwrap();
    assert_eq!(
        well_known.headers,
        vec![
            ("access-control-allow-origin".to_string(), "*".to_string()),
            ("content-type".to_string(), "application/json".to_string()),
        ]
    );
    assert!(snapshot.assets.iter().all(|a| a.is_aliased == Some(false)));
    assert_eq!(store.root_hash(), store.state().recompute_root());
}

#[test]
fn frontend_without_the_document_of_alternative_origins_is_not_found_and_nothing_is_stored() {
    let mut store = StateStore::new(1_900_000);
    let root = store.root_hash();
    let bundle = vec![asset("/index.html", b"<html/>")];
    assert_eq!(init_frontend_assets(&mut store, &bundle, 5), Err(Error::NotFound));
    assert_eq!(store.state().len(), 0);
    assert_eq!(store.root_hash(), root);
}

#[test]
fn frontend_with_a_file_too_large_is_malformed_and_nothing_is_stored() {
    let mut store = StateStore::new(1_900_000);
    let root = store.root_hash();
    let bundle = vec![
        asset("/a.html", b"a"),
        asset("/big", &vec![1u8; MAX_CHUNK_SIZE + 1]),
        asset("/.well-known/ii-alternative-origins", b"{}"),
    ];
    assert_eq!(init_frontend_assets(&mut store, &bundle, 5), Err(Error::Malformed));
    assert_eq!(store.state().len(), 0);
    assert_eq!(store.root_hash(), root);
    let last = vec![
        asset("/.well-known/ii-alternative-origins", b"{}"),
        asset("/big", &vec![1u8; MAX_CHUNK_SIZE + 1]),
    ];
    assert_eq!(init_frontend_assets(&mut store, &last, 5), Err(Error::Malformed));
    assert_eq!(store.state().len(), 0);
    let neither = vec![asset("/big", &vec![1u8; MAX_CHUNK_SIZE + 1])];
    assert_eq!(init_frontend_assets(&mut store, &neither, 5), Err(Error::Malformed));
}

#[test]
fn frontend_with_a_file_of_just_one_chunk_is_installed() {
    let mut store = StateStore::new(1_900_000);
    let bundle = vec![
        asset("/big", &vec![1u8; MAX_CHUNK_SIZE]),
        asset("/.well-known/ii-alternative-origins", b"{}"),
    ];
    assert_eq!(init_frontend_assets(&mut store, &bundle, 5), Ok(()));
    assert_eq!(store.state().len(), 2);
    let got = store
        .state()
        .get(&GetArg { key: "/big".to_string(), accept_encodings: vec![] })
        .unwrap();
    assert_eq!(got.total_length, 1_024_000);
}

#[test]
fn failed_install_leaves_what_was_stored() {
    let mut store = StateStore::new(1_900_000);
    let first = vec![asset("/.well-known/ii-alternative-origins", b"{}"), asset("/a.html", b"a")];
    assert_eq!(init_frontend_assets(&mut store, &first, 1), Ok(()));
    let root = store.root_hash();
    let bad = vec![asset("/b.html", b"b"), asset("/big", &vec![1u8; MAX_CHUNK_SIZE + 1])];
    assert_eq!(init_frontend_assets(&mut store, &bad, 2), Err(Error::Malformed));
    assert_eq!(store.root_hash(), root);
    assert_eq!(store.state().len(), 2);
    // The document is there from before, so a bundle without it can be installed.
    let more = vec![asset("/b.html", b"b")];
    assert_eq!(init_frontend_assets(&mut store, &more, 3), Ok(()));
    assert_eq!(store.state().len(), 3);
}

#[test]
fn document_of_alternative_origins_is_found_under_the_key_it_is_served_under() {
    let mut store = StateStore::new(1_900_000);
    let bundle = vec![asset(".well-known/ii-alternative-origins.html", b"{}")];
    assert_eq!(init_frontend_assets(&mut store, &bundle, 1), Ok(()));
    assert_eq!(store.export().assets[0].key, "/.well-known/ii-alternative-origins");
    let mut other = StateStore::new(1_900_000);
    let kept = vec![asset("/.well-known/ii-alternative-origins.html?x", b"{}")];
    assert_eq!(init_frontend_assets(&mut other, &kept, 1), Err(Error::NotFound));
    assert_eq!(other.state().len(), 0);
}

#[test]
fn store_is_set_up_with_the_frontend() {
    let owner = || Principal::from_slice(&[1]);
    let identity = || Principal::from_slice(&[7]);
    let other = || Principal::from_slice(&[9]);
    let bundle = vec![
        asset("/index.html", b"<html/>"),
        asset("/.well-known/ii-alternative-origins", b"{}"),
    ];
    let mut store = StateStore::new(100_000);
    store.grant_permission(other(), &Permission::Commit);
    store.grant_permission(other(), &Permission::ManagePermissions);
    api::store(
        &mut store,
        &other(),
        certified_assets::types::StoreArg {
            key: "/old".to_string(),
            content_type: "text/plain".to_string(),
            content_encoding: "identity".to_string(),
            content: b"old".to_vec(),
            sha256: None,
            aliased: None,
        },
        1,
    )
    .unwrap();
    let before = store.root_hash();

    let bad = vec![asset("/index.html", b"<html/>")];
    assert_eq!(init(&mut store, owner(), &bad, 2), Err(Error::NotFound));
    assert_eq!(store.root_hash(), before);
    assert_eq!(api::can_commit(&store, &other()), Ok(()));
    assert!(api::can_commit(&store, &owner()).is_err());

    assert_eq!(init(&mut store, owner(), &bundle, 2), Ok(()));
    assert_eq!(store.state().len(), 2);
    assert_eq!(store.state().chunk_budget(), 100_000);
    assert_eq!(api::can_commit(&store, &owner()), Ok(()));
    assert!(api::can_commit(&store, &other()).is_err());
    assert!(api::can(&store, &other(), Permission::ManagePermissions).is_err());
    let installed = store.root_hash();

    let mut config = ConfigStore::new();
    assert_eq!(post_upgrade(&mut store, &config, owner(), &bundle, 2), Ok(()));
    assert_eq!(store.root_hash(), installed);
    assert!(api::can_commit(&store, &identity()).is_err());
    config.set_ii_principal(identity());
    assert_eq!(post_upgrade(&mut store, &config, owner(), &bundle, 2), Ok(()));
    assert_eq!(api::can_commit(&store, &identity()), Ok(()));
    assert_eq!(api::can_commit(&store, &owner()), Ok(()));
    assert_eq!(store.root_hash(), installed);
    let too_large = vec![asset("/big", &vec![0u8; MAX_CHUNK_SIZE + 1])];
    assert_eq!(post_upgrade(&mut store, &config, other(), &too_large, 3), Err(Error::Malformed));
    assert_eq!(api::can_commit(&store, &identity()), Ok(()));
    assert!(api::can_commit(&store, &other()).is_err());
    assert_eq!(store.root_hash(), installed);
}

#[test]
fn template_is_rendered_for_a_project() {
    assert_eq!(
        render("name = \"{project_name}\"\ndfx = \"{dfx_version}\"\n", "hello", "0.15.1"),
        "name = \"hello\"\ndfx = \"0.15.1\"\n"
    );
    assert_eq!(render("{project_name}{project_name}", "ab", "1"), "abab");
    assert_eq!(render("{project_name}", "{dfx_version}", "1"), "1");
    assert_eq!(render("{dfx_version}", "x", "{project_name}"), "{project_name}");
    assert_eq!(render("nothing", "x", "y"), "nothing");
    assert_eq!(render("", "x", "y"), "");
    assert_eq!(render("{project_name", "x", "y"), "{project_name");
}

#[test]
fn dots_are_put_back_into_paths() {
    assert_eq!(project_path("__dot__gitignore"), ".gitignore");
    assert_eq!(project_path("src/__dot__env/__dot__x"), "src/.env/.x");
    assert_eq!(project_path("____dot__"), "__.");
    assert_eq!(project_path("__dot_"), "__dot_");
    assert_eq!(project_path("dfx.json"), "dfx.json");
}
