use certified_assets::api;
use certified_assets::error::Error;
use certified_assets::permissions::Principal;
use certified_assets::stores::config::{Config, ConfigStore, Mode, Status};
use certified_assets::stores::fs::{FileDataStore, Key, Metadata, MetadataStore};

fn names(key: &str) -> Vec<String> {
    Key::new(key).iter_dir_names()
}

#[test]
fn key_keeps_its_path() {
    assert_eq!(Key::new("/a/b.txt").to_string(), "/a/b.txt");
    assert_eq!(Key::new("").to_string(), "");
    assert_eq!(Key::new("/dir/ö/").as_str(), "/dir/ö/");
}

#[test]
fn key_that_ends_with_a_slash_is_a_directory() {
    for (key, dir) in [("/", true), ("/a/", true), ("/a", false), ("", false), ("a/b", false), ("/ü/", true)] {
        assert_eq!(Key::new(key).is_dir(), dir);
        assert_eq!(Key::new(key).is_file(), !dir);
    }
}

#[test]
fn file_name_is_the_piece_behind_the_last_slash() {
    assert_eq!(Key::new("/a/b.txt").file_name(), Some("b.txt".to_string()));
    assert_eq!(Key::new("b.txt").file_name(), Some("b.txt".to_string()));
    assert_eq!(Key::new("/grüße/日本.txt").file_name(), Some("日本.txt".to_string()));
    assert_eq!(Key::new("").file_name(), Some("".to_string()));
    assert_eq!(Key::new("/a/").file_name(), None);
    assert_eq!(Key::new("/").file_name(), None);
}

#[test]
fn directory_names_are_the_pieces_between_the_slashes() {
    assert_eq!(names("/a/b/c.txt"), vec!["", "a", "b"]);
    assert_eq!(names("/a/b/"), vec!["", "a", "b", ""]);
    assert_eq!(names("a/b"), vec!["a"]);
    assert_eq!(names("file"), Vec::<String>::new());
    assert_eq!(names(""), Vec::<String>::new());
    assert_eq!(names("/"), vec!["", ""]);
    assert_eq!(names("//x"), vec!["", ""]);
    assert_eq!(names("/ä/ö/ü"), vec!["", "ä", "ö"]);
}

#[test]
fn directory_names_are_what_split_gives() {
    for key in ["/a/b/c.txt", "/a/b/", "a//b", "/", "", "x"] {
        let mut expected: Vec<String> = key.split('/').map(|s| s.to_string()).collect();
        if !key.ends_with('/') {
            expected.pop();
        }
        assert_eq!(names(key), expected);
        if !key.ends_with('/') {
            assert_eq!(
                Key::new(key).file_name(),
                key.split('/').last().map(|s| s.to_string())
            );
        }
    }
}

#[test]
fn a_file_is_written_once() {
    let mut files = FileDataStore::new();
    let key = Key::new("/a.txt");
    assert_eq!(files.get(&key), None);
    assert_eq!(files.insert_new(&key, b"one".to_vec()), Ok(()));
    assert_eq!(files.get(&key), Some(b"one".to_vec()));
    assert_eq!(files.insert_new(&key, b"two".to_vec()), Err(Error::AlreadyExists));
    assert_eq!(files.get(&key), Some(b"one".to_vec()));
    assert_eq!(files.insert_new(&Key::new("/b.txt"), vec![]), Ok(()));
    assert_eq!(files.get(&Key::new("/b.txt")), Some(vec![]));
    assert_eq!(files.get(&Key::new("/c.txt")), None);
}

#[test]
fn a_large_file_is_kept_whole() {
    let mut files = FileDataStore::new();
    let content: Vec<u8> = (0..300_000u32).map(|i| (i % 253) as u8).collect();
    assert_eq!(files.insert_new(&Key::new("/big"), content.clone()), Ok(()));
    assert_eq!(files.get(&Key::new("/big")), Some(content));
}

#[test]
fn metadata_is_written_once_and_keys_are_listed_in_order() {
    let mut metadata = MetadataStore::new();
    assert!(metadata.list_keys().is_empty());
    for key in ["/m", "/z/", "/a", "/ab", "/B", "/", "/a/b"] {
        assert_eq!(metadata.insert_new(&Key::new(key), key.as_bytes().to_vec()), Ok(()));
    }
    assert_eq!(metadata.insert_new(&Key::new("/a"), b"again".to_vec()), Err(Error::AlreadyExists));
    assert_eq!(metadata.get(&Key::new("/a")), Some(b"/a".to_vec()));
    assert_eq!(metadata.get(&Key::new("/q")), None);
    let keys: Vec<String> = metadata.list_keys().iter().map(|k| k.to_string()).collect();
    assert_eq!(keys, vec!["/", "/B", "/a", "/a/b", "/ab", "/m", "/z/"]);
}

#[test]
fn two_stores_do_not_share_what_they_hold() {
    let mut one = FileDataStore::new();
    let other = FileDataStore::new();
    one.insert_new(&Key::new("/a"), b"a".to_vec()).unwrap();
    assert_eq!(other.get(&Key::new("/a")), None);
}

#[test]
fn root_folder_metadata() {
    match Metadata::new_root_folder_metadata(42) {
        Metadata::Folder(folder) => {
            assert_eq!(folder.key.to_string(), "/");
            assert_eq!(folder.name, "__root__");
            assert_eq!(folder.created, 42);
            assert_eq!(folder.last_modified, 42);
        }
        Metadata::File(_) => panic!("a file"),
    }
}

#[test]
fn configuration_starts_in_setup() {
    let store = ConfigStore::new();
    assert_eq!(store.status(), Status::Setup);
    assert!(!store.is_active());
    assert!(store.ii_principal().is_none());
    assert_eq!(Status::default(), Status::Setup);
    let config = Config::default();
    assert_eq!(config.status(), Status::Setup);
    assert!(!config.is_active());
    assert!(config.ii_principal().is_none());
}

#[test]
fn configuration_keeps_status_and_identity() {
    let mut store = ConfigStore::new();
    store.set_status(Status::Active(Mode::Trial));
    assert_eq!(store.status(), Status::Active(Mode::Trial));
    assert!(store.is_active());
    assert!(store.ii_principal().is_none());
    store.set_ii_principal(Principal::from_slice(&[1, 2]));
    assert_eq!(store.ii_principal().unwrap().as_slice(), &[1, 2]);
    assert_eq!(store.status(), Status::Active(Mode::Trial));
    store.set_status(Status::Setup);
    assert!(!store.is_active());
    assert_eq!(store.ii_principal().unwrap().as_slice(), &[1, 2]);
    assert_eq!(store.config().status(), Status::Setup);

    let mut config = Config::default();
    config.set_ii_principal(Principal::from_slice(&[3]));
    config.set_status(Status::Active(Mode::User));
    let store = ConfigStore::with_config(config);
    assert_eq!(store.status(), Status::Active(Mode::User));
    assert_eq!(store.ii_principal().unwrap().as_slice(), &[3]);
}

#[test]
fn status_is_told_to_callers_who_identify_themselves() {
    let mut store = ConfigStore::new();
    let caller = Principal::from_slice(&[1]);
    assert_eq!(api::status(&store, &caller), Ok(Status::Setup));
    assert_eq!(api::active(&store, &caller), Ok(false));
    assert_eq!(api::status(&store, &Principal::anonymous()), Err(Error::PermissionDenied));
    assert_eq!(api::active(&store, &Principal::anonymous()), Err(Error::PermissionDenied));
    store.set_status(Status::Active(Mode::Developer));
    assert_eq!(api::status(&store, &caller), Ok(Status::Active(Mode::Developer)));
    assert_eq!(api::active(&store, &caller), Ok(true));
    assert_eq!(api::ii_principal(&store).err(), Some(Error::NotFound));
    store.set_ii_principal(Principal::from_slice(&[5]));
    assert_eq!(api::ii_principal(&store).unwrap().as_slice(), &[5]);
    assert_eq!(api::api_version(), "0.0.2");
}
