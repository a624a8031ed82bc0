//! Files under path-like keys, kept in stable structures.
//!
//! A key is a path. One that ends with `/` names a directory, any other a
//! file. Files and their metadata are kept in two stable maps; what the maps
//! hold is bytes, and a key is written once: nothing is overwritten.

use crate::asset::texts_bytes;
use crate::error::Error;
use crate::ordered::sorted;
use crate::text::{split, split_on};
use crate::types::texts_view;
use vstd::prelude::*;
use vstd::string::{StrSliceExecFns, StringExecFns};

verus! {

/// The path of a file or directory.
#[derive(Clone, Debug, PartialEq, Eq, PartialOrd, Ord)]
pub struct Key(String);

impl View for Key {
    type V = Seq<char>;

    closed spec fn view(&self) -> Seq<char> {
        self.0@
    }
}

/// Whether a path names a directory: it ends with `/`.
pub open spec fn is_dir_path(path: Seq<char>) -> bool {
    path.len() > 0 && path.last() == '/'
}

/// The names of the directories on a path: the pieces between its slashes,
/// without the last piece where the path names a file.
pub open spec fn dir_names(path: Seq<char>) -> Seq<Seq<char>> {
    if is_dir_path(path) {
        split_on(path, '/')
    } else {
        split_on(path, '/').drop_last()
    }
}

/// A text has at least one piece.
pub proof fn lemma_split_nonempty(s: Seq<char>, c: char)
    ensures
        split_on(s, c).len() >= 1,
    decreases s.len(),
{
    let at = crate::text::first_char(s, c);
    if 0 <= at < s.len() {
        lemma_split_nonempty(s.skip(at + 1), c);
    }
}

impl Key {
    /// The key with the given path.
    pub fn new(key: &str) -> (k: Key)
        ensures
            k@ == key@,
    {
        Key(String::from_str(key))
    }

    /// The path of the key.
    pub fn to_string(&self) -> (s: String)
        ensures
            s@ == self@,
    {
        self.0.clone()
    }

    /// The path of the key, borrowed.
    pub fn as_str(&self) -> (s: &str)
        ensures
            s@ == self@,
    {
        self.0.as_str()
    }

    /// Whether the key names a file.
    pub fn is_file(&self) -> (file: bool)
        ensures
            file == !is_dir_path(self@),
    {
        !self.is_dir()
    }

    /// Whether the key names a directory.
    pub fn is_dir(&self) -> (dir: bool)
        ensures
            dir == is_dir_path(self@),
    {
        let s = self.0.as_str();
        let n = s.unicode_len();
        n > 0 && s.get_char(n - 1) == '/'
    }

    /// The name of the file that the key names: the piece behind the last
    /// slash. `None` where the key names a directory.
    pub fn file_name(&self) -> (name: Option<String>)
        ensures
            name is Some == !is_dir_path(self@),
            name matches Some(n) ==> n@ == split_on(self@, '/').last(),
    {
        if self.is_file() {
            let mut pieces = split(self.0.as_str(), '/');
            proof {
                lemma_split_nonempty(self@, '/');
            }
            let ghost all = texts_view(pieces@);
            assert(all.last() == pieces@.last()@);
            pieces.pop()
        } else {
            None
        }
    }

    /// The names of the directories on the path, from the root down.
    pub fn iter_dir_names(&self) -> (names: Vec<String>)
        ensures
            texts_view(names@) == dir_names(self@),
    {
        let mut pieces = split(self.0.as_str(), '/');
        if self.is_file() {
            proof {
                lemma_split_nonempty(self@, '/');
            }
            let ghost all = texts_view(pieces@);
            pieces.pop();
            assert(texts_view(pieces@) =~= all.drop_last());
        }
        pieces
    }
}

/// What is known of a file.
#[derive(Debug)]
pub struct FileMetadata {
    pub key: Key,
    pub name: String,
    pub extension: String,
    pub content_type: String,
    pub size: u64,
    pub created: u64,
    pub last_modified: u64,
    pub last_accessed: u64,
    pub sha256: Vec<u8>,
}

/// What is known of a directory.
#[derive(Debug)]
pub struct FolderMetadata {
    pub key: Key,
    pub name: String,
    pub created: u64,
    pub last_modified: u64,
}

/// What is known of a file or of a directory.
#[derive(Debug)]
pub enum Metadata {
    File(FileMetadata),
    Folder(FolderMetadata),
}

impl Metadata {
    /// The metadata of the root directory, made at time `now`.
    pub fn new_root_folder_metadata(now: u64) -> (m: Metadata)
        ensures
            m matches Metadata::Folder(f) && f.key@ == "/"@ && f.name@ == "__root__"@ && f.created
                == now && f.last_modified == now,
    {
        Metadata::Folder(
            FolderMetadata {
                key: Key::new("/"),
                name: String::from_str("__root__"),
                created: now,
                last_modified: now,
            },
        )
    }
}

/// A stable map from texts to byte strings, over a memory of its own: an
/// `ic_stable_structures::BTreeMap` with `String` keys and `Vec<u8>` values
/// over a `VectorMemory`.
#[verifier::external_body]
pub struct StableMap {
    inner: ic_stable_structures::BTreeMap<String, Vec<u8>, ic_stable_structures::VectorMemory>,
}

/// What a stable map holds.
pub uninterp spec fn stable_contents(map: StableMap) -> Map<Seq<char>, Seq<u8>>;

/// The map that holds nothing.
pub open spec fn nothing() -> Map<Seq<char>, Seq<u8>> {
    Map::empty()
}

/// Calls `ic_stable_structures::BTreeMap::new` on a new, empty
/// `VectorMemory`. Trusted: the map made holds nothing.
#[verifier::external_body]
fn stable_new() -> (fresh: StableMap)
    ensures
        stable_contents(fresh) == nothing(),
{
    StableMap {
        inner: ic_stable_structures::BTreeMap::new(ic_stable_structures::VectorMemory::default()),
    }
}

/// Calls `ic_stable_structures::BTreeMap::contains_key`. Trusted: the
/// answer is whether the map holds the key.
#[verifier::external_body]
fn stable_contains(map: &StableMap, key: &String) -> (held: bool)
    ensures
        held == stable_contents(*map).contains_key(key@),
{
    map.inner.contains_key(key)
}

/// Calls `ic_stable_structures::BTreeMap::get`. Trusted: the result is the
/// value held under the key, and `None` where the map does not hold the key.
#[verifier::external_body]
fn stable_get(map: &StableMap, key: &String) -> (value: Option<Vec<u8>>)
    ensures
        value is Some == stable_contents(*map).contains_key(key@),
        value matches Some(v) ==> v@ == stable_contents(*map)[key@],
{
    map.inner.get(key)
}

/// Calls `ic_stable_structures::BTreeMap::insert`. Trusted: afterwards the
/// map holds the value under the key and everything else as before, and
/// the result is the value that the key had, if it had one.
#[verifier::external_body]
fn stable_insert(map: &mut StableMap, key: String, value: Vec<u8>) -> (previous: Option<Vec<u8>>)
    ensures
        stable_contents(*final(map)) == stable_contents(*old(map)).insert(key@, value@),
        previous is Some == stable_contents(*old(map)).contains_key(key@),
        previous matches Some(v) ==> v@ == stable_contents(*old(map))[key@],
{
    map.inner.insert(key, value)
}

/// Calls `ic_stable_structures::BTreeMap::keys` and collects what it
/// yields. Trusted: the keys come out in ascending order of their bytes,
/// and they are the keys that the map holds.
#[verifier::external_body]
fn stable_keys(map: &StableMap) -> (keys: Vec<String>)
    ensures
        sorted(texts_bytes(texts_view(keys@))),
        texts_view(keys@).to_set() == stable_contents(*map).dom(),
{
    map.inner.keys().collect()
}

/// The bytes of files, each under the key of the file.
pub struct FileDataStore {
    files: StableMap,
}

impl View for FileDataStore {
    type V = Map<Seq<char>, Seq<u8>>;

    closed spec fn view(&self) -> Map<Seq<char>, Seq<u8>> {
        stable_contents(self.files)
    }
}

impl FileDataStore {
    /// A store without files.
    pub fn new() -> (s: FileDataStore)
        ensures
            s@ == nothing(),
    {
        FileDataStore { files: stable_new() }
    }

    /// The bytes of the file under `key`, if there is one.
    pub fn get(&self, key: &Key) -> (file: Option<Vec<u8>>)
        ensures
            file is Some == self@.contains_key(key@),
            file matches Some(bytes) ==> bytes@ == self@[key@],
    {
        stable_get(&self.files, &key.0)
    }

    /// Writes a file under a key that is not taken. Fails with
    /// `AlreadyExists`, and changes nothing, where the key is taken.
    pub fn insert_new(&mut self, key: &Key, file: Vec<u8>) -> (r: Result<(), Error>)
        ensures
            r is Ok == !old(self)@.contains_key(key@),
            r is Ok ==> final(self)@ == old(self)@.insert(key@, file@),
            r matches Err(e) ==> e == Error::AlreadyExists && final(self)@ == old(self)@,
    {
        if stable_contains(&self.files, &key.0) {
            return Err(Error::AlreadyExists);
        }
        stable_insert(&mut self.files, key.to_string(), file);
        Ok(())
    }
}

/// The metadata of files and directories, as the bytes it is written in,
/// each under the key of what it describes.
pub struct MetadataStore {
    entries: StableMap,
}

impl View for MetadataStore {
    type V = Map<Seq<char>, Seq<u8>>;

    closed spec fn view(&self) -> Map<Seq<char>, Seq<u8>> {
        stable_contents(self.entries)
    }
}

/// The paths of keys.
pub open spec fn keys_view(keys: Seq<Key>) -> Seq<Seq<char>> {
    Seq::new(keys.len(), |i: int| keys[i]@)
}

impl MetadataStore {
    /// A store without metadata.
    pub fn new() -> (s: MetadataStore)
        ensures
            s@ == nothing(),
    {
        MetadataStore { entries: stable_new() }
    }

    /// The metadata under `key`, if there is any.
    pub fn get(&self, key: &Key) -> (metadata: Option<Vec<u8>>)
        ensures
            metadata is Some == self@.contains_key(key@),
            metadata matches Some(bytes) ==> bytes@ == self@[key@],
    {
        stable_get(&self.entries, &key.0)
    }

    /// Writes metadata under a key that is not taken. Fails with
    /// `AlreadyExists`, and changes nothing, where the key is taken.
    pub fn insert_new(&mut self, key: &Key, metadata: Vec<u8>) -> (r: Result<(), Error>)
        ensures
            r is Ok == !old(self)@.contains_key(key@),
            r is Ok ==> final(self)@ == old(self)@.insert(key@, metadata@),
            r matches Err(e) ==> e == Error::AlreadyExists && final(self)@ == old(self)@,
    {
        if stable_contains(&self.entries, &key.0) {
            return Err(Error::AlreadyExists);
        }
        stable_insert(&mut self.entries, key.to_string(), metadata);
        Ok(())
    }

    /// The keys under which metadata is held, in ascending order of their
    /// bytes.
    pub fn list_keys(&self) -> (keys: Vec<Key>)
        ensures
            sorted(texts_bytes(keys_view(keys@))),
            keys_view(keys@).to_set() == self@.dom(),
    {
        let mut names = stable_keys(&self.entries);
        let ghost all = texts_view(names@);
        let mut keys: Vec<Key> = Vec::new();
        let mut i: usize = 0;
        while i < names.len()
            invariant
                all == texts_view(names@),
                i <= names@.len(),
                keys_view(keys@) == all.take(i as int),
            decreases names@.len() - i,
        {
            let ghost before = keys_view(keys@);
            keys.push(Key::new(names[i].as_str()));
            assert(keys_view(keys@) =~= before.push(all[i as int]));
            assert(all.take(i + 1) =~= all.take(i as int).push(all[i as int]));
            i += 1;
        }
        assert(all.take(i as int) =~= all);
        keys
    }
}

} // verus!
