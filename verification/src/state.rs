//! The store: assets under keys, the tree that certifies them, the root that
//! is published, and the permissions that gate changes.
//!
//! The tree and the root are derived data. The state keeps them next to the
//! assets and brings them up to date in every call that changes an asset;
//! its invariant says that they are, at every moment, what a fresh
//! computation from the assets alone would give.

use crate::asset::{
    accepted_encoding, asset_digest, asset_entries, asset_labels, assets_view, encoding_labels,
    encodings_view, find_asset, headers_view, normalize_headers, normalized, put_asset,
    put_encoding, remove_asset, Asset, AssetModel, Encoding, EncodingModel,
};
use crate::bytes::{bytes_eq, to_vec};
use crate::certification::{
    entry_labels, put_entry, remove_entry, root_of, witness_of, CertificationTree,
};
use crate::chunks::{chunks_of, join_chunks, lemma_flat_chunks, split_chunks};
use crate::error::Error;
use crate::hash::{
    empty_digest, empty_hash, fork_digest, fork_hash, labeled_digest, labeled_hash, sha256,
    sha256_of, Hash256,
};
use crate::ordered::{
    has_label, labels_of, lemma_lower_bound, lemma_put_members, lemma_take_members,
    lemma_take_then_put, lower_bound, put_into, sorted, take_from, Labeled, SortedVec,
};
use crate::path::{normal_key, normalize_key};
use crate::permissions::{Permission, PermissionRegistry, PermissionsModel, Principal};
use crate::snapshot::{
    asset_fits, encoding_fits, fits_budget, restore_asset, save_asset, stable_assets_view,
    valid_asset, valid_state, StableAsset, StableState,
};
use crate::text::utf8;
use crate::tree::Witness;
use crate::types::{
    AssetDetails, AssetDetailsModel, EncodedAsset, EncodingDetailsModel, GetArg,
    SetAssetPropertiesArguments, StoreArg,
};
use vstd::prelude::*;

verus! {

/// The state as a mathematical value. Assets stand in ascending order of
/// their keys' bytes.
pub struct StateModel {
    pub assets: Seq<AssetModel>,
    pub fallback: Option<Seq<char>>,
    pub permissions: PermissionsModel,
    pub chunk_budget: nat,
}

/// ASCII `http_assets`: the label over the tree of all assets.
pub open spec fn assets_label() -> Seq<u8> {
    seq![104u8, 116u8, 116u8, 112u8, 95u8, 97u8, 115u8, 115u8, 101u8, 116u8, 115u8]
}

/// ASCII `http_fallback`: the reserved label over the tree of the asset that
/// is served where no key matches.
pub open spec fn fallback_label() -> Seq<u8> {
    seq![
        104u8, 116u8, 116u8, 112u8, 95u8, 102u8, 97u8, 108u8, 108u8, 98u8, 97u8, 99u8,
        107u8,
    ]
}

/// The digest of the whole tree: a fork of the assets' tree and the
/// fallback's tree, each under its label.
pub open spec fn top_digest(assets: Seq<u8>, fallback: Seq<u8>) -> Seq<u8> {
    fork_digest(
        labeled_digest(assets_label(), assets),
        labeled_digest(fallback_label(), fallback),
    )
}

/// The asset that is served where no key matches: the one stored under the
/// registered fallback key, while there is one.
pub open spec fn fallback_asset(m: StateModel) -> Option<AssetModel> {
    match m.fallback {
        Some(key) => find_asset(m.assets, utf8(key)),
        None => None,
    }
}

/// The digest under the fallback label: that of the fallback asset's tree,
/// or of the empty tree where there is no fallback asset.
pub open spec fn fallback_digest(m: StateModel) -> Seq<u8> {
    match fallback_asset(m) {
        Some(a) => asset_digest(a),
        None => empty_digest(),
    }
}

/// The root digest of a state, computed from its assets alone.
pub open spec fn state_root(m: StateModel) -> Seq<u8> {
    top_digest(root_of(asset_entries(m.assets)), fallback_digest(m))
}

/// The encoding that a store call writes.
pub open spec fn stored_encoding(
    budget: nat,
    name: Seq<char>,
    content: Seq<u8>,
    time: u64,
) -> EncodingModel {
    EncodingModel { name, chunks: chunks_of(content, budget), modified: time }
}

/// The asset that a store call leaves under the key: the asset that was
/// there with its content type and aliasing set anew and the encoding put
/// in, or a new asset with the one encoding.
pub open spec fn stored_asset(
    m: StateModel,
    key: Seq<char>,
    content_type: Seq<char>,
    encoding: Seq<char>,
    content: Seq<u8>,
    aliased: Option<bool>,
    time: u64,
) -> AssetModel {
    let e = stored_encoding(m.chunk_budget, encoding, content, time);
    match find_asset(m.assets, utf8(normal_key(key))) {
        Some(a) => AssetModel {
            content_type,
            is_aliased: aliased,
            encodings: put_encoding(a.encodings, e),
            ..a
        },
        None => AssetModel {
            key: normal_key(key),
            content_type,
            encodings: seq![e],
            max_age: None,
            headers: Seq::empty(),
            is_aliased: aliased,
            allow_raw_access: None,
        },
    }
}

/// The state after a store call that was accepted.
pub open spec fn stored(
    m: StateModel,
    key: Seq<char>,
    content_type: Seq<char>,
    encoding: Seq<char>,
    content: Seq<u8>,
    aliased: Option<bool>,
    time: u64,
) -> StateModel {
    StateModel {
        assets: put_asset(
            m.assets,
            stored_asset(m, key, content_type, encoding, content, aliased, time),
        ),
        ..m
    }
}

/// The state after the asset under `key` has been deleted.
pub open spec fn deleted(m: StateModel, key: Seq<char>) -> StateModel {
    StateModel { assets: remove_asset(m.assets, utf8(normal_key(key))), ..m }
}

/// Whether a store call is accepted: a hash that comes with the content
/// is the content's hash.
pub open spec fn store_accepted(content: Seq<u8>, sha256: Option<Vec<u8>>) -> bool {
    match sha256 {
        Some(h) => h@ == sha256_of(content),
        None => true,
    }
}

/// The certified asset store.
pub struct State {
    assets: SortedVec<Asset>,
    tree: CertificationTree,
    fallback: Option<String>,
    permissions: PermissionRegistry,
    chunk_budget: usize,
    root: Hash256,
}

impl View for State {
    type V = StateModel;

    closed spec fn view(&self) -> StateModel {
        StateModel {
            assets: assets_view(self.assets@),
            fallback: match self.fallback {
                Some(key) => Some(key@),
                None => None,
            },
            permissions: self.permissions@,
            chunk_budget: self.chunk_budget as nat,
        }
    }
}

/// ASCII `http_assets`.
pub fn assets_label_bytes() -> (label: Vec<u8>)
    ensures
        label@ == assets_label(),
{
    let a: [u8; 11] = [104u8, 116u8, 116u8, 112u8, 95u8, 97u8, 115u8, 115u8, 101u8, 116u8, 115u8];
    assert(a@ =~= assets_label());
    to_vec(a.as_slice())
}

/// ASCII `http_fallback`.
pub fn fallback_label_bytes() -> (label: Vec<u8>)
    ensures
        label@ == fallback_label(),
{
    let a: [u8; 13] = [
        104u8, 116u8, 116u8, 112u8, 95u8, 102u8, 97u8, 108u8, 108u8, 98u8, 97u8, 99u8,
        107u8,
    ];
    assert(a@ =~= fallback_label());
    to_vec(a.as_slice())
}

/// The digest of the whole tree over the two digests under its labels.
fn top_hash(assets: &Hash256, fallback: &Hash256) -> (h: Hash256)
    ensures
        h@ == top_digest(assets@, fallback@),
{
    let left = labeled_hash(assets_label_bytes().as_slice(), assets);
    let right = labeled_hash(fallback_label_bytes().as_slice(), fallback);
    fork_hash(&left, &right)
}

/// The labels of the assets' entries are the assets' labels.
proof fn lemma_entry_labels(assets: Seq<AssetModel>)
    ensures
        entry_labels(asset_entries(assets)) == asset_labels(assets),
{
    assert(entry_labels(asset_entries(assets)) =~= asset_labels(assets));
}

/// The labels of assets are the labels of their models.
proof fn lemma_asset_labels(items: Seq<Asset>)
    ensures
        labels_of(items) == asset_labels(assets_view(items)),
{
    assert(labels_of(items) =~= asset_labels(assets_view(items)));
}

/// Putting an asset in, seen on the models.
proof fn lemma_put_view(items: Seq<Asset>, item: Asset)
    ensures
        assets_view(put_into(items, item)) == put_asset(assets_view(items), item@),
        asset_entries(put_asset(assets_view(items), item@)) == put_entry(
            asset_entries(assets_view(items)),
            utf8(item@.key),
            asset_digest(item@),
        ),
{
    lemma_asset_labels(items);
    lemma_lower_bound(labels_of(items), item.label());
    let models = assets_view(items);
    lemma_entry_labels(models);
    assert(assets_view(put_into(items, item)) =~= put_asset(models, item@));
    assert(asset_entries(put_asset(models, item@)) =~= put_entry(
        asset_entries(models),
        utf8(item@.key),
        asset_digest(item@),
    ));
}

/// Taking an asset out, seen on the models.
proof fn lemma_take_view(items: Seq<Asset>, key: Seq<u8>)
    ensures
        assets_view(take_from(items, key)) == remove_asset(assets_view(items), key),
        asset_entries(remove_asset(assets_view(items), key)) == remove_entry(
            asset_entries(assets_view(items)),
            key,
        ),
{
    lemma_asset_labels(items);
    lemma_lower_bound(labels_of(items), key);
    let models = assets_view(items);
    lemma_entry_labels(models);
    assert(assets_view(take_from(items, key)) =~= remove_asset(models, key));
    assert(asset_entries(remove_asset(models, key)) =~= remove_entry(asset_entries(models), key));
}

impl State {
    /// The invariant. Assets stand in order of their keys and each is well
    /// formed; no chunk is longer than the chunk budget; the tree holds
    /// exactly the entries that the assets give; the root held is the root
    /// computed from the assets; the chunk budget is not zero; the
    /// permission lists are well formed.
    pub closed spec fn wf(&self) -> bool {
        &&& self.assets.wf()
        &&& forall|i: int|
            0 <= i < self.assets@.len() ==> (#[trigger] self.assets@[i]).wf() && asset_fits(
                self.assets@[i]@,
                self.chunk_budget as nat,
            )
        &&& self.tree.wf()
        &&& self.tree@ == asset_entries(self@.assets)
        &&& self.root@ == state_root(self@)
        &&& self.chunk_budget > 0
        &&& self.permissions.wf()
    }

    /// The root that the state holds and publishes.
    pub closed spec fn published_root(&self) -> Seq<u8> {
        self.root@
    }

    /// In a well-formed state the assets are sorted by key, the permission
    /// lists are sorted, and the root held is the root of the assets.
    pub proof fn lemma_wf(&self)
        requires
            self.wf(),
        ensures
            valid_state(self@),
            self.published_root() == state_root(self@),
    {
        lemma_asset_labels(self.assets@);
        self.permissions.lemma_wf();
        assert forall|i: int| 0 <= i < self@.assets.len() implies valid_asset(
            #[trigger] self@.assets[i],
        ) by {
            let a = self.assets@[i];
            assert(a.wf());
            assert(a.encodings.labels() =~= encoding_labels(a@.encodings));
            assert forall|j: int| 0 <= j < a@.encodings.len() implies (
            #[trigger] a@.encodings[j]).chunks.len() >= 1 by {
                assert(a.encodings@[j].wf());
            }
        }
    }

    /// The digest under the fallback label, read from the tree.
    fn fallback_hash(&self) -> (h: Hash256)
        requires
            self.assets.wf(),
            self.tree.wf(),
            self.tree@ == asset_entries(self@.assets),
        ensures
            h@ == fallback_digest(self@),
    {
        proof {
            lemma_entry_labels(self@.assets);
        }
        match &self.fallback {
            Some(key) => {
                proof {
                    lemma_lower_bound(asset_labels(self@.assets), utf8(key@));
                }
                match self.tree.get(key.as_str().as_bytes()) {
                    Some(h) => h,
                    None => empty_hash(),
                }
            },
            None => empty_hash(),
        }
    }

    /// Computes the root anew and holds it.
    fn refresh_root(&mut self)
        requires
            old(self).assets.wf(),
            old(self).tree.wf(),
            old(self).tree@ == asset_entries(old(self)@.assets),
        ensures
            final(self).root@ == state_root(final(self)@),
            final(self).assets == old(self).assets,
            final(self).tree == old(self).tree,
            final(self).fallback == old(self).fallback,
            final(self).permissions == old(self).permissions,
            final(self).chunk_budget == old(self).chunk_budget,
    {
        let assets = self.tree.root();
        let fallback = self.fallback_hash();
        self.root = top_hash(&assets, &fallback);
    }

    /// An empty store that cuts content into chunks of `chunk_budget` bytes.
    /// A budget of zero is taken as one.
    pub fn new(chunk_budget: usize) -> (s: State)
        ensures
            s.wf(),
            s@.assets == Seq::<AssetModel>::empty(),
            s@.fallback == None::<Seq<char>>,
            s@.permissions.commit == Seq::<Seq<u8>>::empty(),
            s@.permissions.manage == Seq::<Seq<u8>>::empty(),
            s@.chunk_budget == if chunk_budget == 0 {
                1nat
            } else {
                chunk_budget as nat
            },
    {
        let mut s = State {
            assets: SortedVec::new(),
            tree: CertificationTree::new(),
            fallback: None,
            permissions: PermissionRegistry::new(),
            chunk_budget: if chunk_budget == 0 {
                1
            } else {
                chunk_budget
            },
            root: [0u8; 32],
        };
        assert(s@.assets =~= Seq::<AssetModel>::empty());
        assert(asset_entries(s@.assets) =~= Seq::<(Seq<u8>, Seq<u8>)>::empty());
        s.refresh_root();
        s
    }

    /// The root digest that certifies everything the store can serve.
    pub fn root_hash(&self) -> (h: Hash256)
        requires
            self.wf(),
        ensures
            h@ == state_root(self@),
            h@ == self.published_root(),
    {
        self.root
    }

    /// The root digest computed anew from the assets, without the tree or
    /// the root that the state holds.
    pub fn recompute_root(&self) -> (h: Hash256)
        requires
            self.wf(),
        ensures
            h@ == state_root(self@),
            h@ == self.published_root(),
    {
        let mut fresh = CertificationTree::new();
        let mut i: usize = 0;
        let ghost all = asset_entries(self@.assets);
        assert(all.take(0) =~= Seq::<(Seq<u8>, Seq<u8>)>::empty());
        while i < self.assets.len()
            invariant
                self.wf(),
                all == asset_entries(self@.assets),
                i <= self.assets@.len(),
                fresh.wf(),
                fresh@ == all.take(i as int),
            decreases self.assets@.len() - i,
        {
            let asset = self.assets.at(i);
            let digest = asset.digest();
            let label = to_vec(asset.label_bytes());
            proof {
                let labels = self.assets.labels();
                assert(all[i as int] == (label@, digest@));
                if i > 0 {
                    assert(all.take(i as int).last() == all[i - 1]);
                    assert(labels[i - 1] == all[i - 1].0);
                    assert(labels[i as int] == label@);
                }
            }
            fresh.append(label, digest);
            assert(fresh@ =~= all.take(i + 1));
            i += 1;
        }
        assert(all.take(i as int) =~= all);
        let assets = fresh.root();
        let fallback = self.fallback_hash();
        top_hash(&assets, &fallback)
    }

    /// Brings tree and root up to date after the asset under `label` has
    /// been put into the assets.
    fn certify(&mut self, label: Vec<u8>, digest: Hash256, Ghost(before): Ghost<Seq<Asset>>, Ghost(item): Ghost<Asset>)
        requires
            old(self).assets.wf(),
            old(self).assets@ == put_into(before, item),
            old(self).tree.wf(),
            old(self).tree@ == asset_entries(assets_view(before)),
            label@ == item.label(),
            digest@ == asset_digest(item@),
        ensures
            final(self).assets == old(self).assets,
            final(self).fallback == old(self).fallback,
            final(self).permissions == old(self).permissions,
            final(self).chunk_budget == old(self).chunk_budget,
            final(self).tree.wf(),
            final(self).tree@ == asset_entries(final(self)@.assets),
            final(self).root@ == state_root(final(self)@),
    {
        proof {
            lemma_put_view(before, item);
        }
        self.tree.put(label, digest);
        self.refresh_root();
    }

    /// Puts `asset` into the assets from which the asset under its key has
    /// been taken out, and brings tree and root up to date.
    fn put_back(&mut self, asset: Asset, Ghost(before): Ghost<Seq<Asset>>)
        requires
            sorted(labels_of(before)),
            forall|i: int|
                0 <= i < before.len() ==> (#[trigger] before[i]).wf() && asset_fits(
                    before[i]@,
                    old(self).chunk_budget as nat,
                ),
            old(self).assets.wf(),
            old(self).assets@ == take_from(before, asset.label()),
            old(self).tree.wf(),
            old(self).tree@ == asset_entries(assets_view(before)),
            old(self).chunk_budget > 0,
            old(self).permissions.wf(),
            asset.wf(),
            asset_fits(asset@, old(self).chunk_budget as nat),
        ensures
            final(self).wf(),
            final(self)@ == (StateModel {
                assets: put_asset(assets_view(before), asset@),
                ..old(self)@
            }),
    {
        let digest = asset.digest();
        let label = to_vec(asset.label_bytes());
        let ghost middle = self.assets@;
        proof {
            lemma_take_members(before, asset.label());
            lemma_take_then_put(before, asset);
            lemma_put_members(middle, asset);
            lemma_put_view(before, asset);
        }
        self.assets.put(asset);
        proof {
            assert(self.assets@ == put_into(before, asset));
            assert forall|i: int| 0 <= i < self.assets@.len() implies (
            #[trigger] self.assets@[i]).wf() && asset_fits(
                self.assets@[i]@,
                self.chunk_budget as nat,
            ) by {
                let a = self.assets@[i];
                if a != asset {
                    assert(middle.contains(a));
                    let j = choose|j: int| 0 <= j < middle.len() && middle[j] == a;
                    assert(before.contains(middle[j]));
                    let k = choose|k: int| 0 <= k < before.len() && before[k] == a;
                    assert(before[k].wf());
                }
            }
        }
        self.certify(label, digest, Ghost(before), Ghost(asset));
    }

    /// Stores `arg.content` as the encoding `arg.content_encoding` of the
    /// asset under `arg.key`, at time `time`. The key is normalized and the
    /// content cut into chunks; an encoding of the same name is replaced and
    /// other encodings of the asset stay as they are. Tree and root are
    /// brought up to date. A hash that comes with the content must be the
    /// content's SHA-256; if it is not, the call fails and changes nothing.
    pub fn store(&mut self, arg: StoreArg, time: u64) -> (r: Result<(), Error>)
        requires
            old(self).wf(),
        ensures
            final(self).wf(),
            r is Ok <==> store_accepted(arg.content@, arg.sha256),
            r is Ok ==> final(self)@ == stored(
                old(self)@,
                arg.key@,
                arg.content_type@,
                arg.content_encoding@,
                arg.content@,
                arg.aliased,
                time,
            ),
            r matches Err(e) ==> e == Error::Malformed && final(self)@ == old(self)@
                && final(self).published_root() == old(self).published_root(),
    {
        let hash = sha256(arg.content.as_slice());
        match &arg.sha256 {
            Some(given) => {
                if !bytes_eq(given.as_slice(), hash.as_slice()) {
                    return Err(Error::Malformed);
                }
            },
            None => {},
        }
        let ghost before = self.assets@;
        let ghost model = self@;
        let key = normalize_key(arg.key.as_str());
        let chunks = split_chunks(arg.content.as_slice(), self.chunk_budget);
        let encoding = Encoding {
            name: arg.content_encoding,
            chunks,
            total_length: arg.content.len(),
            sha256: hash,
            modified: time,
        };
        proof {
            lemma_flat_chunks(arg.content@, self.chunk_budget as nat);
            crate::chunks::lemma_chunks_fit(arg.content@, self.chunk_budget as nat);
            lemma_asset_labels(before);
            lemma_lower_bound(labels_of(before), utf8(key@));
            lemma_take_members(before, utf8(key@));
        }
        assert(encoding.wf());
        assert(encoding@ == stored_encoding(
            model.chunk_budget,
            arg.content_encoding@,
            arg.content@,
            time,
        ));
        let taken = self.assets.take(key.as_str().as_bytes());
        let asset = match taken {
            Some(old_asset) => {
                let mut asset = old_asset;
                let ghost encodings = asset.encodings@;
                proof {
                    assert(before.contains(old_asset));
                    assert(old_asset.wf());
                    lemma_put_members(encodings, encoding);
                    lemma_lower_bound(labels_of(encodings), encoding.label());
                    assert(labels_of(encodings) =~= encoding_labels(encodings_view(encodings)));
                }
                asset.content_type = arg.content_type;
                asset.is_aliased = arg.aliased;
                asset.encodings.put(encoding);
                proof {
                    assert(encodings_view(asset.encodings@) =~= put_encoding(
                        encodings_view(encodings),
                        encoding@,
                    ));
                    assert forall|i: int| 0 <= i < asset.encodings@.len() implies (
                    #[trigger] asset.encodings@[i]).wf() by {
                        let e = asset.encodings@[i];
                        if e != encoding {
                            assert(encodings.contains(e));
                        }
                    }
                }
                asset
            },
            None => {
                let mut encodings: SortedVec<Encoding> = SortedVec::new();
                encodings.put(encoding);
                let asset = Asset {
                    key,
                    content_type: arg.content_type,
                    encodings,
                    max_age: None,
                    headers: Vec::new(),
                    is_aliased: arg.aliased,
                    allow_raw_access: None,
                };
                proof {
                    assert(labels_of(Seq::<Encoding>::empty()) =~= Seq::<Seq<u8>>::empty());
                    assert(asset.encodings@ =~= seq![encoding]);
                    assert(encodings_view(asset.encodings@) =~= seq![encoding@]);
                    assert(headers_view(asset.headers@) =~= Seq::<(Seq<char>, Seq<char>)>::empty());
                }
                asset
            },
        };
        assert(asset.wf());
        assert(asset@ == stored_asset(
            model,
            arg.key@,
            arg.content_type@,
            arg.content_encoding@,
            arg.content@,
            arg.aliased,
            time,
        ));
        self.put_back(asset, Ghost(before));
        Ok(())
    }

    /// Deletes the asset under `key` with all its encodings, and brings tree
    /// and root up to date. Where there is no such asset nothing changes.
    pub fn delete_asset(&mut self, key: &str)
        requires
            old(self).wf(),
        ensures
            final(self).wf(),
            final(self)@ == deleted(old(self)@, key@),
            find_asset(final(self)@.assets, utf8(normal_key(key@))) is None,
    {
        let ghost before = self.assets@;
        let normal = normalize_key(key);
        proof {
            lemma_asset_labels(before);
            lemma_take_members(before, utf8(normal@));
            lemma_take_view(before, utf8(normal@));
            lemma_lower_bound(labels_of(before), utf8(normal@));
            if has_label(labels_of(before), utf8(normal@)) {
                crate::ordered::lemma_remove_sorted(
                    labels_of(before),
                    lower_bound(labels_of(before), utf8(normal@)),
                );
            }
        }
        self.assets.take(normal.as_str().as_bytes());
        self.tree.remove(normal.as_str().as_bytes());
        proof {
            lemma_asset_labels(self.assets@);
            let labels = labels_of(before);
            let p = lower_bound(labels, utf8(normal@));
            if has_label(labels, utf8(normal@)) {
                assert(labels_of(self.assets@) =~= labels.remove(p));
                assert(labels[p] == utf8(normal@));
            }
            assert(!has_label(labels_of(self.assets@), utf8(normal@)));
            assert forall|i: int| 0 <= i < self.assets@.len() implies (
            #[trigger] self.assets@[i]).wf() by {
                assert(before.contains(self.assets@[i]));
            }
        }
        self.refresh_root();
    }

    /// The asset stored under the key with bytes `key`, if there is one.
    pub fn lookup(&self, key: &[u8]) -> (found: Option<&Asset>)
        requires
            self.wf(),
        ensures
            found is Some == find_asset(self@.assets, key@) is Some,
            found matches Some(a) ==> a.wf() && find_asset(self@.assets, key@) == Some(a@),
    {
        proof {
            lemma_asset_labels(self.assets@);
            lemma_lower_bound(labels_of(self.assets@), key@);
        }
        self.assets.find(key)
    }

    /// The asset that is served where no key matches, if one is registered
    /// and stored.
    pub fn fallback(&self) -> (found: Option<&Asset>)
        requires
            self.wf(),
        ensures
            found is Some == fallback_asset(self@) is Some,
            found matches Some(a) ==> a.wf() && fallback_asset(self@) == Some(a@),
    {
        match &self.fallback {
            Some(key) => self.lookup(key.as_str().as_bytes()),
            None => None,
        }
    }

    /// One encoding of the asset under `arg.key`, whole: the first of
    /// `arg.accept_encodings` that the asset has. Fails with `NotFound` where
    /// there is no such asset or it has none of these encodings.
    pub fn get(&self, arg: &GetArg) -> (r: Result<EncodedAsset, Error>)
        requires
            self.wf(),
        ensures
            r is Ok == got(self@, arg.key@, crate::types::texts_view(arg.accept_encodings@)) is Some,
            r matches Ok(x) ==> ({
                let (a, e) = got(
                    self@,
                    arg.key@,
                    crate::types::texts_view(arg.accept_encodings@),
                ).unwrap();
                &&& x.content@ == e.content()
                &&& x.content_type@ == a.content_type
                &&& x.content_encoding@ == e.name
                &&& x.total_length == e.content().len()
                &&& x.sha256@ == e.sha256()
            }),
            r matches Err(e) ==> e == Error::NotFound,
    {
        let key = normalize_key(arg.key.as_str());
        match self.lookup(key.as_str().as_bytes()) {
            Some(asset) => match asset.accepted_encoding(&arg.accept_encodings) {
                Some(i) => {
                    let encoding = asset.encodings.at(i);
                    assert(encoding.wf());
                    assert(encoding@ == asset@.encodings[i as int]);
                    Ok(
                        EncodedAsset {
                            content: join_chunks(&encoding.chunks),
                            content_type: asset.content_type.clone(),
                            content_encoding: encoding.name.clone(),
                            total_length: encoding.total_length as u64,
                            sha256: to_vec(encoding.sha256.as_slice()),
                        },
                    )
                },
                None => Err(Error::NotFound),
            },
            None => Err(Error::NotFound),
        }
    }

    /// The number of assets.
    pub fn len(&self) -> (n: usize)
        ensures
            n == self@.assets.len(),
    {
        self.assets.len()
    }

    /// Key, content type and encodings of every asset, without bytes, in
    /// ascending order of the keys.
    pub fn list(&self) -> (listing: Vec<AssetDetails>)
        requires
            self.wf(),
        ensures
            crate::types::details_view(listing@) == listed(self@.assets, 0, self@.assets.len() as int),
    {
        self.list_range(0, self.assets.len())
    }

    /// The part of the listing from place `start` on, at most `limit`
    /// assets long. Calling it again with `start` moved on by the length of
    /// what came back takes the listing up where it stopped.
    pub fn list_range(&self, start: usize, limit: usize) -> (listing: Vec<AssetDetails>)
        requires
            self.wf(),
        ensures
            crate::types::details_view(listing@) == listed(
                self@.assets,
                start as int,
                start + limit,
            ),
    {
        let mut listing: Vec<AssetDetails> = Vec::new();
        let n = self.assets.len();
        if start >= n {
            assert(crate::types::details_view(listing@) =~= listed(
                self@.assets,
                start as int,
                start + limit,
            ));
            return listing;
        }
        let end: usize = if limit < n - start {
            start + limit
        } else {
            n
        };
        let mut i: usize = start;
        while i < end
            invariant
                self.wf(),
                start <= i <= end <= self.assets@.len(),
                crate::types::details_view(listing@) == listed(self@.assets, start as int, i as int),
            decreases end - i,
        {
            let asset = self.assets.at(i);
            assert(asset.wf());
            let ghost before = crate::types::details_view(listing@);
            let details = asset.details();
            proof {
                assert(asset@ == self@.assets[i as int]);
                assert(details@.encodings =~= details_of(asset@).encodings);
                assert(details@ == details_of(asset@));
            }
            listing.push(details);
            assert(crate::types::details_view(listing@) =~= before.push(details@));
            assert(listed(self@.assets, start as int, i + 1) =~= listed(
                self@.assets,
                start as int,
                i as int,
            ).push(details_of(self@.assets[i as int])));
            i += 1;
        }
        assert(listed(self@.assets, start as int, start + limit) =~= listed(
            self@.assets,
            start as int,
            end as int,
        ));
        listing
    }

    /// Sets serving properties of the asset under `arg.key`, and brings tree
    /// and root up to date. Fails with `NotFound`, and changes nothing, where
    /// there is no such asset.
    pub fn set_asset_properties(&mut self, arg: SetAssetPropertiesArguments) -> (r: Result<
        (),
        Error,
    >)
        requires
            old(self).wf(),
        ensures
            final(self).wf(),
            r is Ok == find_asset(old(self)@.assets, utf8(normal_key(arg.key@))) is Some,
            r is Ok ==> final(self)@ == (StateModel {
                assets: put_asset(
                    old(self)@.assets,
                    with_properties(
                        find_asset(old(self)@.assets, utf8(normal_key(arg.key@))).unwrap(),
                        arg,
                    ),
                ),
                ..old(self)@
            }),
            r matches Err(e) ==> e == Error::NotFound && final(self)@ == old(self)@
                && final(self).published_root() == old(self).published_root(),
    {
        let ghost before = self.assets@;
        let key = normalize_key(arg.key.as_str());
        proof {
            lemma_asset_labels(before);
            lemma_lower_bound(labels_of(before), utf8(key@));
        }
        let (_, present) = self.assets.search(key.as_str().as_bytes());
        if !present {
            return Err(Error::NotFound);
        }
        let taken = self.assets.take(key.as_str().as_bytes());
        match taken {
            Some(old_asset) => {
                let ghost was = old_asset;
                let mut asset = old_asset;
                assert(before.contains(was));
                assert(was.wf());
                match arg.max_age {
                    Some(age) => {
                        asset.max_age = age;
                    },
                    None => {},
                }
                match arg.headers {
                    Some(Some(headers)) => {
                        asset.headers = normalize_headers(&headers);
                    },
                    Some(None) => {
                        asset.headers = Vec::new();
                        assert(headers_view(asset.headers@) =~= Seq::<
                            (Seq<char>, Seq<char>),
                        >::empty());
                    },
                    None => {},
                }
                match arg.allow_raw_access {
                    Some(allow) => {
                        asset.allow_raw_access = allow;
                    },
                    None => {},
                }
                match arg.is_aliased {
                    Some(aliased) => {
                        asset.is_aliased = aliased;
                    },
                    None => {},
                }
                assert(asset@ == with_properties(was@, arg));
                assert(asset.label() == was.label());
                self.put_back(asset, Ghost(before));
                Ok(())
            },
            None => Err(Error::NotFound),
        }
    }

    /// Registers the key of the asset that is served where no key matches,
    /// or takes the registration away, and brings the root up to date.
    pub fn set_fallback(&mut self, key: Option<String>)
        requires
            old(self).wf(),
        ensures
            final(self).wf(),
            final(self)@ == (StateModel {
                fallback: match key {
                    Some(k) => Some(k@),
                    None => None,
                },
                ..old(self)@
            }),
    {
        self.fallback = key;
        self.refresh_root();
    }

    /// Grants `permission` to `principal`.
    pub fn grant_permission(&mut self, principal: &Principal, permission: Permission)
        requires
            old(self).wf(),
        ensures
            final(self).wf(),
            final(self)@ == (StateModel {
                permissions: old(self)@.permissions.grant(principal@, permission),
                ..old(self)@
            }),
            final(self)@.permissions.holds(principal@, permission),
            final(self).published_root() == old(self).published_root(),
    {
        self.permissions.grant(principal, permission);
    }

    /// Takes `permission` from `principal`, also where it is the last one to
    /// hold it.
    pub fn revoke_permission(&mut self, principal: &Principal, permission: Permission)
        requires
            old(self).wf(),
        ensures
            final(self).wf(),
            final(self)@ == (StateModel {
                permissions: old(self)@.permissions.revoke(principal@, permission),
                ..old(self)@
            }),
            !final(self)@.permissions.holds(principal@, permission),
            final(self).published_root() == old(self).published_root(),
    {
        self.permissions.revoke(principal, permission);
    }

    /// Makes `principals` the holders of `permission`, in place of those
    /// who held it.
    pub fn set_permitted(&mut self, permission: Permission, principals: &Vec<Principal>)
        requires
            old(self).wf(),
        ensures
            final(self).wf(),
            final(self)@.permissions.holders(permission) == crate::permissions::granted_all(
                Seq::<Seq<u8>>::empty(),
                labels_of(principals@),
            ),
            final(self)@ == (StateModel {
                permissions: match permission {
                    Permission::Commit => PermissionsModel {
                        commit: final(self)@.permissions.commit,
                        ..old(self)@.permissions
                    },
                    Permission::ManagePermissions => PermissionsModel {
                        manage: final(self)@.permissions.manage,
                        ..old(self)@.permissions
                    },
                },
                ..old(self)@
            }),
            final(self).published_root() == old(self).published_root(),
    {
        self.permissions.set_holders(permission, principals);
    }

    /// Whether `principal` holds `permission`.
    pub fn can(&self, principal: &Principal, permission: Permission) -> (held: bool)
        requires
            self.wf(),
        ensures
            held == self@.permissions.holds(principal@, permission),
    {
        self.permissions.check(principal, permission)
    }

    /// The holders of `permission`, in ascending order.
    pub fn list_permitted(&self, permission: Permission) -> (holders: Vec<Principal>)
        ensures
            labels_of(holders@) == self@.permissions.holders(permission),
    {
        self.permissions.list(permission)
    }

    /// Empties the store: no asset, no fallback, no permission. The chunk
    /// budget stays.
    pub fn clear(&mut self)
        requires
            old(self).wf(),
        ensures
            final(self).wf(),
            final(self)@.assets == Seq::<AssetModel>::empty(),
            final(self)@.fallback == None::<Seq<char>>,
            final(self)@.permissions.commit == Seq::<Seq<u8>>::empty(),
            final(self)@.permissions.manage == Seq::<Seq<u8>>::empty(),
            final(self)@.chunk_budget == old(self)@.chunk_budget,
    {
        *self = State::new(self.chunk_budget);
    }

    /// The chunk budget.
    pub fn chunk_budget(&self) -> (budget: usize)
        ensures
            budget == self@.chunk_budget,
    {
        self.chunk_budget
    }

    /// A witness for the key with bytes `key` in the tree of all assets. An
    /// asset under the key shows `inner` under its label.
    pub fn assets_witness(&self, key: &[u8], inner: Witness) -> (w: Witness)
        requires
            self.wf(),
        ensures
            w@ == witness_of(asset_entries(self@.assets), key@, inner@),
    {
        self.tree.witness(key, inner)
    }

    /// The digest under the fallback label.
    pub fn fallback_root(&self) -> (h: Hash256)
        requires
            self.wf(),
        ensures
            h@ == fallback_digest(self@),
    {
        self.fallback_hash()
    }
}

/// What a get call finds: the asset under the key and the encoding of it
/// that the caller gets.
pub open spec fn got(m: StateModel, key: Seq<char>, accept: Seq<Seq<char>>) -> Option<
    (AssetModel, EncodingModel),
> {
    match find_asset(m.assets, utf8(normal_key(key))) {
        Some(a) => match accepted_encoding(a.encodings, accept) {
            Some(e) => Some((a, e)),
            None => None,
        },
        None => None,
    }
}

/// How an asset is listed.
pub open spec fn details_of(a: AssetModel) -> AssetDetailsModel {
    AssetDetailsModel {
        key: a.key,
        content_type: a.content_type,
        encodings: Seq::new(
            a.encodings.len(),
            |j: int|
                EncodingDetailsModel {
                    content_encoding: a.encodings[j].name,
                    sha256: a.encodings[j].sha256(),
                    length: a.encodings[j].content().len(),
                    modified: a.encodings[j].modified,
                },
        ),
    }
}

/// The listing of the assets at the places from `start` up to `end`, as far
/// as there are assets.
pub open spec fn listed(assets: Seq<AssetModel>, start: int, end: int) -> Seq<AssetDetailsModel> {
    let stop = if end < assets.len() {
        end
    } else {
        assets.len() as int
    };
    if 0 <= start < stop {
        Seq::new((stop - start) as nat, |i: int| details_of(assets[start + i]))
    } else {
        Seq::empty()
    }
}

/// An asset with the serving properties of `arg` set. Header fields are
/// kept in normal form.
pub open spec fn with_properties(a: AssetModel, arg: SetAssetPropertiesArguments) -> AssetModel {
    AssetModel {
        max_age: match arg.max_age {
            Some(age) => age,
            None => a.max_age,
        },
        headers: match arg.headers {
            Some(Some(headers)) => normalized(headers_view(headers@)),
            Some(None) => Seq::empty(),
            None => a.headers,
        },
        allow_raw_access: match arg.allow_raw_access {
            Some(allow) => allow,
            None => a.allow_raw_access,
        },
        is_aliased: match arg.is_aliased {
            Some(aliased) => aliased,
            None => a.is_aliased,
        },
        ..a
    }
}

impl State {
    /// The snapshot of the state: its assets with their bytes, the fallback
    /// key, the permission lists and the chunk budget.
    pub fn export(&self) -> (snapshot: StableState)
        requires
            self.wf(),
        ensures
            snapshot@ == self@,
            valid_state(snapshot@),
    {
        proof {
            self.lemma_wf();
        }
        let mut assets: Vec<StableAsset> = Vec::new();
        let ghost all = self@.assets;
        let mut i: usize = 0;
        while i < self.assets.len()
            invariant
                all == self@.assets,
                i <= self.assets@.len(),
                stable_assets_view(assets@) == all.take(i as int),
            decreases self.assets@.len() - i,
        {
            let ghost before = stable_assets_view(assets@);
            let saved = save_asset(self.assets.at(i));
            assets.push(saved);
            assert(stable_assets_view(assets@) =~= before.push(all[i as int]));
            assert(all.take(i + 1) =~= all.take(i as int).push(all[i as int]));
            i += 1;
        }
        assert(all.take(i as int) =~= all);
        StableState {
            assets,
            fallback: match &self.fallback {
                Some(key) => Some(key.clone()),
                None => None,
            },
            commit_principals: self.permissions.list(Permission::Commit),
            manage_permissions_principals: self.permissions.list(Permission::ManagePermissions),
            chunk_budget: self.chunk_budget,
        }
    }

    /// The state that a snapshot holds, with hashes, tree and root computed
    /// anew. Fails with `Malformed` where what the snapshot holds is not a
    /// valid state: where something is out of order or occurs twice, an
    /// asset has no content, a header field is not in normal form, or a
    /// chunk is longer than the chunk budget.
    pub fn import(snapshot: &StableState) -> (r: Result<State, Error>)
        ensures
            r is Ok == valid_state(snapshot@),
            r matches Ok(s) ==> s.wf() && s@ == snapshot@,
            r matches Err(e) ==> e == Error::Malformed,
    {
        if snapshot.chunk_budget == 0 {
            return Err(Error::Malformed);
        }
        let permissions = match PermissionRegistry::restore(
            &snapshot.commit_principals,
            &snapshot.manage_permissions_principals,
        ) {
            Some(p) => p,
            None => {
                return Err(Error::Malformed);
            },
        };
        let ghost all = snapshot@.assets;
        let ghost labels = asset_labels(all);
        let ghost entries = asset_entries(all);
        let mut assets: SortedVec<Asset> = SortedVec::new();
        let mut tree = CertificationTree::new();
        let mut i: usize = 0;
        assert(all.take(0) =~= Seq::<AssetModel>::empty());
        assert(entries.take(0) =~= Seq::<(Seq<u8>, Seq<u8>)>::empty());
        while i < snapshot.assets.len()
            invariant
                all == snapshot@.assets,
                labels == asset_labels(all),
                entries == asset_entries(all),
                i <= snapshot.assets@.len(),
                assets.wf(),
                assets@.len() == i,
                assets_view(assets@) == all.take(i as int),
                forall|k: int|
                    0 <= k < assets@.len() ==> (#[trigger] assets@[k]).wf() && asset_fits(
                        assets@[k]@,
                        snapshot.chunk_budget as nat,
                    ),
                forall|k: int|
                    0 <= k < i ==> valid_asset(#[trigger] all[k]) && asset_fits(
                        all[k],
                        snapshot.chunk_budget as nat,
                    ),
                tree.wf(),
                tree@ == entries.take(i as int),
            decreases snapshot.assets@.len() - i,
        {
            let asset = match restore_asset(&snapshot.assets[i]) {
                Some(x) => x,
                None => {
                    assert(!valid_asset(all[i as int]));
                    return Err(Error::Malformed);
                },
            };
            assert(asset@ == all[i as int]);
            if !fits_budget(&asset, snapshot.chunk_budget) {
                assert(!asset_fits(all[i as int], snapshot.chunk_budget as nat));
                return Err(Error::Malformed);
            }
            if i > 0 {
                let last = assets.at(i - 1);
                assert(last@ == assets_view(assets@)[i - 1]);
                assert(last.label() == labels[i - 1]);
                assert(asset.label() == labels[i as int]);
                assert(tree@.last() == entries[i - 1]);
                match crate::bytes::rank(last.label_bytes(), asset.label_bytes()) {
                    crate::bytes::Rank::Before => {},
                    _ => {
                        proof {
                            crate::bytes::lemma_lex_irreflexive(labels[i as int]);
                            assert(!crate::bytes::lex_lt(labels[i - 1], labels[i as int]));
                        }
                        return Err(Error::Malformed);
                    },
                }
            }
            let digest = asset.digest();
            let label = to_vec(asset.label_bytes());
            assert(entries[i as int] == (label@, digest@));
            tree.append(label, digest);
            assets.push_last(asset);
            assert(assets_view(assets@) =~= all.take(i as int).push(all[i as int]));
            assert(all.take(i + 1) =~= all.take(i as int).push(all[i as int]));
            assert(entries.take(i + 1) =~= entries.take(i as int).push(entries[i as int]));
            i += 1;
        }
        assert(all.take(i as int) =~= all);
        assert(entries.take(i as int) =~= entries);
        let mut s = State {
            assets,
            tree,
            fallback: match &snapshot.fallback {
                Some(key) => Some(key.clone()),
                None => None,
            },
            permissions,
            chunk_budget: snapshot.chunk_budget,
            root: [0u8; 32],
        };
        proof {
            lemma_asset_labels(s.assets@);
            permissions.lemma_wf();
        }
        s.refresh_root();
        Ok(s)
    }

    /// The state as it is after a restart: taken from its own snapshot. It
    /// holds what this state holds, and its root is this state's root.
    pub fn restarted(&self) -> (after: State)
        requires
            self.wf(),
        ensures
            after.wf(),
            after@ == self@,
            after.published_root() == self.published_root(),
    {
        let snapshot = self.export();
        match State::import(&snapshot) {
            Ok(after) => after,
            Err(_) => vstd::pervasive::unreached(),
        }
    }
}

} // verus!
