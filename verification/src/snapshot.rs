//! The snapshot: everything that crosses a restart, as plain values.
//!
//! A snapshot holds the assets with their bytes and the permission lists.
//! It holds nothing that can be derived: no hash, no tree, no root. Assets,
//! encodings and principals stand in ascending order, so that a state has
//! one snapshot only, however it came about.

use crate::asset::{
    asset_labels, encoding_labels, encodings_view, headers_view, in_normal_form, normal_form,
    Asset, AssetModel, Encoding, EncodingModel,
};
use crate::bytes::{lex_lt, rank, to_vec, Rank};
use crate::chunks::{chunks_view, join_chunks};
use crate::hash::sha256;
use crate::ordered::{labels_of, sorted, Labeled, SortedVec};
use crate::permissions::{PermissionsModel, Principal};
use crate::state::StateModel;
use vstd::prelude::*;

verus! {

/// One encoding in a snapshot.
pub struct StableEncoding {
    pub name: String,
    pub modified: u64,
    pub content_chunks: Vec<Vec<u8>>,
}

/// One asset in a snapshot.
pub struct StableAsset {
    pub key: String,
    pub content_type: String,
    pub encodings: Vec<StableEncoding>,
    pub max_age: Option<u64>,
    pub headers: Vec<(String, String)>,
    pub is_aliased: Option<bool>,
    pub allow_raw_access: Option<bool>,
}

/// A snapshot of the whole state.
pub struct StableState {
    pub assets: Vec<StableAsset>,
    pub fallback: Option<String>,
    pub commit_principals: Vec<Principal>,
    pub manage_permissions_principals: Vec<Principal>,
    pub chunk_budget: usize,
}

impl View for StableEncoding {
    type V = EncodingModel;

    open spec fn view(&self) -> EncodingModel {
        EncodingModel {
            name: self.name@,
            chunks: chunks_view(self.content_chunks@),
            modified: self.modified,
        }
    }
}

/// The encodings of a snapshot as mathematical values.
pub open spec fn stable_encodings_view(items: Seq<StableEncoding>) -> Seq<EncodingModel> {
    Seq::new(items.len(), |i: int| items[i]@)
}

impl View for StableAsset {
    type V = AssetModel;

    open spec fn view(&self) -> AssetModel {
        AssetModel {
            key: self.key@,
            content_type: self.content_type@,
            encodings: stable_encodings_view(self.encodings@),
            max_age: self.max_age,
            headers: headers_view(self.headers@),
            is_aliased: self.is_aliased,
            allow_raw_access: self.allow_raw_access,
        }
    }
}

/// The assets of a snapshot as mathematical values.
pub open spec fn stable_assets_view(items: Seq<StableAsset>) -> Seq<AssetModel> {
    Seq::new(items.len(), |i: int| items[i]@)
}

impl View for StableState {
    type V = StateModel;

    open spec fn view(&self) -> StateModel {
        StateModel {
            assets: stable_assets_view(self.assets@),
            fallback: match self.fallback {
                Some(key) => Some(key@),
                None => None,
            },
            permissions: PermissionsModel {
                commit: labels_of(self.commit_principals@),
                manage: labels_of(self.manage_permissions_principals@),
            },
            chunk_budget: self.chunk_budget as nat,
        }
    }
}

/// What makes an asset valid: its encodings stand in ascending order of
/// their names, there is at least one, and each has at least one chunk; its
/// own header fields are in normal form.
pub open spec fn valid_asset(a: AssetModel) -> bool {
    &&& sorted(encoding_labels(a.encodings))
    &&& a.encodings.len() >= 1
    &&& forall|j: int| 0 <= j < a.encodings.len() ==> (#[trigger] a.encodings[j]).chunks.len() >= 1
    &&& normal_form(a.headers)
}

/// Whether every chunk of an encoding fits the chunk budget.
pub open spec fn encoding_fits(e: EncodingModel, budget: nat) -> bool {
    forall|k: int| 0 <= k < e.chunks.len() ==> (#[trigger] e.chunks[k]).len() <= budget
}

/// Whether every chunk of every encoding of an asset fits the chunk budget.
pub open spec fn asset_fits(a: AssetModel, budget: nat) -> bool {
    forall|j: int| 0 <= j < a.encodings.len() ==> encoding_fits(#[trigger] a.encodings[j], budget)
}

/// What makes a state valid: its assets stand in ascending order of their
/// keys, each is valid, and no chunk of any is longer than the chunk
/// budget; its permission lists are sorted, and its chunk budget is not
/// zero.
pub open spec fn valid_state(m: StateModel) -> bool {
    &&& sorted(asset_labels(m.assets))
    &&& forall|i: int|
        0 <= i < m.assets.len() ==> valid_asset(#[trigger] m.assets[i]) && asset_fits(
            m.assets[i],
            m.chunk_budget,
        )
    &&& m.permissions.wf()
    &&& m.chunk_budget > 0
}

/// Whether every chunk of every encoding of an asset fits the chunk budget.
pub fn fits_budget(a: &Asset, budget: usize) -> (yes: bool)
    ensures
        yes == asset_fits(a@, budget as nat),
{
    let mut j: usize = 0;
    while j < a.encodings.len()
        invariant
            j <= a.encodings@.len(),
            forall|i: int| 0 <= i < j ==> encoding_fits(#[trigger] a@.encodings[i], budget as nat),
        decreases a.encodings@.len() - j,
    {
        let encoding = a.encodings.at(j);
        assert(encoding@ == a@.encodings[j as int]);
        let mut k: usize = 0;
        while k < encoding.chunks.len()
            invariant
                k <= encoding.chunks@.len(),
                j < a.encodings@.len(),
                encoding@ == a@.encodings[j as int],
                forall|i: int| 0 <= i < k ==> (#[trigger] encoding@.chunks[i]).len() <= budget,
            decreases encoding.chunks@.len() - k,
        {
            if encoding.chunks[k].len() > budget {
                assert(encoding@.chunks[k as int].len() > budget);
                assert(!encoding_fits(a@.encodings[j as int], budget as nat));
                return false;
            }
            k += 1;
        }
        j += 1;
    }
    true
}

/// A copy of the chunks.
pub fn copy_chunks(chunks: &Vec<Vec<u8>>) -> (copy: Vec<Vec<u8>>)
    ensures
        chunks_view(copy@) == chunks_view(chunks@),
{
    let mut copy: Vec<Vec<u8>> = Vec::new();
    let mut i: usize = 0;
    while i < chunks.len()
        invariant
            i <= chunks@.len(),
            chunks_view(copy@) == chunks_view(chunks@).take(i as int),
        decreases chunks@.len() - i,
    {
        let ghost before = chunks_view(copy@);
        copy.push(to_vec(chunks[i].as_slice()));
        assert(chunks_view(copy@) =~= before.push(chunks@[i as int]@));
        assert(chunks_view(chunks@).take(i + 1) =~= chunks_view(chunks@).take(i as int).push(
            chunks@[i as int]@,
        ));
        i += 1;
    }
    assert(chunks_view(chunks@).take(i as int) =~= chunks_view(chunks@));
    copy
}

/// A copy of the header fields.
pub fn copy_headers(headers: &Vec<(String, String)>) -> (copy: Vec<(String, String)>)
    ensures
        headers_view(copy@) == headers_view(headers@),
{
    let mut copy: Vec<(String, String)> = Vec::new();
    let mut i: usize = 0;
    while i < headers.len()
        invariant
            i <= headers@.len(),
            headers_view(copy@) == headers_view(headers@).take(i as int),
        decreases headers@.len() - i,
    {
        let ghost before = headers_view(copy@);
        let field = &headers[i];
        copy.push((field.0.clone(), field.1.clone()));
        assert(headers_view(copy@) =~= before.push(headers_view(headers@)[i as int]));
        assert(headers_view(headers@).take(i + 1) =~= headers_view(headers@).take(i as int).push(
            headers_view(headers@)[i as int],
        ));
        i += 1;
    }
    assert(headers_view(headers@).take(i as int) =~= headers_view(headers@));
    copy
}

/// The encoding that a snapshot holds, with length and hash computed from
/// its chunks. `None` where the snapshot holds no chunk for it.
pub fn restore_encoding(e: &StableEncoding) -> (r: Option<Encoding>)
    ensures
        r is Some == (e@.chunks.len() >= 1),
        r matches Some(x) ==> x.wf() && x@ == e@,
{
    if e.content_chunks.len() == 0 {
        return None;
    }
    let chunks = copy_chunks(&e.content_chunks);
    let content = join_chunks(&chunks);
    let x = Encoding {
        name: e.name.clone(),
        chunks,
        total_length: content.len(),
        sha256: sha256(content.as_slice()),
        modified: e.modified,
    };
    assert(x@.chunks.len() == x.chunks@.len());
    Some(x)
}

/// The asset that a snapshot holds. `None` where what the snapshot holds is
/// not a valid asset.
pub fn restore_asset(a: &StableAsset) -> (r: Option<Asset>)
    ensures
        r is Some == valid_asset(a@),
        r matches Some(x) ==> x.wf() && x@ == a@,
{
    let ghost all = a@.encodings;
    let ghost labels = encoding_labels(all);
    let mut encodings: SortedVec<Encoding> = SortedVec::new();
    let mut j: usize = 0;
    assert(all.take(0) =~= Seq::<EncodingModel>::empty());
    while j < a.encodings.len()
        invariant
            all == a@.encodings,
            labels == encoding_labels(all),
            j <= a.encodings@.len(),
            encodings.wf(),
            encodings@.len() == j,
            encodings_view(encodings@) == all.take(j as int),
            forall|k: int| 0 <= k < encodings@.len() ==> (#[trigger] encodings@[k]).wf(),
        decreases a.encodings@.len() - j,
    {
        let ghost before = encodings@;
        let encoding = match restore_encoding(&a.encodings[j]) {
            Some(x) => x,
            None => {
                assert(all[j as int].chunks.len() == 0);
                return None;
            },
        };
        assert(encoding@ == all[j as int]);
        if j > 0 {
            let last = encodings.at(j - 1);
            assert(last@ == encodings_view(encodings@)[j - 1]);
            assert(last@ == all.take(j as int)[j - 1]);
            assert(last.label() == labels[j - 1]);
            assert(encoding.label() == labels[j as int]);
            match rank(last.label_bytes(), encoding.label_bytes()) {
                Rank::Before => {},
                _ => {
                    proof {
                        crate::bytes::lemma_lex_irreflexive(labels[j as int]);
                        assert(!lex_lt(labels[j - 1], labels[j as int]));
                    }
                    return None;
                },
            }
        }
        encodings.push_last(encoding);
        assert(encodings_view(encodings@) =~= all.take(j as int).push(all[j as int]));
        assert(all.take(j + 1) =~= all.take(j as int).push(all[j as int]));
        j += 1;
    }
    assert(all.take(j as int) =~= all);
    if encodings.len() == 0 {
        return None;
    }
    if !in_normal_form(&a.headers) {
        return None;
    }
    proof {
        assert(encodings.labels() =~= labels);
        assert forall|k: int| 0 <= k < all.len() implies (#[trigger] all[k]).chunks.len() >= 1 by {
            assert(encodings@[k].wf());
            assert(encodings@[k]@ == all[k]);
        }
    }
    let x = Asset {
        key: a.key.clone(),
        content_type: a.content_type.clone(),
        encodings,
        max_age: a.max_age,
        headers: copy_headers(&a.headers),
        is_aliased: a.is_aliased,
        allow_raw_access: a.allow_raw_access,
    };
    Some(x)
}

/// The encoding as it stands in a snapshot.
pub fn save_encoding(e: &Encoding) -> (s: StableEncoding)
    ensures
        s@ == e@,
{
    StableEncoding {
        name: e.name.clone(),
        modified: e.modified,
        content_chunks: copy_chunks(&e.chunks),
    }
}

/// The asset as it stands in a snapshot.
pub fn save_asset(a: &Asset) -> (s: StableAsset)
    ensures
        s@ == a@,
{
    let mut encodings: Vec<StableEncoding> = Vec::new();
    let ghost all = a@.encodings;
    let mut j: usize = 0;
    while j < a.encodings.len()
        invariant
            all == a@.encodings,
            j <= a.encodings@.len(),
            stable_encodings_view(encodings@) == all.take(j as int),
        decreases a.encodings@.len() - j,
    {
        let ghost before = stable_encodings_view(encodings@);
        let saved = save_encoding(a.encodings.at(j));
        encodings.push(saved);
        assert(stable_encodings_view(encodings@) =~= before.push(all[j as int]));
        assert(all.take(j + 1) =~= all.take(j as int).push(all[j as int]));
        j += 1;
    }
    assert(all.take(j as int) =~= all);
    StableAsset {
        key: a.key.clone(),
        content_type: a.content_type.clone(),
        encodings,
        max_age: a.max_age,
        headers: copy_headers(&a.headers),
        is_aliased: a.is_aliased,
        allow_raw_access: a.allow_raw_access,
    }
}

} // verus!
