//! The plain values that calls take and return.

use vstd::prelude::*;

verus! {

/// What a store call is given.
pub struct StoreArg {
    pub key: String,
    pub content_type: String,
    pub content_encoding: String,
    pub content: Vec<u8>,
    pub sha256: Option<Vec<u8>>,
    pub aliased: Option<bool>,
}

/// What a delete call is given.
pub struct DeleteAssetArguments {
    pub key: String,
}

/// What a get call is given: a key, and the names of the encodings that the
/// caller takes, in the order of its preference. Without any name the
/// caller takes `identity`.
pub struct GetArg {
    pub key: String,
    pub accept_encodings: Vec<String>,
}

/// What a get call returns: one encoding of an asset, whole.
#[derive(Debug)]
pub struct EncodedAsset {
    pub content: Vec<u8>,
    pub content_type: String,
    pub content_encoding: String,
    pub total_length: u64,
    pub sha256: Vec<u8>,
}

/// One encoding in a listing: its name, the hash and length of its whole
/// body, and when it was last written.
#[derive(Debug)]
pub struct AssetEncodingDetails {
    pub content_encoding: String,
    pub sha256: Vec<u8>,
    pub length: u64,
    pub modified: u64,
}

/// One asset in a listing: its key, content type and encodings, without
/// their bytes.
#[derive(Debug)]
pub struct AssetDetails {
    pub key: String,
    pub content_type: String,
    pub encodings: Vec<AssetEncodingDetails>,
}

/// What a call that sets serving properties is given. A property that is
/// `None` stays as it is; one that is `Some` is set to what it holds.
pub struct SetAssetPropertiesArguments {
    pub key: String,
    pub max_age: Option<Option<u64>>,
    pub headers: Option<Option<Vec<(String, String)>>>,
    pub allow_raw_access: Option<Option<bool>>,
    pub is_aliased: Option<Option<bool>>,
}

/// One encoding in a listing, as a mathematical value.
pub struct EncodingDetailsModel {
    pub content_encoding: Seq<char>,
    pub sha256: Seq<u8>,
    pub length: nat,
    pub modified: u64,
}

/// One asset in a listing, as a mathematical value.
pub struct AssetDetailsModel {
    pub key: Seq<char>,
    pub content_type: Seq<char>,
    pub encodings: Seq<EncodingDetailsModel>,
}

impl View for AssetEncodingDetails {
    type V = EncodingDetailsModel;

    open spec fn view(&self) -> EncodingDetailsModel {
        EncodingDetailsModel {
            content_encoding: self.content_encoding@,
            sha256: self.sha256@,
            length: self.length as nat,
            modified: self.modified,
        }
    }
}

/// The encodings of a listing as mathematical values.
pub open spec fn encoding_details_view(items: Seq<AssetEncodingDetails>) -> Seq<
    EncodingDetailsModel,
> {
    Seq::new(items.len(), |i: int| items[i]@)
}

impl View for AssetDetails {
    type V = AssetDetailsModel;

    open spec fn view(&self) -> AssetDetailsModel {
        AssetDetailsModel {
            key: self.key@,
            content_type: self.content_type@,
            encodings: encoding_details_view(self.encodings@),
        }
    }
}

/// A listing as mathematical values.
pub open spec fn details_view(items: Seq<AssetDetails>) -> Seq<AssetDetailsModel> {
    Seq::new(items.len(), |i: int| items[i]@)
}

/// Texts as mathematical values.
pub open spec fn texts_view(items: Seq<String>) -> Seq<Seq<char>> {
    Seq::new(items.len(), |i: int| items[i]@)
}

} // verus!
