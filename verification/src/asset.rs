//! Assets and their encodings, and what the store certifies of each.
//!
//! An asset is one key with a content type, serving properties, and one or
//! more encodings of its bytes. For every encoding the store certifies the
//! headers it would send and the hash of the whole body; the certified values
//! of an asset's encodings form a small tree of their own, under the
//! encodings' names.

use crate::bytes::{append, to_vec};
use crate::certification::{root_of, witness_of, CertificationTree};
use crate::chunks::{chunks_view, flat};
use crate::hash::{leaf_digest, leaf_hash, sha256, sha256_of, Hash256};
use crate::ordered::{Labeled, SortedVec};
use crate::text::{decimal, decimal_string, push_decimal, str_eq, utf8};
use crate::tree::{Tree, Witness};
use vstd::prelude::*;
use vstd::string::StringExecFns;

verus! {

/// One encoding of an asset, as a mathematical value.
pub struct EncodingModel {
    pub name: Seq<char>,
    pub chunks: Seq<Seq<u8>>,
    pub modified: u64,
}

impl EncodingModel {
    /// The whole body.
    pub open spec fn content(self) -> Seq<u8> {
        flat(self.chunks)
    }

    /// The hash of the whole body.
    pub open spec fn sha256(self) -> Seq<u8> {
        sha256_of(self.content())
    }
}

/// One named byte-level variant of an asset.
pub struct Encoding {
    pub name: String,
    pub chunks: Vec<Vec<u8>>,
    pub total_length: usize,
    pub sha256: Hash256,
    pub modified: u64,
}

impl View for Encoding {
    type V = EncodingModel;

    open spec fn view(&self) -> EncodingModel {
        EncodingModel {
            name: self.name@,
            chunks: chunks_view(self.chunks@),
            modified: self.modified,
        }
    }
}

impl Labeled for Encoding {
    open spec fn label(&self) -> Seq<u8> {
        utf8(self.name@)
    }

    fn label_bytes(&self) -> (b: &[u8]) {
        self.name.as_str().as_bytes()
    }
}

impl Encoding {
    /// The invariant: there is a chunk, the length held is the length of the
    /// chunks joined, and the hash held is the hash of the chunks joined.
    pub open spec fn wf(&self) -> bool {
        &&& self.chunks@.len() >= 1
        &&& self.total_length == self@.content().len()
        &&& self.sha256@ == self@.sha256()
    }
}

/// An asset as a mathematical value. Its encodings stand in ascending order
/// of their names' bytes.
pub struct AssetModel {
    pub key: Seq<char>,
    pub content_type: Seq<char>,
    pub encodings: Seq<EncodingModel>,
    pub max_age: Option<u64>,
    pub headers: Seq<(Seq<char>, Seq<char>)>,
    pub is_aliased: Option<bool>,
    pub allow_raw_access: Option<bool>,
}

/// A named resource with its encodings and serving properties.
pub struct Asset {
    pub key: String,
    pub content_type: String,
    pub encodings: SortedVec<Encoding>,
    pub max_age: Option<u64>,
    pub headers: Vec<(String, String)>,
    pub is_aliased: Option<bool>,
    pub allow_raw_access: Option<bool>,
}

/// Header fields as pairs of texts.
pub open spec fn headers_view(headers: Seq<(String, String)>) -> Seq<(Seq<char>, Seq<char>)> {
    Seq::new(headers.len(), |i: int| (headers[i].0@, headers[i].1@))
}

/// The encodings as mathematical values.
pub open spec fn encodings_view(encodings: Seq<Encoding>) -> Seq<EncodingModel> {
    Seq::new(encodings.len(), |i: int| encodings[i]@)
}

/// The labels under which encodings are ordered: their names' bytes.
pub open spec fn encoding_labels(encodings: Seq<EncodingModel>) -> Seq<Seq<u8>> {
    Seq::new(encodings.len(), |i: int| utf8(encodings[i].name))
}

impl View for Asset {
    type V = AssetModel;

    open spec fn view(&self) -> AssetModel {
        AssetModel {
            key: self.key@,
            content_type: self.content_type@,
            encodings: encodings_view(self.encodings@),
            max_age: self.max_age,
            headers: headers_view(self.headers@),
            is_aliased: self.is_aliased,
            allow_raw_access: self.allow_raw_access,
        }
    }
}

impl Labeled for Asset {
    open spec fn label(&self) -> Seq<u8> {
        utf8(self.key@)
    }

    fn label_bytes(&self) -> (b: &[u8]) {
        self.key.as_str().as_bytes()
    }
}

/// One text with its length in bytes before it, so that a run of such texts
/// can be read back in one way only.
pub open spec fn framed(s: Seq<char>) -> Seq<char> {
    decimal(utf8(s).len()) + ":"@ + s + ","@
}

/// The header fields written out one after the other, names and values
/// framed.
pub open spec fn header_block(headers: Seq<(Seq<char>, Seq<char>)>) -> Seq<char>
    decreases headers.len(),
{
    if headers.len() == 0 {
        Seq::empty()
    } else {
        header_block(headers.drop_last()) + framed(headers.last().0) + framed(headers.last().1)
    }
}

/// The header fields sent with one encoding of an asset: content type,
/// content encoding unless it is `identity`, the length of the whole body,
/// cache control where a maximum age is set, then the asset's own headers.
pub open spec fn response_headers(a: AssetModel, e: EncodingModel) -> Seq<(Seq<char>, Seq<char>)> {
    seq![("content-type"@, a.content_type)] + (if e.name == "identity"@ {
        Seq::<(Seq<char>, Seq<char>)>::empty()
    } else {
        seq![("content-encoding"@, e.name)]
    }) + seq![("content-length"@, decimal(e.content().len()))] + (match a.max_age {
        Some(age) => seq![("cache-control"@, "max-age="@ + decimal(age as nat))],
        None => Seq::<(Seq<char>, Seq<char>)>::empty(),
    }) + a.headers
}

/// The value certified for one encoding of an asset: the hash of its header
/// fields followed by the hash of its whole body.
pub open spec fn certified_value(a: AssetModel, e: EncodingModel) -> Seq<u8> {
    sha256_of(utf8(header_block(response_headers(a, e)))) + e.sha256()
}

/// The entries of an asset's own tree: for each encoding, its name and the
/// digest of a leaf with its certified value.
pub open spec fn encoding_entries(a: AssetModel) -> Seq<(Seq<u8>, Seq<u8>)> {
    Seq::new(
        a.encodings.len(),
        |i: int| (utf8(a.encodings[i].name), leaf_digest(certified_value(a, a.encodings[i]))),
    )
}

/// The digest of an asset's own tree.
pub open spec fn asset_digest(a: AssetModel) -> Seq<u8> {
    root_of(encoding_entries(a))
}

/// Writes `s` framed to the end of `out`.
fn push_framed(out: &mut String, s: &str)
    ensures
        final(out)@ == old(out)@ + framed(s@),
{
    let n: usize = s.as_bytes().len();
    push_decimal(out, n as u64);
    out.append(":");
    out.append(s);
    out.append(",");
    assert(out@ =~= old(out)@ + framed(s@));
}

/// The header fields written out as the text that is hashed.
pub fn header_block_string(headers: &Vec<(String, String)>) -> (block: String)
    ensures
        block@ == header_block(headers_view(headers@)),
{
    let mut block = String::new();
    let mut i: usize = 0;
    assert(headers_view(headers@).take(0) =~= Seq::<(Seq<char>, Seq<char>)>::empty());
    while i < headers.len()
        invariant
            i <= headers@.len(),
            block@ == header_block(headers_view(headers@).take(i as int)),
        decreases headers@.len() - i,
    {
        let ghost done = headers_view(headers@).take(i as int);
        let ghost next = headers_view(headers@).take(i + 1);
        assert(next.drop_last() =~= done);
        assert(next.last() == (headers@[i as int].0@, headers@[i as int].1@));
        push_framed(&mut block, headers[i].0.as_str());
        push_framed(&mut block, headers[i].1.as_str());
        i += 1;
    }
    assert(headers_view(headers@).take(i as int) =~= headers_view(headers@));
    block
}

impl Asset {
    /// The invariant: encodings stand in order of their names, there is at
    /// least one, and each is well formed; the asset's own header fields are
    /// in normal form.
    pub open spec fn wf(&self) -> bool {
        &&& self.encodings.wf()
        &&& self.encodings@.len() >= 1
        &&& forall|i: int| 0 <= i < self.encodings@.len() ==> (#[trigger] self.encodings@[i]).wf()
        &&& normal_form(headers_view(self.headers@))
    }

    /// The header fields sent with `encoding`.
    pub fn response_headers(&self, encoding: &Encoding) -> (headers: Vec<(String, String)>)
        requires
            encoding.wf(),
        ensures
            headers_view(headers@) == response_headers(self@, encoding@),
    {
        let mut headers: Vec<(String, String)> = Vec::new();
        headers.push((String::from_str("content-type"), self.content_type.clone()));
        if !str_eq(encoding.name.as_str(), "identity") {
            headers.push((String::from_str("content-encoding"), encoding.name.clone()));
        }
        headers.push(
            (String::from_str("content-length"), decimal_string(encoding.total_length as u64)),
        );
        match self.max_age {
            Some(age) => {
                let mut value = String::from_str("max-age=");
                push_decimal(&mut value, age);
                headers.push((String::from_str("cache-control"), value));
            },
            None => {},
        }
        let ghost fixed = headers_view(headers@);
        let mut i: usize = 0;
        while i < self.headers.len()
            invariant
                i <= self.headers@.len(),
                headers_view(headers@) == fixed + headers_view(self.headers@).take(i as int),
            decreases self.headers@.len() - i,
        {
            let field = &self.headers[i];
            let ghost before = headers_view(headers@);
            let ghost own = headers_view(self.headers@);
            headers.push((field.0.clone(), field.1.clone()));
            assert(headers_view(headers@) =~= before.push(own[i as int]));
            assert(own.take(i + 1) =~= own.take(i as int).push(own[i as int]));
            assert(headers_view(headers@) =~= fixed + own.take(i + 1));
            i += 1;
        }
        assert(headers_view(self.headers@).take(i as int) =~= headers_view(self.headers@));
        assert(headers_view(headers@) =~= response_headers(self@, encoding@));
        headers
    }

    /// The value certified for `encoding`.
    pub fn certified_value(&self, encoding: &Encoding) -> (value: Vec<u8>)
        requires
            encoding.wf(),
        ensures
            value@ == certified_value(self@, encoding@),
    {
        let headers = self.response_headers(encoding);
        let block = header_block_string(&headers);
        let head = sha256(block.as_str().as_bytes());
        let mut value = to_vec(head.as_slice());
        append(&mut value, encoding.sha256.as_slice());
        value
    }

    /// The asset's own tree: one entry for each encoding.
    pub fn certification(&self) -> (tree: CertificationTree)
        requires
            self.wf(),
        ensures
            tree.wf(),
            tree@ == encoding_entries(self@),
    {
        let mut tree = CertificationTree::new();
        let mut i: usize = 0;
        let ghost all = encoding_entries(self@);
        assert(all.take(0) =~= Seq::<(Seq<u8>, Seq<u8>)>::empty());
        while i < self.encodings.len()
            invariant
                self.wf(),
                all == encoding_entries(self@),
                i <= self.encodings@.len(),
                tree.wf(),
                tree@ == all.take(i as int),
            decreases self.encodings@.len() - i,
        {
            let encoding = self.encodings.at(i);
            let value = self.certified_value(encoding);
            let digest = leaf_hash(value.as_slice());
            let label = to_vec(encoding.label_bytes());
            proof {
                let labels = self.encodings.labels();
                assert(all[i as int] == (label@, digest@));
                if i > 0 {
                    assert(all.take(i as int).last() == all[i - 1]);
                    assert(labels[i - 1] == all[i - 1].0);
                    assert(labels[i as int] == label@);
                }
            }
            tree.append(label, digest);
            assert(tree@ =~= all.take(i + 1));
            i += 1;
        }
        assert(all.take(i as int) =~= all);
        tree
    }

    /// The digest of the asset's own tree.
    pub fn digest(&self) -> (h: Hash256)
        requires
            self.wf(),
        ensures
            h@ == asset_digest(self@),
    {
        self.certification().root()
    }

    /// A witness, within the asset's own tree, for the encoding at place
    /// `i`: it shows the encoding's certified value under the encoding's
    /// name.
    pub fn witness(&self, i: usize) -> (w: Witness)
        requires
            self.wf(),
            i < self.encodings@.len(),
        ensures
            w@ == witness_of(
                encoding_entries(self@),
                utf8(self@.encodings[i as int].name),
                Tree::Leaf(certified_value(self@, self@.encodings[i as int])),
            ),
    {
        let tree = self.certification();
        let encoding = self.encodings.at(i);
        let value = self.certified_value(encoding);
        tree.witness(encoding.label_bytes(), Witness::Leaf(value))
    }
}

/// The encodings after `e` has taken the place of its name.
pub open spec fn put_encoding(encodings: Seq<EncodingModel>, e: EncodingModel) -> Seq<
    EncodingModel,
> {
    let labels = encoding_labels(encodings);
    let p = crate::ordered::lower_bound(labels, utf8(e.name));
    if crate::ordered::has_label(labels, utf8(e.name)) {
        encodings.update(p, e)
    } else {
        encodings.insert(p, e)
    }
}

/// The encoding named by `name`, if the asset has it.
pub open spec fn find_encoding(encodings: Seq<EncodingModel>, name: Seq<u8>) -> Option<
    EncodingModel,
> {
    let labels = encoding_labels(encodings);
    if crate::ordered::has_label(labels, name) {
        Some(encodings[crate::ordered::lower_bound(labels, name)])
    } else {
        None
    }
}

/// The labels under which assets are ordered: their keys' bytes.
pub open spec fn asset_labels(assets: Seq<AssetModel>) -> Seq<Seq<u8>> {
    Seq::new(assets.len(), |i: int| utf8(assets[i].key))
}

/// The assets as mathematical values.
pub open spec fn assets_view(assets: Seq<Asset>) -> Seq<AssetModel> {
    Seq::new(assets.len(), |i: int| assets[i]@)
}

/// The asset stored under the key with bytes `key`, if there is one.
pub open spec fn find_asset(assets: Seq<AssetModel>, key: Seq<u8>) -> Option<AssetModel> {
    let labels = asset_labels(assets);
    if crate::ordered::has_label(labels, key) {
        Some(assets[crate::ordered::lower_bound(labels, key)])
    } else {
        None
    }
}

/// The assets after `a` has taken the place of its key.
pub open spec fn put_asset(assets: Seq<AssetModel>, a: AssetModel) -> Seq<AssetModel> {
    let labels = asset_labels(assets);
    let p = crate::ordered::lower_bound(labels, utf8(a.key));
    if crate::ordered::has_label(labels, utf8(a.key)) {
        assets.update(p, a)
    } else {
        assets.insert(p, a)
    }
}

/// The assets without the one stored under the key with bytes `key`.
pub open spec fn remove_asset(assets: Seq<AssetModel>, key: Seq<u8>) -> Seq<AssetModel> {
    let labels = asset_labels(assets);
    if crate::ordered::has_label(labels, key) {
        assets.remove(crate::ordered::lower_bound(labels, key))
    } else {
        assets
    }
}

/// The entries of the assets' tree: for each asset, its key and the digest
/// of its own tree.
pub open spec fn asset_entries(assets: Seq<AssetModel>) -> Seq<(Seq<u8>, Seq<u8>)> {
    Seq::new(assets.len(), |i: int| (utf8(assets[i].key), asset_digest(assets[i])))
}

/// The first of `names` that is the name of a stored encoding, with that
/// encoding.
pub open spec fn first_stored(encodings: Seq<EncodingModel>, names: Seq<Seq<u8>>) -> Option<
    EncodingModel,
>
    decreases names.len(),
{
    if names.len() == 0 {
        None
    } else {
        match find_encoding(encodings, names[0]) {
            Some(e) => Some(e),
            None => first_stored(encodings, names.drop_first()),
        }
    }
}

/// The UTF-8 bytes of each text.
pub open spec fn texts_bytes(texts: Seq<Seq<char>>) -> Seq<Seq<u8>> {
    Seq::new(texts.len(), |i: int| utf8(texts[i]))
}

/// The byte strings that a sequence of vectors holds.
pub open spec fn names_view(names: Seq<Vec<u8>>) -> Seq<Seq<u8>> {
    Seq::new(names.len(), |i: int| names[i]@)
}

/// The encoding that a caller gets who takes the encodings `accept`, in
/// that order of preference: the first of them that is stored. A caller who
/// names none takes `identity`.
pub open spec fn accepted_encoding(encodings: Seq<EncodingModel>, accept: Seq<Seq<char>>) -> Option<
    EncodingModel,
> {
    if accept.len() == 0 {
        find_encoding(encodings, utf8("identity"@))
    } else {
        first_stored(encodings, texts_bytes(accept))
    }
}

/// The UTF-8 bytes of each string.
pub fn strings_bytes(texts: &Vec<String>) -> (names: Vec<Vec<u8>>)
    ensures
        names_view(names@) == texts_bytes(crate::types::texts_view(texts@)),
{
    let mut names: Vec<Vec<u8>> = Vec::new();
    let mut i: usize = 0;
    let ghost all = texts_bytes(crate::types::texts_view(texts@));
    while i < texts.len()
        invariant
            i <= texts@.len(),
            all == texts_bytes(crate::types::texts_view(texts@)),
            names_view(names@) == all.take(i as int),
        decreases texts@.len() - i,
    {
        let ghost before = names_view(names@);
        names.push(to_vec(texts[i].as_str().as_bytes()));
        assert(names_view(names@) =~= before.push(all[i as int]));
        assert(all.take(i + 1) =~= all.take(i as int).push(all[i as int]));
        i += 1;
    }
    assert(all.take(i as int) =~= all);
    names
}

impl Asset {
    /// The place of the encoding named `name`, if the asset has it.
    pub fn encoding_index(&self, name: &[u8]) -> (r: Option<usize>)
        requires
            self.wf(),
        ensures
            r is Some == find_encoding(self@.encodings, name@) is Some,
            r matches Some(i) ==> i < self@.encodings.len() && find_encoding(
                self@.encodings,
                name@,
            ) == Some(self@.encodings[i as int]),
    {
        proof {
            assert(self.encodings.labels() =~= encoding_labels(self@.encodings));
        }
        let (p, found) = self.encodings.search(name);
        if found {
            Some(p)
        } else {
            None
        }
    }

    /// The place of the first of `names` that names a stored encoding.
    pub fn first_stored(&self, names: &Vec<Vec<u8>>) -> (r: Option<usize>)
        requires
            self.wf(),
        ensures
            r is Some == first_stored(self@.encodings, names_view(names@)) is Some,
            r matches Some(i) ==> i < self@.encodings.len() && first_stored(
                self@.encodings,
                names_view(names@),
            ) == Some(self@.encodings[i as int]),
    {
        let mut k: usize = 0;
        let ghost all = names_view(names@);
        assert(all.skip(0) =~= all);
        while k < names.len()
            invariant
                self.wf(),
                k <= names@.len(),
                all == names_view(names@),
                first_stored(self@.encodings, all) == first_stored(
                    self@.encodings,
                    all.skip(k as int),
                ),
            decreases names@.len() - k,
        {
            let ghost rest = all.skip(k as int);
            assert(rest[0] == names@[k as int]@);
            assert(rest.drop_first() =~= all.skip(k + 1));
            match self.encoding_index(names[k].as_slice()) {
                Some(i) => {
                    return Some(i);
                },
                None => {},
            }
            k += 1;
        }
        None
    }

    /// The place of the encoding that a caller gets who takes `accept`.
    pub fn accepted_encoding(&self, accept: &Vec<String>) -> (r: Option<usize>)
        requires
            self.wf(),
        ensures
            r is Some == accepted_encoding(
                self@.encodings,
                crate::types::texts_view(accept@),
            ) is Some,
            r matches Some(i) ==> i < self@.encodings.len() && accepted_encoding(
                self@.encodings,
                crate::types::texts_view(accept@),
            ) == Some(self@.encodings[i as int]),
    {
        if accept.len() == 0 {
            self.encoding_index("identity".as_bytes())
        } else {
            let names = strings_bytes(accept);
            self.first_stored(&names)
        }
    }
}

impl Asset {
    /// Key, content type and encodings of the asset, without bytes.
    pub fn details(&self) -> (d: crate::types::AssetDetails)
        requires
            self.wf(),
        ensures
            d.key@ == self@.key,
            d.content_type@ == self@.content_type,
            d.encodings@.len() == self@.encodings.len(),
            forall|j: int|
                0 <= j < self@.encodings.len() ==> {
                    &&& (#[trigger] d.encodings@[j]).content_encoding@ == self@.encodings[j].name
                    &&& d.encodings@[j].sha256@ == self@.encodings[j].sha256()
                    &&& d.encodings@[j].length == self@.encodings[j].content().len()
                    &&& d.encodings@[j].modified == self@.encodings[j].modified
                },
    {
        let mut encodings: Vec<crate::types::AssetEncodingDetails> = Vec::new();
        let mut j: usize = 0;
        while j < self.encodings.len()
            invariant
                self.wf(),
                j <= self.encodings@.len(),
                encodings@.len() == j,
                forall|k: int|
                    0 <= k < j ==> {
                        &&& (#[trigger] encodings@[k]).content_encoding@
                            == self@.encodings[k].name
                        &&& encodings@[k].sha256@ == self@.encodings[k].sha256()
                        &&& encodings@[k].length == self@.encodings[k].content().len()
                        &&& encodings@[k].modified == self@.encodings[k].modified
                    },
            decreases self.encodings@.len() - j,
        {
            let encoding = self.encodings.at(j);
            assert(encoding.wf());
            assert(encoding@ == self@.encodings[j as int]);
            encodings.push(
                crate::types::AssetEncodingDetails {
                    content_encoding: encoding.name.clone(),
                    sha256: to_vec(encoding.sha256.as_slice()),
                    length: encoding.total_length as u64,
                    modified: encoding.modified,
                },
            );
            j += 1;
        }
        crate::types::AssetDetails {
            key: self.key.clone(),
            content_type: self.content_type.clone(),
            encodings,
        }
    }
}

/// One header field of an asset, ordered and found by its name.
pub struct Header {
    pub name: String,
    pub value: String,
}

impl Labeled for Header {
    open spec fn label(&self) -> Seq<u8> {
        utf8(self.name@)
    }

    fn label_bytes(&self) -> (b: &[u8]) {
        self.name.as_str().as_bytes()
    }
}

/// Header fields as pairs of texts.
pub open spec fn fields_view(fields: Seq<Header>) -> Seq<(Seq<char>, Seq<char>)> {
    Seq::new(fields.len(), |i: int| (fields[i].name@, fields[i].value@))
}

/// The labels under which header fields are ordered: their names' bytes.
pub open spec fn header_labels(fields: Seq<(Seq<char>, Seq<char>)>) -> Seq<Seq<u8>> {
    Seq::new(fields.len(), |i: int| utf8(fields[i].0))
}

/// The normal form of a set of header fields: the names are in lower case
/// and stand in ascending order, so that each name occurs once.
pub open spec fn normal_form(fields: Seq<(Seq<char>, Seq<char>)>) -> bool {
    &&& crate::ordered::sorted(header_labels(fields))
    &&& forall|i: int| 0 <= i < fields.len() ==> crate::text::is_lower_text((#[trigger] fields[i]).0)
}

/// The fields after `field` has taken the place of its name.
pub open spec fn put_field(
    fields: Seq<(Seq<char>, Seq<char>)>,
    field: (Seq<char>, Seq<char>),
) -> Seq<(Seq<char>, Seq<char>)> {
    let labels = header_labels(fields);
    let p = crate::ordered::lower_bound(labels, utf8(field.0));
    if crate::ordered::has_label(labels, utf8(field.0)) {
        fields.update(p, field)
    } else {
        fields.insert(p, field)
    }
}

/// Header fields brought into normal form: each name is put in lower case,
/// and the fields are put in order one after the other, a later field
/// taking the place of an earlier one of the same name.
pub open spec fn normalized(given: Seq<(Seq<char>, Seq<char>)>) -> Seq<(Seq<char>, Seq<char>)>
    decreases given.len(),
{
    if given.len() == 0 {
        Seq::empty()
    } else {
        put_field(
            normalized(given.drop_last()),
            (crate::text::lower_text(given.last().0), given.last().1),
        )
    }
}

/// Brings header fields into normal form.
pub fn normalize_headers(given: &Vec<(String, String)>) -> (fields: Vec<(String, String)>)
    ensures
        headers_view(fields@) == normalized(headers_view(given@)),
        normal_form(headers_view(fields@)),
{
    let ghost all = headers_view(given@);
    let mut sorted_fields: SortedVec<Header> = SortedVec::new();
    let mut i: usize = 0;
    assert(all.take(0) =~= Seq::<(Seq<char>, Seq<char>)>::empty());
    assert(fields_view(sorted_fields@) =~= Seq::<(Seq<char>, Seq<char>)>::empty());
    while i < given.len()
        invariant
            all == headers_view(given@),
            i <= given@.len(),
            sorted_fields.wf(),
            fields_view(sorted_fields@) == normalized(all.take(i as int)),
            forall|k: int|
                0 <= k < sorted_fields@.len() ==> crate::text::is_lower_text(
                    (#[trigger] sorted_fields@[k]).name@,
                ),
        decreases given@.len() - i,
    {
        let ghost before = sorted_fields@;
        let ghost next = all.take(i + 1);
        assert(next.drop_last() =~= all.take(i as int));
        assert(next.last() == (given@[i as int].0@, given@[i as int].1@));
        let field = Header {
            name: crate::text::to_lower(given[i].0.as_str()),
            value: given[i].1.clone(),
        };
        proof {
            crate::text::lemma_lower_text(given@[i as int].0@);
            crate::ordered::lemma_put_members(before, field);
            crate::ordered::lemma_lower_bound(crate::ordered::labels_of(before), field.label());
            assert(crate::ordered::labels_of(before) =~= header_labels(fields_view(before)));
        }
        sorted_fields.put(field);
        proof {
            assert(fields_view(sorted_fields@) =~= put_field(
                fields_view(before),
                (field.name@, field.value@),
            ));
            assert forall|k: int| 0 <= k < sorted_fields@.len() implies crate::text::is_lower_text(
                (#[trigger] sorted_fields@[k]).name@,
            ) by {
                let h = sorted_fields@[k];
                if h != field {
                    assert(before.contains(h));
                }
            }
        }
        i += 1;
    }
    assert(all.take(i as int) =~= all);
    let ghost normal = fields_view(sorted_fields@);
    let mut fields: Vec<(String, String)> = Vec::new();
    let mut k: usize = 0;
    while k < sorted_fields.len()
        invariant
            normal == fields_view(sorted_fields@),
            k <= sorted_fields@.len(),
            headers_view(fields@) == normal.take(k as int),
        decreases sorted_fields@.len() - k,
    {
        let ghost before = headers_view(fields@);
        let h = sorted_fields.at(k);
        fields.push((h.name.clone(), h.value.clone()));
        assert(headers_view(fields@) =~= before.push(normal[k as int]));
        assert(normal.take(k + 1) =~= normal.take(k as int).push(normal[k as int]));
        k += 1;
    }
    assert(normal.take(k as int) =~= normal);
    proof {
        assert(header_labels(normal) =~= sorted_fields.labels());
        assert forall|j: int| 0 <= j < normal.len() implies crate::text::is_lower_text(
            (#[trigger] normal[j]).0,
        ) by {
            assert(crate::text::is_lower_text(sorted_fields@[j].name@));
        }
    }
    fields
}

/// Whether header fields are in normal form.
pub fn in_normal_form(fields: &Vec<(String, String)>) -> (yes: bool)
    ensures
        yes == normal_form(headers_view(fields@)),
{
    let ghost all = headers_view(fields@);
    let ghost labels = header_labels(all);
    let mut i: usize = 0;
    while i < fields.len()
        invariant
            all == headers_view(fields@),
            labels == header_labels(all),
            i <= fields@.len(),
            forall|a: int, b: int|
                0 <= a < b < i ==> crate::bytes::lex_lt(#[trigger] labels[a], #[trigger] labels[b]),
            forall|k: int| 0 <= k < i ==> crate::text::is_lower_text((#[trigger] all[k]).0),
        decreases fields@.len() - i,
    {
        if !crate::text::is_lower(fields[i].0.as_str()) {
            assert(!crate::text::is_lower_text(all[i as int].0));
            return false;
        }
        if i > 0 {
            assert(labels[i - 1] == utf8(fields@[i - 1].0@));
            assert(labels[i as int] == utf8(fields@[i as int].0@));
            match crate::bytes::rank(
                fields[i - 1].0.as_str().as_bytes(),
                fields[i].0.as_str().as_bytes(),
            ) {
                crate::bytes::Rank::Before => {},
                _ => {
                    proof {
                        crate::bytes::lemma_lex_irreflexive(labels[i as int]);
                        assert(!crate::bytes::lex_lt(labels[i - 1], labels[i as int]));
                    }
                    return false;
                },
            }
            assert forall|a: int, b: int| 0 <= a < b < i + 1 implies crate::bytes::lex_lt(
                #[trigger] labels[a],
                #[trigger] labels[b],
            ) by {
                if b == i && a < i - 1 {
                    crate::bytes::lemma_lex_transitive(labels[a], labels[i - 1], labels[i as int]);
                }
            }
        }
        i += 1;
    }
    true
}

} // verus!
