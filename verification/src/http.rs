//! Answering requests: which asset a URL resolves to, which encoding the
//! caller gets, what is sent, and the witness that goes with it.
//!
//! A body that does not fit one response is sent chunk by chunk. The first
//! response carries a continuation token; each further call takes a token
//! and returns the next chunk with the token for the one after it, until the
//! last chunk comes without a token. Nothing is kept between the calls: a
//! token says which chunk of which encoding is due, and holds the hash that
//! the encoding had when the token was made.

use crate::asset::{
    asset_entries, certified_value, encoding_entries, find_asset, find_encoding, first_stored,
    headers_view, names_view, response_headers, Asset, AssetModel, EncodingModel,
};
use crate::bytes::{bytes_eq, to_vec};
use crate::certification::witness_of;
use crate::error::Error;
use crate::hash::{labeled_digest, labeled_hash};
use crate::headers::{contains, find_header, header_value, list_names, occurs_in, read_list};
use crate::path::{
    decode_url_path, html_alias, html_alias_of, index_alias, index_alias_of, url_path,
};
use crate::permissions::Principal;
use crate::state::{
    assets_label, assets_label_bytes, fallback_asset, fallback_digest, fallback_label,
    fallback_label_bytes, state_root, State, StateModel,
};
use crate::text::utf8;
use crate::tree::{Tree, Witness};
use vstd::prelude::*;

verus! {

/// A request.
pub struct HttpRequest {
    pub method: String,
    pub url: String,
    pub headers: Vec<(String, String)>,
    pub body: Vec<u8>,
}

/// The method of the service that takes continuation tokens.
pub struct CallbackFunc {
    pub principal: Principal,
    pub method: String,
}

/// A continuation token: the chunk that is due, of which encoding of which
/// asset, and the hash that the encoding had when the token was made.
#[derive(Debug)]
pub struct StreamingCallbackToken {
    pub key: String,
    pub content_encoding: String,
    pub index: u64,
    pub sha256: Option<Vec<u8>>,
}

/// How the rest of a body is to be had.
pub enum StreamingStrategy {
    Callback { callback: CallbackFunc, token: StreamingCallbackToken },
}

/// What ties a response to the published root.
pub struct Certification {
    /// The host's certificate over the published root, handed through.
    pub certificate: Vec<u8>,
    /// The tree with everything pruned that the response does not need.
    pub witness: Witness,
    /// Whether the response is one that the tree certifies.
    pub certified: bool,
    /// Whether the key that was asked for is the key that is served.
    /// Responses served from the fallback are not exact.
    pub exact: bool,
}

/// A response.
pub struct HttpResponse {
    pub status_code: u16,
    pub headers: Vec<(String, String)>,
    pub body: Vec<u8>,
    pub streaming_strategy: Option<StreamingStrategy>,
    pub certification: Certification,
}

/// What a continuation call returns: a chunk, and the token for the next
/// one unless this was the last.
#[derive(Debug)]
pub struct StreamingCallbackHttpResponse {
    pub body: Vec<u8>,
    pub token: Option<StreamingCallbackToken>,
}

/// Whether an asset may be served under the keys of its aliases.
pub open spec fn aliasable(a: AssetModel) -> bool {
    a.is_aliased != Some(false)
}

/// Whether an asset may be served to a request for raw access.
pub open spec fn raw_allowed(a: AssetModel) -> bool {
    a.allow_raw_access == Some(true)
}

/// What a path resolves to.
pub enum Resolved {
    /// The asset stored under the path itself.
    Exact(AssetModel),
    /// An asset that the path is an alias of.
    Alias(AssetModel),
    /// The fallback asset.
    Fallback(AssetModel),
    /// Nothing.
    Missing,
}

/// The asset under `key`, if it is there and may be served under an alias.
pub open spec fn alias_target(m: StateModel, key: Seq<u8>) -> Option<AssetModel> {
    match find_asset(m.assets, key) {
        Some(a) => if aliasable(a) {
            Some(a)
        } else {
            None
        },
        None => None,
    }
}

/// Resolves a path: first the asset under the path itself; then the index
/// document of the path; then the document that the path names without its
/// suffix; then the fallback asset.
pub open spec fn resolve(m: StateModel, path: Seq<u8>) -> Resolved {
    match find_asset(m.assets, path) {
        Some(a) => Resolved::Exact(a),
        None => match alias_target(m, index_alias(path)) {
            Some(a) => Resolved::Alias(a),
            None => match alias_target(m, html_alias(path)) {
                Some(a) => Resolved::Alias(a),
                None => match fallback_asset(m) {
                    Some(a) => Resolved::Fallback(a),
                    None => Resolved::Missing,
                },
            },
        },
    }
}

/// ASCII `accept-encoding`.
pub open spec fn accept_encoding_name() -> Seq<u8> {
    seq![
        97u8, 99u8, 99u8, 101u8, 112u8, 116u8, 45u8, 101u8, 110u8, 99u8, 111u8, 100u8,
        105u8, 110u8, 103u8,
    ]
}

/// ASCII `host`.
pub open spec fn host_name() -> Seq<u8> {
    seq![104u8, 111u8, 115u8, 116u8]
}

/// ASCII `.raw.`: what the name of a host has in it that serves without
/// checking certificates.
pub open spec fn raw_marker() -> Seq<u8> {
    seq![46u8, 114u8, 97u8, 119u8, 46u8]
}

/// The encodings that a request takes, in the order of its preference: the
/// names in its `accept-encoding` header, then `identity`.
pub open spec fn wanted_encodings(headers: Seq<(Seq<char>, Seq<char>)>) -> Seq<Seq<u8>> {
    (match header_value(headers, accept_encoding_name()) {
        Some(value) => list_names(value),
        None => Seq::<Seq<u8>>::empty(),
    }).push(utf8("identity"@))
}

/// Whether a request asks for raw access.
pub open spec fn raw_request(headers: Seq<(Seq<char>, Seq<char>)>) -> bool {
    match header_value(headers, host_name()) {
        Some(value) => occurs_in(value, raw_marker()),
        None => false,
    }
}

/// What becomes of a request.
pub enum Outcome {
    /// The URL cannot be decoded.
    BadRequest,
    /// The path resolves to nothing.
    NotFound { path: Seq<u8> },
    /// Raw access to an asset that does not permit it.
    Forbidden,
    /// The asset has none of the encodings that the request takes.
    NotAcceptable,
    /// An encoding of an asset is served.
    Serve { asset: AssetModel, encoding: EncodingModel, fallback: bool, path: Seq<u8> },
}

/// What becomes of a request for `url` with `headers`.
pub open spec fn outcome(m: StateModel, url: Seq<u8>, headers: Seq<(Seq<char>, Seq<char>)>) -> Outcome {
    match url_path(url) {
        None => Outcome::BadRequest,
        Some(path) => {
            let (found, fallback) = match resolve(m, path) {
                Resolved::Exact(a) => (Some(a), false),
                Resolved::Alias(a) => (Some(a), false),
                Resolved::Fallback(a) => (Some(a), true),
                Resolved::Missing => (None, false),
            };
            match found {
                None => Outcome::NotFound { path },
                Some(asset) => if raw_request(headers) && !raw_allowed(asset) {
                    Outcome::Forbidden
                } else {
                    match first_stored(asset.encodings, wanted_encodings(headers)) {
                        Some(encoding) => Outcome::Serve { asset, encoding, fallback, path },
                        None => Outcome::NotAcceptable,
                    }
                },
            }
        },
    }
}

/// The witness, within an asset's own tree, for one of its encodings.
pub open spec fn encoding_witness(a: AssetModel, e: EncodingModel) -> Tree {
    witness_of(encoding_entries(a), utf8(e.name), Tree::Leaf(certified_value(a, e)))
}

/// The witness that goes with an encoding served under its asset's key: the
/// tree of all assets shows the asset's key and, under it, the encoding; the
/// fallback's side is pruned.
pub open spec fn served_witness(m: StateModel, a: AssetModel, e: EncodingModel) -> Tree {
    Tree::Fork(
        Box::new(
            Tree::Labeled(
                assets_label(),
                Box::new(witness_of(asset_entries(m.assets), utf8(a.key), encoding_witness(a, e))),
            ),
        ),
        Box::new(Tree::Pruned(labeled_digest(fallback_label(), fallback_digest(m)))),
    )
}

/// The witness that goes with an encoding served from the fallback: the tree
/// of all assets shows that nothing is stored under the path, and the
/// fallback's side shows the encoding.
pub open spec fn fallback_witness(m: StateModel, path: Seq<u8>, a: AssetModel, e: EncodingModel) -> Tree {
    Tree::Fork(
        Box::new(
            Tree::Labeled(
                assets_label(),
                Box::new(witness_of(asset_entries(m.assets), path, Tree::Empty)),
            ),
        ),
        Box::new(Tree::Labeled(fallback_label(), Box::new(encoding_witness(a, e)))),
    )
}

/// The witness that goes with the answer that nothing is there: the tree of
/// all assets shows that nothing is stored under the path, and the
/// fallback's side shows that it is empty.
pub open spec fn missing_witness(m: StateModel, path: Seq<u8>) -> Tree {
    Tree::Fork(
        Box::new(
            Tree::Labeled(
                assets_label(),
                Box::new(witness_of(asset_entries(m.assets), path, Tree::Empty)),
            ),
        ),
        Box::new(Tree::Labeled(fallback_label(), Box::new(Tree::Empty))),
    )
}

/// The token for chunk `index` of an encoding.
pub open spec fn token_for(token: StreamingCallbackToken, a: AssetModel, e: EncodingModel, index: nat) -> bool {
    &&& token.key@ == a.key
    &&& token.content_encoding@ == e.name
    &&& token.index == index
    &&& token.sha256 matches Some(h)
    &&& h@ == e.sha256()
}

/// Whether `resp` is the response that `o` calls for.
pub open spec fn answers(
    resp: HttpResponse,
    m: StateModel,
    o: Outcome,
    certificate: Seq<u8>,
    callback: CallbackFunc,
) -> bool {
    &&& resp.certification.certificate@ == certificate
    &&& match o {
        Outcome::Serve { asset, encoding, fallback, path } => {
            &&& resp.status_code == 200
            &&& headers_view(resp.headers@) == response_headers(asset, encoding)
            &&& resp.body@ == encoding.chunks[0]
            &&& resp.certification.certified
            &&& resp.certification.exact == !fallback
            &&& resp.certification.witness@ == (if fallback {
                fallback_witness(m, path, asset, encoding)
            } else {
                served_witness(m, asset, encoding)
            })
            &&& if encoding.chunks.len() > 1 {
                &&& resp.streaming_strategy matches Some(
                    StreamingStrategy::Callback { callback: c, token },
                )
                &&& c.principal@ == callback.principal@
                &&& c.method@ == callback.method@
                &&& token_for(token, asset, encoding, 1)
            } else {
                resp.streaming_strategy is None
            }
        },
        Outcome::NotFound { path } => {
            &&& resp.status_code == 404
            &&& resp.headers@.len() == 0
            &&& resp.body@.len() == 0
            &&& resp.streaming_strategy is None
            &&& !resp.certification.certified
            &&& !resp.certification.exact
            &&& resp.certification.witness@ == missing_witness(m, path)
        },
        other => {
            &&& resp.status_code == (match other {
                Outcome::BadRequest => 400u16,
                Outcome::Forbidden => 403u16,
                _ => 406u16,
            })
            &&& resp.headers@.len() == 0
            &&& resp.body@.len() == 0
            &&& resp.streaming_strategy is None
            &&& !resp.certification.certified
            &&& !resp.certification.exact
            &&& resp.certification.witness@ == Tree::Pruned(state_root(m))
        },
    }
}

/// What a continuation call returns for a token that asks for chunk
/// `index` of the encoding `encoding` of the asset under `key`, and holds
/// `sha256`: the chunk and whether more chunks follow. `NotFound` where the
/// asset, the encoding or the chunk does not exist, or what the token holds
/// is no hash; `Stale` where it holds a hash that is not the encoding's.
pub open spec fn continued(
    m: StateModel,
    key: Seq<char>,
    encoding: Seq<char>,
    index: nat,
    sha256: Option<Seq<u8>>,
) -> Result<(EncodingModel, bool), Error> {
    match find_asset(m.assets, utf8(key)) {
        None => Err(Error::NotFound),
        Some(a) => match find_encoding(a.encodings, utf8(encoding)) {
            None => Err(Error::NotFound),
            Some(e) => match sha256 {
                None => Err(Error::NotFound),
                Some(h) => if h == e.sha256() {
                    if index >= e.chunks.len() {
                        Err(Error::NotFound)
                    } else {
                        Ok((e, index + 1 < e.chunks.len()))
                    }
                } else if h.len() != 32 {
                    Err(Error::NotFound)
                } else {
                    Err(Error::Stale)
                },
            },
        },
    }
}

/// The hash that a token holds, as a mathematical value.
pub open spec fn token_hash(token: StreamingCallbackToken) -> Option<Seq<u8>> {
    match token.sha256 {
        Some(h) => Some(h@),
        None => None,
    }
}

/// A response without headers, body or certified content.
fn plain_response(status_code: u16, certificate: &[u8], witness: Witness) -> (resp: HttpResponse)
    ensures
        resp.status_code == status_code,
        resp.headers@.len() == 0,
        resp.body@.len() == 0,
        resp.streaming_strategy is None,
        !resp.certification.certified,
        !resp.certification.exact,
        resp.certification.witness == witness,
        resp.certification.certificate@ == certificate@,
{
    HttpResponse {
        status_code,
        headers: Vec::new(),
        body: Vec::new(),
        streaming_strategy: None,
        certification: Certification {
            certificate: to_vec(certificate),
            witness,
            certified: false,
            exact: false,
        },
    }
}

/// What an asset was found as.
enum Found<'a> {
    Own(&'a Asset),
    Fallback(&'a Asset),
    Missing,
}

impl State {
    /// The asset under `key`, if it is there and may be served under an
    /// alias.
    fn alias_target(&self, key: &[u8]) -> (found: Option<&Asset>)
        requires
            self.wf(),
        ensures
            found is Some == alias_target(self@, key@) is Some,
            found matches Some(a) ==> a.wf() && alias_target(self@, key@) == Some(a@),
    {
        match self.lookup(key) {
            Some(a) => match a.is_aliased {
                Some(false) => None,
                _ => Some(a),
            },
            None => None,
        }
    }

    /// Resolves a path to an asset.
    fn resolve(&self, path: &[u8]) -> (found: Found<'_>)
        requires
            self.wf(),
        ensures
            match found {
                Found::Own(a) => a.wf() && (resolve(self@, path@) == Resolved::Exact(a@) || resolve(
                    self@,
                    path@,
                ) == Resolved::Alias(a@)),
                Found::Fallback(a) => a.wf() && resolve(self@, path@) == Resolved::Fallback(a@),
                Found::Missing => resolve(self@, path@) == Resolved::Missing,
            },
    {
        match self.lookup(path) {
            Some(a) => {
                return Found::Own(a);
            },
            None => {},
        }
        let index = index_alias_of(path);
        match self.alias_target(index.as_slice()) {
            Some(a) => {
                return Found::Own(a);
            },
            None => {},
        }
        let html = html_alias_of(path);
        match self.alias_target(html.as_slice()) {
            Some(a) => {
                return Found::Own(a);
            },
            None => {},
        }
        match self.fallback() {
            Some(a) => Found::Fallback(a),
            None => Found::Missing,
        }
    }

    /// The witness for the encoding at place `j` of `asset`, served under
    /// the asset's own key.
    fn served_witness(&self, asset: &Asset, j: usize) -> (w: Witness)
        requires
            self.wf(),
            asset.wf(),
            j < asset@.encodings.len(),
        ensures
            w@ == served_witness(self@, asset@, asset@.encodings[j as int]),
    {
        let inner = asset.witness(j);
        let shown = self.assets_witness(asset.key.as_str().as_bytes(), inner);
        let fallback = self.fallback_root();
        let label = fallback_label_bytes();
        let w = Witness::Fork(
            Box::new(Witness::Labeled(assets_label_bytes(), Box::new(shown))),
            Box::new(Witness::Pruned(labeled_hash(label.as_slice(), &fallback))),
        );
        assert(w@ == served_witness(self@, asset@, asset@.encodings[j as int])) by {
            reveal_with_fuel(crate::tree::tree_of, 3);
        }
        w
    }

    /// The witness that nothing is stored under `path`, next to what the
    /// fallback's side shows.
    fn unmatched_witness(&self, path: &[u8], fallback: Witness) -> (w: Witness)
        requires
            self.wf(),
        ensures
            w@ == Tree::Fork(
                Box::new(
                    Tree::Labeled(
                        assets_label(),
                        Box::new(witness_of(asset_entries(self@.assets), path@, Tree::Empty)),
                    ),
                ),
                Box::new(Tree::Labeled(fallback_label(), Box::new(fallback@))),
            ),
    {
        let shown = self.assets_witness(path, Witness::Empty);
        let w = Witness::Fork(
            Box::new(Witness::Labeled(assets_label_bytes(), Box::new(shown))),
            Box::new(Witness::Labeled(fallback_label_bytes(), Box::new(fallback))),
        );
        assert(w@ == Tree::Fork(
            Box::new(
                Tree::Labeled(
                    assets_label(),
                    Box::new(witness_of(asset_entries(self@.assets), path@, Tree::Empty)),
                ),
            ),
            Box::new(Tree::Labeled(fallback_label(), Box::new(fallback@))),
        )) by {
            reveal_with_fuel(crate::tree::tree_of, 3);
        }
        w
    }

    /// Answers a request. `certificate` is the host's certificate over the
    /// published root and is handed through; `callback` names the method
    /// that takes continuation tokens and goes into the response where the
    /// body does not fit.
    pub fn http_request(&self, req: &HttpRequest, certificate: &[u8], callback: CallbackFunc) -> (resp:
        HttpResponse)
        requires
            self.wf(),
        ensures
            answers(
                resp,
                self@,
                outcome(self@, utf8(req.url@), headers_view(req.headers@)),
                certificate@,
                callback,
            ),
    {
        let path = match decode_url_path(req.url.as_str().as_bytes()) {
            Some(p) => p,
            None => {
                return plain_response(400, certificate, Witness::Pruned(self.root_hash()));
            },
        };
        let (asset, fallback): (&Asset, bool) = match self.resolve(path.as_slice()) {
            Found::Own(a) => (a, false),
            Found::Fallback(a) => (a, true),
            Found::Missing => {
                let w = self.unmatched_witness(path.as_slice(), Witness::Empty);
                return plain_response(404, certificate, w);
            },
        };
        let host: [u8; 4] = [104u8, 111u8, 115u8, 116u8];
        assert(host@ =~= host_name());
        let raw = match find_header(&req.headers, host.as_slice()) {
            Some(i) => {
                let marker: [u8; 5] = [46u8, 114u8, 97u8, 119u8, 46u8];
                assert(marker@ =~= raw_marker());
                contains(req.headers[i].1.as_str().as_bytes(), marker.as_slice())
            },
            None => false,
        };
        let allowed = match asset.allow_raw_access {
            Some(true) => true,
            _ => false,
        };
        if raw && !allowed {
            return plain_response(403, certificate, Witness::Pruned(self.root_hash()));
        }
        let accept: [u8; 15] = [
            97u8, 99u8, 99u8, 101u8, 112u8, 116u8, 45u8, 101u8, 110u8, 99u8, 111u8, 100u8,
            105u8, 110u8, 103u8,
        ];
        assert(accept@ =~= accept_encoding_name());
        let mut wanted: Vec<Vec<u8>> = match find_header(&req.headers, accept.as_slice()) {
            Some(i) => read_list(req.headers[i].1.as_str().as_bytes()),
            None => {
                let none: Vec<Vec<u8>> = Vec::new();
                assert(names_view(none@) =~= Seq::<Seq<u8>>::empty());
                none
            },
        };
        let ghost listed = names_view(wanted@);
        wanted.push(to_vec("identity".as_bytes()));
        assert(names_view(wanted@) =~= wanted_encodings(headers_view(req.headers@))) by {
            assert(names_view(wanted@) =~= listed.push(utf8("identity"@)));
        }
        let j = match asset.first_stored(&wanted) {
            Some(j) => j,
            None => {
                return plain_response(406, certificate, Witness::Pruned(self.root_hash()));
            },
        };
        let encoding = asset.encodings.at(j);
        assert(encoding.wf());
        assert(encoding@ == asset@.encodings[j as int]);
        let witness = if fallback {
            let inner = asset.witness(j);
            self.unmatched_witness(path.as_slice(), inner)
        } else {
            self.served_witness(asset, j)
        };
        let streaming_strategy = if encoding.chunks.len() > 1 {
            Some(
                StreamingStrategy::Callback {
                    callback,
                    token: StreamingCallbackToken {
                        key: asset.key.clone(),
                        content_encoding: encoding.name.clone(),
                        index: 1,
                        sha256: Some(to_vec(encoding.sha256.as_slice())),
                    },
                },
            )
        } else {
            None
        };
        HttpResponse {
            status_code: 200,
            headers: asset.response_headers(encoding),
            body: to_vec(encoding.chunks[0].as_slice()),
            streaming_strategy,
            certification: Certification {
                certificate: to_vec(certificate),
                witness,
                certified: true,
                exact: !fallback,
            },
        }
    }

    /// Returns the chunk that `token` asks for, and the token for the next
    /// chunk unless this was the last. Fails with `Stale` where the encoding
    /// has changed since the token was made, and with `NotFound` where the
    /// token names nothing that exists or is not a token at all.
    pub fn http_request_streaming_callback(&self, token: &StreamingCallbackToken) -> (r: Result<
        StreamingCallbackHttpResponse,
        Error,
    >)
        requires
            self.wf(),
        ensures
            match continued(
                self@,
                token.key@,
                token.content_encoding@,
                token.index as nat,
                token_hash(*token),
            ) {
                Ok((e, more)) => {
                    &&& r matches Ok(resp)
                    &&& resp.body@ == e.chunks[token.index as int]
                    &&& resp.token is Some == more
                    &&& resp.token matches Some(next) ==> {
                        &&& next.key@ == token.key@
                        &&& next.content_encoding@ == token.content_encoding@
                        &&& next.index == token.index + 1
                        &&& token_hash(next) == token_hash(*token)
                    }
                },
                Err(e) => r == Err::<StreamingCallbackHttpResponse, Error>(e),
            },
    {
        let asset = match self.lookup(token.key.as_str().as_bytes()) {
            Some(a) => a,
            None => {
                return Err(Error::NotFound);
            },
        };
        let j = match asset.encoding_index(token.content_encoding.as_str().as_bytes()) {
            Some(j) => j,
            None => {
                return Err(Error::NotFound);
            },
        };
        let encoding = asset.encodings.at(j);
        assert(encoding.wf());
        assert(encoding@ == asset@.encodings[j as int]);
        let held = match &token.sha256 {
            Some(h) => h,
            None => {
                return Err(Error::NotFound);
            },
        };
        if !bytes_eq(held.as_slice(), encoding.sha256.as_slice()) {
            if held.len() != 32 {
                return Err(Error::NotFound);
            }
            return Err(Error::Stale);
        }
        let count = encoding.chunks.len();
        if token.index >= count as u64 {
            return Err(Error::NotFound);
        }
        let index = token.index as usize;
        let next = if index + 1 < count {
            Some(
                StreamingCallbackToken {
                    key: token.key.clone(),
                    content_encoding: token.content_encoding.clone(),
                    index: token.index + 1,
                    sha256: Some(to_vec(held.as_slice())),
                },
            )
        } else {
            None
        };
        Ok(StreamingCallbackHttpResponse { body: to_vec(encoding.chunks[index].as_slice()), token: next })
    }
}

/// Whether a response with this status carries the header field with
/// certificate and witness: one that serves an encoding does, and so does
/// the answer that nothing is there. Of the other answers the tree says
/// nothing.
pub open spec fn carries_certificate(status_code: u16) -> bool {
    status_code == 200 || status_code == 404
}

/// The header fields of a response as they are sent: the certified header
/// fields, and behind them, where the response carries it, the header field
/// with the host's certificate and the witness.
pub fn gateway_headers(resp: &HttpResponse) -> (headers: Vec<(String, String)>)
    ensures
        headers_view(headers@) == headers_view(resp.headers@) + (if carries_certificate(
            resp.status_code,
        ) {
            seq![
                (
                    "IC-Certificate"@,
                    crate::encoding::certificate_header_value(
                        resp.certification.certificate@,
                        resp.certification.witness@,
                    ),
                ),
            ]
        } else {
            Seq::<(Seq<char>, Seq<char>)>::empty()
        }),
{
    let mut headers = crate::snapshot::copy_headers(&resp.headers);
    let ghost own = headers_view(headers@);
    if resp.status_code == 200 || resp.status_code == 404 {
        let field = crate::encoding::certificate_header(
            resp.certification.certificate.as_slice(),
            &resp.certification.witness,
        );
        headers.push(field);
        assert(headers_view(headers@) =~= own + seq![(field.0@, field.1@)]);
    } else {
        assert(headers_view(headers@) =~= own + Seq::<(Seq<char>, Seq<char>)>::empty());
    }
    headers
}

} // verus!
