//! SHA-256 and the domain-separated node digests of the hash tree: each is
//! SHA-256 over the node's tag, with the tag's length before it, and the
//! node's payload.

use sha2::Digest;
use vstd::prelude::*;

verus! {

/// A SHA-256 digest.
pub type Hash256 = [u8; 32];

/// The SHA-256 digest of `data`, as a mathematical function of the input bytes.
pub uninterp spec fn sha256_of(data: Seq<u8>) -> Seq<u8>;

/// The bytes the hash tree digests for a node: the length of the node's
/// domain tag as one byte, the tag itself, then the node's payload.
pub open spec fn tagged(tag: Seq<u8>, payload: Seq<u8>) -> Seq<u8> {
    seq![tag.len() as u8] + tag + payload
}

/// ASCII `ic-hashtree-empty`.
pub open spec fn empty_tag() -> Seq<u8> {
    seq![
        105u8, 99u8, 45u8, 104u8, 97u8, 115u8, 104u8, 116u8, 114u8, 101u8, 101u8, 45u8,
        101u8, 109u8, 112u8, 116u8, 121u8,
    ]
}

/// ASCII `ic-hashtree-fork`.
pub open spec fn fork_tag() -> Seq<u8> {
    seq![
        105u8, 99u8, 45u8, 104u8, 97u8, 115u8, 104u8, 116u8, 114u8, 101u8, 101u8, 45u8,
        102u8, 111u8, 114u8, 107u8,
    ]
}

/// ASCII `ic-hashtree-labeled`.
pub open spec fn labeled_tag() -> Seq<u8> {
    seq![
        105u8, 99u8, 45u8, 104u8, 97u8, 115u8, 104u8, 116u8, 114u8, 101u8, 101u8, 45u8,
        108u8, 97u8, 98u8, 101u8, 108u8, 101u8, 100u8,
    ]
}

/// ASCII `ic-hashtree-leaf`.
pub open spec fn leaf_tag() -> Seq<u8> {
    seq![
        105u8, 99u8, 45u8, 104u8, 97u8, 115u8, 104u8, 116u8, 114u8, 101u8, 101u8, 45u8,
        108u8, 101u8, 97u8, 102u8,
    ]
}

/// Digest of the empty tree.
pub open spec fn empty_digest() -> Seq<u8> {
    sha256_of(tagged(empty_tag(), Seq::empty()))
}

/// Digest of a leaf that carries `data`.
pub open spec fn leaf_digest(data: Seq<u8>) -> Seq<u8> {
    sha256_of(tagged(leaf_tag(), data))
}

/// Digest of a fork over two subtrees with the given digests.
pub open spec fn fork_digest(left: Seq<u8>, right: Seq<u8>) -> Seq<u8> {
    sha256_of(tagged(fork_tag(), left + right))
}

/// Digest of a subtree with digest `content` under the label `label`.
pub open spec fn labeled_digest(label: Seq<u8>, content: Seq<u8>) -> Seq<u8> {
    sha256_of(tagged(labeled_tag(), label + content))
}

/// Calls `sha2::Sha256::digest`. Trusted: the result is the SHA-256 digest of
/// exactly the bytes passed in.
#[verifier::external_body]
pub(crate) fn sha256(data: &[u8]) -> (digest: Hash256)
    ensures
        digest@ == sha256_of(data@),
{
    sha2::Sha256::digest(data).into()
}

/// SHA-256 over a node's tag, with its length before it, and the two parts
/// of the node's payload.
fn tagged_hash(tag: &[u8], first: &[u8], second: &[u8]) -> (digest: Hash256)
    requires
        tag@.len() < 256,
    ensures
        digest@ == sha256_of(tagged(tag@, first@ + second@)),
{
    let mut buffer: Vec<u8> = Vec::new();
    buffer.push(tag.len() as u8);
    crate::bytes::append(&mut buffer, tag);
    crate::bytes::append(&mut buffer, first);
    crate::bytes::append(&mut buffer, second);
    assert(buffer@ =~= tagged(tag@, first@ + second@));
    sha256(buffer.as_slice())
}

/// Digest of the empty tree.
pub(crate) fn empty_hash() -> (digest: Hash256)
    ensures
        digest@ == empty_digest(),
{
    let tag: [u8; 17] = [
        105u8, 99u8, 45u8, 104u8, 97u8, 115u8, 104u8, 116u8, 114u8, 101u8, 101u8, 45u8,
        101u8, 109u8, 112u8, 116u8, 121u8,
    ];
    let none: [u8; 0] = [];
    assert(tag@ =~= empty_tag());
    assert(none@ + none@ =~= Seq::<u8>::empty());
    tagged_hash(tag.as_slice(), none.as_slice(), none.as_slice())
}

/// Digest of a leaf that carries `data`.
pub(crate) fn leaf_hash(data: &[u8]) -> (digest: Hash256)
    ensures
        digest@ == leaf_digest(data@),
{
    let tag: [u8; 16] = [
        105u8, 99u8, 45u8, 104u8, 97u8, 115u8, 104u8, 116u8, 114u8, 101u8, 101u8, 45u8,
        108u8, 101u8, 97u8, 102u8,
    ];
    let none: [u8; 0] = [];
    assert(tag@ =~= leaf_tag());
    assert(data@ + none@ =~= data@);
    tagged_hash(tag.as_slice(), data, none.as_slice())
}

/// Digest of a fork over two subtrees with the given digests.
pub(crate) fn fork_hash(left: &Hash256, right: &Hash256) -> (digest: Hash256)
    ensures
        digest@ == fork_digest(left@, right@),
{
    let tag: [u8; 16] = [
        105u8, 99u8, 45u8, 104u8, 97u8, 115u8, 104u8, 116u8, 114u8, 101u8, 101u8, 45u8,
        102u8, 111u8, 114u8, 107u8,
    ];
    assert(tag@ =~= fork_tag());
    tagged_hash(tag.as_slice(), left.as_slice(), right.as_slice())
}

/// Digest of a subtree with digest `content` under the label `label`.
pub(crate) fn labeled_hash(label: &[u8], content: &Hash256) -> (digest: Hash256)
    ensures
        digest@ == labeled_digest(label@, content@),
{
    let tag: [u8; 19] = [
        105u8, 99u8, 45u8, 104u8, 97u8, 115u8, 104u8, 116u8, 114u8, 101u8, 101u8, 45u8,
        108u8, 97u8, 98u8, 101u8, 108u8, 101u8, 100u8,
    ];
    assert(tag@ =~= labeled_tag());
    tagged_hash(tag.as_slice(), label, content.as_slice())
}

} // verus!
