//! How a witness travels: the tree written in CBOR, bytes written in
//! base64, and the header field that carries both the host's certificate
//! and the tree.

use crate::bytes::append;
use crate::tree::{Tree, Witness};
use vstd::prelude::*;
use vstd::string::{StrSliceExecFns, StringExecFns};

verus! {

/// The 64 characters of base64, in the order of their values.
pub open spec fn alphabet() -> Seq<char> {
    "ABCDEFGHIJKLMNOPQRSTUVWXYZabcdefghijklmnopqrstuvwxyz0123456789+/"@
}

/// The character of base64 with the value `v`.
pub open spec fn symbol(v: int) -> char {
    alphabet()[v]
}

/// Bytes in base64, with padding: three bytes make four characters; what
/// is left at the end, one byte or two, makes two or three characters and
/// is filled up with `=`.
pub open spec fn base64(bytes: Seq<u8>) -> Seq<char>
    decreases bytes.len(),
{
    if bytes.len() == 0 {
        Seq::empty()
    } else if bytes.len() == 1 {
        let a = bytes[0] as int;
        seq![symbol(a / 4), symbol((a % 4) * 16), '=', '=']
    } else if bytes.len() == 2 {
        let a = bytes[0] as int;
        let b = bytes[1] as int;
        seq![symbol(a / 4), symbol((a % 4) * 16 + b / 16), symbol((b % 16) * 4), '=']
    } else {
        let a = bytes[0] as int;
        let b = bytes[1] as int;
        let c = bytes[2] as int;
        seq![
            symbol(a / 4),
            symbol((a % 4) * 16 + b / 16),
            symbol((b % 16) * 4 + c / 64),
            symbol(c % 64),
        ] + base64(bytes.skip(3))
    }
}

/// Appends the character of base64 with the value `v`.
fn push_symbol(out: &mut String, v: u8)
    requires
        v < 64,
    ensures
        final(out)@ == old(out)@.push(symbol(v as int)),
{
    let table = "ABCDEFGHIJKLMNOPQRSTUVWXYZabcdefghijklmnopqrstuvwxyz0123456789+/";
    proof {
        reveal_strlit("ABCDEFGHIJKLMNOPQRSTUVWXYZabcdefghijklmnopqrstuvwxyz0123456789+/");
    }
    let one = table.substring_ascii(v as usize, v as usize + 1);
    out.append(one);
    assert(out@ =~= old(out)@.push(symbol(v as int)));
}

/// Appends `=`.
fn push_padding(out: &mut String)
    ensures
        final(out)@ == old(out)@.push('='),
{
    proof {
        reveal_strlit("=");
    }
    out.append("=");
    assert(out@ =~= old(out)@.push('='));
}

/// Appends `bytes` in base64 to `out`.
pub fn push_base64(out: &mut String, bytes: &[u8])
    ensures
        final(out)@ == old(out)@ + base64(bytes@),
{
    let n = bytes.len();
    let mut i: usize = 0;
    assert(bytes@.skip(0) =~= bytes@);
    while n - i >= 3
        invariant
            n == bytes@.len(),
            i <= n,
            old(out)@ + base64(bytes@) == out@ + base64(bytes@.skip(i as int)),
        decreases n - i,
    {
        let ghost rest = bytes@.skip(i as int);
        let ghost before = out@;
        let a = bytes[i];
        let b = bytes[i + 1];
        let c = bytes[i + 2];
        assert(rest[0] == a && rest[1] == b && rest[2] == c);
        assert(rest.skip(3) =~= bytes@.skip(i + 3));
        push_symbol(out, a / 4);
        push_symbol(out, (a % 4) * 16 + b / 16);
        push_symbol(out, (b % 16) * 4 + c / 64);
        push_symbol(out, c % 64);
        assert(out@ + base64(bytes@.skip(i + 3)) =~= before + base64(rest));
        i += 3;
    }
    let ghost rest = bytes@.skip(i as int);
    let ghost before = out@;
    if n - i == 1 {
        let a = bytes[i];
        assert(rest[0] == a);
        push_symbol(out, a / 4);
        push_symbol(out, (a % 4) * 16);
        push_padding(out);
        push_padding(out);
        assert(out@ =~= before + base64(rest));
    } else if n - i == 2 {
        let a = bytes[i];
        let b = bytes[i + 1];
        assert(rest[0] == a && rest[1] == b);
        push_symbol(out, a / 4);
        push_symbol(out, (a % 4) * 16 + b / 16);
        push_symbol(out, (b % 16) * 4);
        push_padding(out);
        assert(out@ =~= before + base64(rest));
    } else {
        assert(out@ =~= before + base64(rest));
    }
}

/// `bytes` in base64.
pub fn to_base64(bytes: &[u8]) -> (text: String)
    ensures
        text@ == base64(bytes@),
{
    let mut text = String::new();
    push_base64(&mut text, bytes);
    assert(text@ =~= base64(bytes@));
    text
}

/// The head of a CBOR item of major type `major` with the argument `n`:
/// the argument in the head's first byte where it is below 24, and
/// otherwise in the one, two, four or eight bytes behind it, highest byte
/// first.
pub open spec fn cbor_head(major: u8, n: nat) -> Seq<u8> {
    if n < 24 {
        seq![(major * 32 + n) as u8]
    } else if n < 0x100 {
        seq![(major * 32 + 24) as u8, n as u8]
    } else if n < 0x10000 {
        seq![(major * 32 + 25) as u8, (n / 0x100) as u8, (n % 0x100) as u8]
    } else if n < 0x100000000 {
        seq![
            (major * 32 + 26) as u8,
            (n / 0x1000000) as u8,
            (n / 0x10000 % 0x100) as u8,
            (n / 0x100 % 0x100) as u8,
            (n % 0x100) as u8,
        ]
    } else {
        seq![
            (major * 32 + 27) as u8,
            (n / 0x100000000000000 % 0x100) as u8,
            (n / 0x1000000000000 % 0x100) as u8,
            (n / 0x10000000000 % 0x100) as u8,
            (n / 0x100000000 % 0x100) as u8,
            (n / 0x1000000 % 0x100) as u8,
            (n / 0x10000 % 0x100) as u8,
            (n / 0x100 % 0x100) as u8,
            (n % 0x100) as u8,
        ]
    }
}

/// A byte string in CBOR.
pub open spec fn cbor_bytes(bytes: Seq<u8>) -> Seq<u8> {
    cbor_head(2, bytes.len()) + bytes
}

/// A tree in CBOR: an array that starts with the number of the kind of
/// node, 0 for an empty tree, 1 for a fork, 2 for a labeled tree, 3 for a
/// leaf and 4 for a pruned tree, and goes on with what the node holds.
pub open spec fn cbor_tree(t: Tree) -> Seq<u8>
    decreases t,
{
    match t {
        Tree::Empty => seq![0x81u8, 0u8],
        Tree::Fork(l, r) => seq![0x83u8, 1u8] + cbor_tree(*l) + cbor_tree(*r),
        Tree::Labeled(label, sub) => seq![0x83u8, 2u8] + cbor_bytes(label) + cbor_tree(*sub),
        Tree::Leaf(value) => seq![0x82u8, 3u8] + cbor_bytes(value),
        Tree::Pruned(hash) => seq![0x82u8, 4u8] + cbor_bytes(hash),
    }
}

/// A tree as a CBOR document: the tag that says that CBOR follows, and the
/// tree.
pub open spec fn cbor_document(t: Tree) -> Seq<u8> {
    seq![0xd9u8, 0xd9u8, 0xf7u8] + cbor_tree(t)
}

/// Appends the head of a byte string of length `n`.
fn push_bytes_head(out: &mut Vec<u8>, n: usize)
    ensures
        final(out)@ == old(out)@ + cbor_head(2, n as nat),
{
    let n = n as u64;
    if n < 24 {
        out.push(64 + n as u8);
    } else if n < 0x100 {
        out.push(88);
        out.push(n as u8);
    } else if n < 0x10000 {
        out.push(89);
        out.push((n / 0x100) as u8);
        out.push((n % 0x100) as u8);
    } else if n < 0x100000000 {
        out.push(90);
        out.push((n / 0x1000000) as u8);
        out.push((n / 0x10000 % 0x100) as u8);
        out.push((n / 0x100 % 0x100) as u8);
        out.push((n % 0x100) as u8);
    } else {
        out.push(91);
        out.push((n / 0x100000000000000 % 0x100) as u8);
        out.push((n / 0x1000000000000 % 0x100) as u8);
        out.push((n / 0x10000000000 % 0x100) as u8);
        out.push((n / 0x100000000 % 0x100) as u8);
        out.push((n / 0x1000000 % 0x100) as u8);
        out.push((n / 0x10000 % 0x100) as u8);
        out.push((n / 0x100 % 0x100) as u8);
        out.push((n % 0x100) as u8);
    }
    assert(out@ =~= old(out)@ + cbor_head(2, n as nat));
}

/// Appends a byte string in CBOR.
fn push_cbor_bytes(out: &mut Vec<u8>, bytes: &[u8])
    ensures
        final(out)@ == old(out)@ + cbor_bytes(bytes@),
{
    push_bytes_head(out, bytes.len());
    append(out, bytes);
    assert(out@ =~= old(out)@ + cbor_bytes(bytes@));
}

/// Appends a tree in CBOR.
fn push_cbor_tree(out: &mut Vec<u8>, w: &Witness)
    ensures
        final(out)@ == old(out)@ + cbor_tree(w@),
    decreases w,
{
    match w {
        Witness::Empty => {
            out.push(0x81);
            out.push(0);
            assert(out@ =~= old(out)@ + cbor_tree(w@));
        },
        Witness::Fork(l, r) => {
            out.push(0x83);
            out.push(1);
            push_cbor_tree(out, l);
            push_cbor_tree(out, r);
            assert(out@ =~= old(out)@ + cbor_tree(w@));
        },
        Witness::Labeled(label, sub) => {
            out.push(0x83);
            out.push(2);
            push_cbor_bytes(out, label.as_slice());
            push_cbor_tree(out, sub);
            assert(out@ =~= old(out)@ + cbor_tree(w@));
        },
        Witness::Leaf(value) => {
            out.push(0x82);
            out.push(3);
            push_cbor_bytes(out, value.as_slice());
            assert(out@ =~= old(out)@ + cbor_tree(w@));
        },
        Witness::Pruned(hash) => {
            out.push(0x82);
            out.push(4);
            push_cbor_bytes(out, hash.as_slice());
            assert(out@ =~= old(out)@ + cbor_tree(w@));
        },
    }
}

/// The witness as a CBOR document.
pub fn witness_to_cbor(w: &Witness) -> (bytes: Vec<u8>)
    ensures
        bytes@ == cbor_document(w@),
{
    let mut bytes: Vec<u8> = Vec::new();
    bytes.push(0xd9);
    bytes.push(0xd9);
    bytes.push(0xf7);
    push_cbor_tree(&mut bytes, w);
    assert(bytes@ =~= cbor_document(w@));
    bytes
}

/// The value of the header field that carries certificate and tree.
pub open spec fn certificate_header_value(certificate: Seq<u8>, t: Tree) -> Seq<char> {
    "certificate=:"@ + base64(certificate) + ":, tree=:"@ + base64(cbor_document(t)) + ":"@
}

/// The header field that carries the host's certificate and the witness:
/// its name is `IC-Certificate`, and its value holds both in base64.
pub fn certificate_header(certificate: &[u8], w: &Witness) -> (field: (String, String))
    ensures
        field.0@ == "IC-Certificate"@,
        field.1@ == certificate_header_value(certificate@, w@),
{
    let mut value = String::from_str("certificate=:");
    push_base64(&mut value, certificate);
    value.append(":, tree=:");
    let tree = witness_to_cbor(w);
    push_base64(&mut value, tree.as_slice());
    value.append(":");
    (String::from_str("IC-Certificate"), value)
}

} // verus!
