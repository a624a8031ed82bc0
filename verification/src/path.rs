//! Paths: what a key is normalized to, what path a request URL names, and
//! under which other keys a path may be served.

use crate::bytes::{append, to_vec};
use crate::text::{lemma_utf8_injective, utf8};
use vstd::prelude::*;
use vstd::string::{StrSliceExecFns, StringExecFns};
use vstd::utf8::{
    decode_utf8, encode_utf8_valid_utf8, is_char_boundary_iff_not_is_continuation_byte,
    is_char_boundary_start_end_of_seq,
};

verus! {

/// The place of the first byte `b` in `bytes`, or the length where there is
/// none.
pub open spec fn first_index(bytes: Seq<u8>, b: u8) -> int
    decreases bytes.len(),
{
    if bytes.len() == 0 || bytes[0] == b {
        0
    } else {
        1 + first_index(bytes.drop_first(), b)
    }
}

/// What `first_index` returns: no byte before it is `b`, and the byte at
/// it, if any, is.
pub proof fn lemma_first_index(bytes: Seq<u8>, b: u8)
    ensures
        0 <= first_index(bytes, b) <= bytes.len(),
        forall|i: int| 0 <= i < first_index(bytes, b) ==> bytes[i] != b,
        first_index(bytes, b) < bytes.len() ==> bytes[first_index(bytes, b)] == b,
    decreases bytes.len(),
{
    if bytes.len() > 0 && bytes[0] != b {
        let rest = bytes.drop_first();
        lemma_first_index(rest, b);
        assert forall|i: int| 0 <= i < first_index(bytes, b) implies bytes[i] != b by {
            if i > 0 {
                assert(bytes[i] == rest[i - 1]);
            }
        }
    }
}

/// A place with the properties of `lemma_first_index` is the first index.
pub proof fn lemma_first_index_is(bytes: Seq<u8>, b: u8, at: int)
    requires
        0 <= at <= bytes.len(),
        forall|i: int| 0 <= i < at ==> bytes[i] != b,
        at < bytes.len() ==> bytes[at] == b,
    ensures
        first_index(bytes, b) == at,
    decreases bytes.len(),
{
    if bytes.len() > 0 && at > 0 {
        let rest = bytes.drop_first();
        assert(bytes[0] != b);
        assert forall|i: int| 0 <= i < at - 1 implies rest[i] != b by {
            assert(rest[i] == bytes[i + 1]);
        }
        lemma_first_index_is(rest, b, at - 1);
    }
}

/// The place of the first byte `b` in `bytes`, or the length where there is
/// none.
pub fn find_byte(bytes: &[u8], b: u8) -> (at: usize)
    ensures
        at == first_index(bytes@, b),
        at <= bytes@.len(),
{
    let mut i: usize = 0;
    while i < bytes.len() && bytes[i] != b
        invariant
            i <= bytes@.len(),
            forall|j: int| 0 <= j < i ==> bytes@[j] != b,
        decreases bytes@.len() - i,
    {
        i += 1;
    }
    proof {
        lemma_first_index_is(bytes@, b, i as int);
    }
    i
}

/// The bytes of a key without its query string: everything before the first
/// `?`.
pub open spec fn strip_query(bytes: Seq<u8>) -> Seq<u8> {
    bytes.take(first_index(bytes, 63u8))
}

/// The text of a key without its query string.
pub open spec fn key_stem(key: Seq<char>) -> Seq<char> {
    decode_utf8(strip_query(utf8(key)))
}

/// The key that a given key is stored under: the text before its query
/// string, with `/` before it unless it starts with one.
pub open spec fn normal_key(key: Seq<char>) -> Seq<char> {
    let stem = key_stem(key);
    if stem.len() > 0 && stem[0] == '/' {
        stem
    } else {
        seq!['/'] + stem
    }
}

/// The bytes of the text of a key without its query string are the bytes of
/// the key before the first `?`.
pub proof fn lemma_key_stem_bytes(key: Seq<char>)
    ensures
        utf8(key_stem(key)) == strip_query(utf8(key)),
{
    let bytes = utf8(key);
    let at = first_index(bytes, 63u8);
    lemma_first_index(bytes, 63u8);
    encode_utf8_valid_utf8(key);
    if at < bytes.len() {
        is_char_boundary_iff_not_is_continuation_byte(bytes, at);
    } else {
        is_char_boundary_start_end_of_seq(bytes);
    }
    vstd::utf8::valid_utf8_split(bytes, at);
    vstd::utf8::decode_utf8_encode_utf8(bytes.take(at));
}

/// Normalizes a key: drops the query string, and puts `/` before what is
/// left unless it starts with one.
pub fn normalize_key(key: &str) -> (normal: String)
    ensures
        normal@ == normal_key(key@),
{
    let bytes = key.as_bytes();
    let at = find_byte(bytes, 63u8);
    proof {
        lemma_first_index(bytes@, 63u8);
        encode_utf8_valid_utf8(key@);
        if at < bytes@.len() {
            is_char_boundary_iff_not_is_continuation_byte(bytes@, at as int);
        } else {
            is_char_boundary_start_end_of_seq(bytes@);
        }
        lemma_key_stem_bytes(key@);
    }
    let (head, _) = key.split_at(at);
    proof {
        assert(bytes@.subrange(0, at as int) =~= bytes@.take(at as int));
        lemma_utf8_injective(head@, key_stem(key@));
    }
    if !head.is_empty() && head.get_char(0) == '/' {
        String::from_str(head)
    } else {
        proof {
            reveal_strlit("/");
        }
        let normal = String::from_str("/").concat(head);
        assert(normal@ =~= seq!['/'] + head@);
        normal
    }
}

/// Whether `b` is a hexadecimal digit.
pub open spec fn is_hex(b: u8) -> bool {
    (48 <= b <= 57) || (65 <= b <= 70) || (97 <= b <= 102)
}

/// The value of the hexadecimal digit `b`.
pub open spec fn hex_value(b: u8) -> int {
    if 48 <= b <= 57 {
        b - 48
    } else if 65 <= b <= 70 {
        b - 55
    } else {
        b - 87
    }
}

/// The path that a URL names: the bytes before the query string or
/// fragment, with each `%` and the two hexadecimal digits behind it replaced
/// by the byte they write. `None` where a `%` is not followed by two
/// hexadecimal digits.
pub open spec fn url_path(url: Seq<u8>) -> Option<Seq<u8>>
    decreases url.len(),
{
    if url.len() == 0 || url[0] == 63u8 || url[0] == 35u8 {
        Some(Seq::empty())
    } else if url[0] == 37u8 {
        if url.len() >= 3 && is_hex(url[1]) && is_hex(url[2]) {
            match url_path(url.skip(3)) {
                Some(rest) => Some(
                    seq![(hex_value(url[1]) * 16 + hex_value(url[2])) as u8] + rest,
                ),
                None => None,
            }
        } else {
            None
        }
    } else {
        match url_path(url.skip(1)) {
            Some(rest) => Some(seq![url[0]] + rest),
            None => None,
        }
    }
}

/// `out` followed by what the rest of the URL decodes to.
pub open spec fn decoded_with(out: Seq<u8>, rest: Option<Seq<u8>>) -> Option<Seq<u8>> {
    match rest {
        Some(tail) => Some(out + tail),
        None => None,
    }
}

/// The value of a hexadecimal digit, or `None` for another byte.
fn hex_digit(b: u8) -> (v: Option<u8>)
    ensures
        v.is_some() == is_hex(b),
        v matches Some(x) ==> x == hex_value(b) && x < 16,
{
    if 48 <= b && b <= 57 {
        Some(b - 48)
    } else if 65 <= b && b <= 70 {
        Some(b - 55)
    } else if 97 <= b && b <= 102 {
        Some(b - 87)
    } else {
        None
    }
}

/// Decodes the path of a request URL.
pub fn decode_url_path(url: &[u8]) -> (path: Option<Vec<u8>>)
    ensures
        path.is_some() == url_path(url@).is_some(),
        path matches Some(p) ==> p@ == url_path(url@).unwrap(),
{
    let mut out: Vec<u8> = Vec::new();
    let mut i: usize = 0;
    assert(url@.skip(0) =~= url@);
    assert(decoded_with(out@, url_path(url@)) == url_path(url@)) by {
        if url_path(url@) is Some {
            assert(out@ + url_path(url@).unwrap() =~= url_path(url@).unwrap());
        }
    }
    while i < url.len()
        invariant
            i <= url@.len(),
            url_path(url@) == decoded_with(out@, url_path(url@.skip(i as int))),
        decreases url@.len() - i,
    {
        let ghost rest = url@.skip(i as int);
        let ghost before = out@;
        assert(rest[0] == url@[i as int]);
        let b = url[i];
        if b == 63u8 || b == 35u8 {
            assert(out@ + Seq::<u8>::empty() =~= out@);
            return Some(out);
        }
        if b == 37u8 {
            if url.len() - i < 3 {
                return None;
            }
            assert(rest[1] == url@[i + 1] && rest[2] == url@[i + 2]);
            assert(rest.skip(3) =~= url@.skip(i + 3));
            match (hex_digit(url[i + 1]), hex_digit(url[i + 2])) {
                (Some(high), Some(low)) => {
                    let byte: u8 = high * 16 + low;
                    out.push(byte);
                    proof {
                        let tail = url_path(url@.skip(i + 3));
                        if tail is Some {
                            assert(before.push(byte) + tail.unwrap() =~= before + (seq![byte]
                                + tail.unwrap()));
                        }
                    }
                    i += 3;
                },
                _ => {
                    return None;
                },
            }
        } else {
            assert(rest.skip(1) =~= url@.skip(i + 1));
            out.push(b);
            proof {
                let tail = url_path(url@.skip(i + 1));
                if tail is Some {
                    assert(before.push(b) + tail.unwrap() =~= before + (seq![b] + tail.unwrap()));
                }
            }
            i += 1;
        }
    }
    assert(url@.skip(i as int).len() == 0);
    assert(out@ + Seq::<u8>::empty() =~= out@);
    Some(out)
}

/// ASCII `/index.html`.
pub open spec fn index_suffix() -> Seq<u8> {
    seq![47u8, 105u8, 110u8, 100u8, 101u8, 120u8, 46u8, 104u8, 116u8, 109u8, 108u8]
}

/// ASCII `.html`.
pub open spec fn html_suffix() -> Seq<u8> {
    seq![46u8, 104u8, 116u8, 109u8, 108u8]
}

/// A path without one trailing `/`, if it has one.
pub open spec fn without_trailing_slash(path: Seq<u8>) -> Seq<u8> {
    if path.len() > 0 && path.last() == 47u8 {
        path.drop_last()
    } else {
        path
    }
}

/// The key of the index document of a path: the path, without a trailing
/// `/`, followed by `/index.html`.
pub open spec fn index_alias(path: Seq<u8>) -> Seq<u8> {
    without_trailing_slash(path) + index_suffix()
}

/// The key of the document that a path names without its suffix: the path
/// followed by `.html`.
pub open spec fn html_alias(path: Seq<u8>) -> Seq<u8> {
    path + html_suffix()
}

/// The key of the index document of `path`.
pub fn index_alias_of(path: &[u8]) -> (key: Vec<u8>)
    ensures
        key@ == index_alias(path@),
{
    let n = path.len();
    let mut key = if n > 0 && path[n - 1] == 47u8 {
        let head = to_vec(&path[0..n - 1]);
        assert(head@ =~= path@.drop_last());
        head
    } else {
        to_vec(path)
    };
    let suffix: [u8; 11] = [47u8, 105u8, 110u8, 100u8, 101u8, 120u8, 46u8, 104u8, 116u8, 109u8, 108u8];
    assert(suffix@ =~= index_suffix());
    append(&mut key, suffix.as_slice());
    key
}

/// The key of the document that `path` names without its suffix.
pub fn html_alias_of(path: &[u8]) -> (key: Vec<u8>)
    ensures
        key@ == html_alias(path@),
{
    let mut key = to_vec(path);
    let suffix: [u8; 5] = [46u8, 104u8, 116u8, 109u8, 108u8];
    assert(suffix@ =~= html_suffix());
    append(&mut key, suffix.as_slice());
    key
}

} // verus!
