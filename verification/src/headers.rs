//! Request headers: finding one by name, reading a list of encodings, and
//! looking for a marker in a host name.

use crate::asset::{headers_view, names_view};
use crate::bytes::to_vec;
use crate::path::{find_byte, first_index, lemma_first_index};
use crate::text::utf8;
use vstd::prelude::*;

verus! {

/// An ASCII letter in lower case; any other byte as it is.
pub open spec fn lower(b: u8) -> u8 {
    if 65 <= b <= 90 {
        (b + 32) as u8
    } else {
        b
    }
}

/// Whether two names are the same but for the case of ASCII letters.
pub open spec fn same_name(a: Seq<u8>, b: Seq<u8>) -> bool {
    a.len() == b.len() && forall|i: int| 0 <= i < a.len() ==> lower(a[i]) == lower(b[i])
}

/// An ASCII letter in lower case; any other byte as it is.
fn to_lower(b: u8) -> (l: u8)
    ensures
        l == lower(b),
{
    if 65 <= b && b <= 90 {
        b + 32
    } else {
        b
    }
}

/// Whether two names are the same but for the case of ASCII letters.
pub fn names_match(a: &[u8], b: &[u8]) -> (same: bool)
    ensures
        same == same_name(a@, b@),
{
    if a.len() != b.len() {
        return false;
    }
    let mut i: usize = 0;
    while i < a.len()
        invariant
            a@.len() == b@.len(),
            i <= a@.len(),
            forall|j: int| 0 <= j < i ==> lower(a@[j]) == lower(b@[j]),
        decreases a@.len() - i,
    {
        if to_lower(a[i]) != to_lower(b[i]) {
            return false;
        }
        i += 1;
    }
    true
}

/// The place of the first header field named `name`, or the number of
/// fields where there is none.
pub open spec fn header_index(headers: Seq<(Seq<char>, Seq<char>)>, name: Seq<u8>) -> int
    decreases headers.len(),
{
    if headers.len() == 0 || same_name(utf8(headers[0].0), name) {
        0
    } else {
        1 + header_index(headers.drop_first(), name)
    }
}

/// The bytes of the value of the first header field named `name`.
pub open spec fn header_value(headers: Seq<(Seq<char>, Seq<char>)>, name: Seq<u8>) -> Option<
    Seq<u8>,
> {
    let i = header_index(headers, name);
    if 0 <= i < headers.len() {
        Some(utf8(headers[i].1))
    } else {
        None
    }
}

/// The place of the first header field named `name`, if there is one.
pub fn find_header(headers: &Vec<(String, String)>, name: &[u8]) -> (found: Option<usize>)
    ensures
        found is Some == header_value(headers_view(headers@), name@) is Some,
        found matches Some(i) ==> i < headers@.len() && header_value(
            headers_view(headers@),
            name@,
        ) == Some(utf8(headers@[i as int].1@)),
{
    let ghost all = headers_view(headers@);
    let mut i: usize = 0;
    assert(all.skip(0) =~= all);
    while i < headers.len()
        invariant
            i <= headers@.len(),
            all == headers_view(headers@),
            header_index(all, name@) == i + header_index(all.skip(i as int), name@),
        decreases headers@.len() - i,
    {
        let ghost rest = all.skip(i as int);
        assert(rest[0] == all[i as int]);
        assert(rest.drop_first() =~= all.skip(i + 1));
        if names_match(headers[i].0.as_str().as_bytes(), name) {
            return Some(i);
        }
        i += 1;
    }
    None
}

/// A byte string without the spaces and tabs at its start.
pub open spec fn skip_blank(s: Seq<u8>) -> Seq<u8>
    decreases s.len(),
{
    if s.len() > 0 && (s[0] == 32u8 || s[0] == 9u8) {
        skip_blank(s.drop_first())
    } else {
        s
    }
}

/// The length of the run of bytes at the start of `s` that are neither a
/// blank nor a semicolon.
pub open spec fn word_len(s: Seq<u8>) -> int
    decreases s.len(),
{
    if s.len() == 0 || s[0] == 32u8 || s[0] == 9u8 || s[0] == 59u8 {
        0
    } else {
        1 + word_len(s.drop_first())
    }
}

/// The name in one item of a list: the item without leading blanks, up to
/// the first blank or semicolon.
pub open spec fn item_name(item: Seq<u8>) -> Seq<u8> {
    skip_blank(item).take(word_len(skip_blank(item)))
}

/// The names in a list whose items are separated by commas.
pub open spec fn list_names(value: Seq<u8>) -> Seq<Seq<u8>>
    decreases value.len(),
{
    let c = first_index(value, 44u8);
    if c < 0 || c >= value.len() {
        seq![item_name(value)]
    } else {
        seq![item_name(value.take(c))] + list_names(value.skip(c + 1))
    }
}

/// The name in one item of a list.
fn read_item(item: &[u8]) -> (name: Vec<u8>)
    ensures
        name@ == item_name(item@),
{
    let mut start: usize = 0;
    assert(item@.skip(0) =~= item@);
    while start < item.len() && (item[start] == 32u8 || item[start] == 9u8)
        invariant
            start <= item@.len(),
            skip_blank(item@) == skip_blank(item@.skip(start as int)),
        decreases item@.len() - start,
    {
        assert(item@.skip(start as int).drop_first() =~= item@.skip(start + 1));
        start += 1;
    }
    let ghost rest = item@.skip(start as int);
    assert(skip_blank(item@) == rest) by {
        if rest.len() > 0 {
            assert(rest[0] == item@[start as int]);
        }
    }
    let mut end: usize = start;
    assert(rest.skip(0) =~= rest);
    while end < item.len() && item[end] != 32u8 && item[end] != 9u8 && item[end] != 59u8
        invariant
            start <= end <= item@.len(),
            rest == item@.skip(start as int),
            word_len(rest) == (end - start) + word_len(rest.skip(end - start)),
        decreases item@.len() - end,
    {
        let ghost tail = rest.skip(end - start);
        assert(tail[0] == item@[end as int]);
        assert(tail.drop_first() =~= rest.skip(end + 1 - start));
        end += 1;
    }
    proof {
        let tail = rest.skip(end - start);
        if tail.len() > 0 {
            assert(tail[0] == item@[end as int]);
        }
        assert(word_len(tail) == 0);
    }
    let name = to_vec(&item[start..end]);
    assert(name@ =~= rest.take(end - start));
    name
}

/// The names in a list whose items are separated by commas.
pub fn read_list(value: &[u8]) -> (names: Vec<Vec<u8>>)
    ensures
        names_view(names@) == list_names(value@),
{
    let mut names: Vec<Vec<u8>> = Vec::new();
    let mut pos: usize = 0;
    assert(value@.skip(0) =~= value@);
    loop
        invariant_except_break
            pos <= value@.len(),
            list_names(value@) == names_view(names@) + list_names(value@.skip(pos as int)),
        ensures
            names_view(names@) == list_names(value@),
        decreases value@.len() - pos,
    {
        let ghost rest = value@.skip(pos as int);
        let ghost before = names_view(names@);
        let tail = &value[pos..value.len()];
        assert(tail@ =~= rest);
        let c = find_byte(tail, 44u8);
        proof {
            lemma_first_index(rest, 44u8);
        }
        if c >= tail.len() {
            let name = read_item(tail);
            names.push(name);
            assert(names_view(names@) =~= before.push(name@));
            assert(before.push(name@) =~= before + seq![item_name(rest)]);
            break;
        }
        let item = &tail[0..c];
        assert(item@ =~= rest.take(c as int));
        let name = read_item(item);
        names.push(name);
        proof {
            assert(names_view(names@) =~= before.push(name@));
            assert(rest.skip(c + 1) =~= value@.skip(pos + c + 1));
            assert(before.push(name@) + list_names(value@.skip(pos + c + 1)) =~= before
                + list_names(rest));
        }
        pos = pos + c + 1;
    }
    names
}

/// Whether `pattern` occurs in `s` at place `at`.
pub open spec fn occurs_at(s: Seq<u8>, pattern: Seq<u8>, at: int) -> bool {
    0 <= at && at + pattern.len() <= s.len() && s.subrange(at, at + pattern.len()) == pattern
}

/// Whether `pattern` occurs somewhere in `s`.
pub open spec fn occurs_in(s: Seq<u8>, pattern: Seq<u8>) -> bool {
    exists|at: int| occurs_at(s, pattern, at)
}

/// Whether `pattern` occurs somewhere in `s`.
pub fn contains(s: &[u8], pattern: &[u8]) -> (yes: bool)
    ensures
        yes == occurs_in(s@, pattern@),
{
    if pattern.len() > s.len() {
        assert(!occurs_in(s@, pattern@)) by {
            assert forall|at: int| !occurs_at(s@, pattern@, at) by {}
        }
        return false;
    }
    let mut yes = false;
    let last: usize = s.len() - pattern.len();
    let mut at: usize = 0;
    loop
        invariant_except_break
            pattern@.len() <= s@.len() <= usize::MAX,
            last == s@.len() - pattern@.len(),
            at <= last,
            forall|k: int| 0 <= k < at ==> !occurs_at(s@, pattern@, k),
        ensures
            yes == occurs_in(s@, pattern@),
        decreases last - at,
    {
        let window = &s[at..at + pattern.len()];
        if crate::bytes::bytes_eq(window, pattern) {
            assert(occurs_at(s@, pattern@, at as int));
            yes = true;
            break;
        }
        if at == last {
            assert(!occurs_in(s@, pattern@)) by {
                assert forall|k: int| !occurs_at(s@, pattern@, k) by {}
            }
            yes = false;
            break;
        }
        at += 1;
    }
    yes
}

} // verus!
