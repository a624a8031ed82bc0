//! What holds of the store as a whole, proved from the contracts of its
//! parts.

use crate::asset::{
    asset_digest, asset_entries, asset_labels, certified_value, encoding_entries,
    encoding_labels, find_asset, find_encoding, first_stored, put_asset, put_encoding,
    remove_asset, AssetModel, EncodingModel,
};
use crate::bytes::{lemma_lex_asymmetric, lemma_lex_first_difference, lex_lt};
use crate::certification::{entry_labels, lemma_witness, witness_of};
use crate::chunks::flat;
use crate::http::{
    continued, encoding_witness, fallback_witness, missing_witness, outcome, served_witness,
    wanted_encodings, Outcome,
};
use crate::path::{html_alias, index_alias};
use crate::ordered::{
    has_label, lemma_lower_bound, lemma_put_labels, lemma_take_labels, lower_bound, sorted,
    with_label, without_label,
};
use crate::path::normal_key;
use crate::permissions::{Permission, PermissionsModel};
use crate::snapshot::{asset_fits, encoding_fits, valid_asset, valid_state, StableState};
use crate::state::{
    assets_label, deleted, fallback_asset, fallback_label, got, listed, state_root, stored,
    stored_asset, stored_encoding, State, StateModel,
};
use crate::text::utf8;
use crate::tree::{digest_of, lookup_label, lookup_path, LabelLookup, PathLookup, Tree};
use vstd::prelude::*;

verus! {

/// Following a path starts with looking for its first label.
pub proof fn lemma_path_step(t: Tree, first: Seq<u8>, rest: Seq<Seq<u8>>)
    ensures
        lookup_path(t, seq![first] + rest) == (match lookup_label(t, first) {
            LabelLookup::Found(sub) => lookup_path(sub, rest),
            LabelLookup::Unknown => PathLookup::Unknown,
            _ => PathLookup::Absent,
        }),
{
    let path = seq![first] + rest;
    assert(path[0] == first);
    assert(path.drop_first() =~= rest);
}

/// The two labels at the top of the tree are different, and the label of
/// the assets comes first.
pub proof fn lemma_top_labels()
    ensures
        lex_lt(assets_label(), fallback_label()),
        !lex_lt(fallback_label(), assets_label()),
        assets_label() != fallback_label(),
{
    lemma_lex_first_difference(assets_label(), fallback_label(), 5);
    lemma_lex_asymmetric(assets_label(), fallback_label());
}

/// The witness for an encoding within its asset's own tree has the digest
/// of that tree, and a lookup of the encoding's name in it finds a leaf with
/// the certified value.
pub proof fn lemma_encoding_witness(a: AssetModel, e: EncodingModel)
    requires
        valid_asset(a),
        find_encoding(a.encodings, utf8(e.name)) == Some(e),
    ensures
        digest_of(encoding_witness(a, e)) == asset_digest(a),
        lookup_label(encoding_witness(a, e), utf8(e.name)) == LabelLookup::Found(
            Tree::Leaf(certified_value(a, e)),
        ),
{
    let entries = encoding_entries(a);
    assert(entry_labels(entries) =~= encoding_labels(a.encodings));
    lemma_lower_bound(encoding_labels(a.encodings), utf8(e.name));
    lemma_witness(entries, utf8(e.name), Tree::Leaf(certified_value(a, e)));
}

/// The witness that goes with an encoding served under its asset's key
/// verifies against the root: its digest is the root of the state, and
/// following the asset's key and the encoding's name in it ends at the
/// value certified for the encoding.
pub proof fn law_served_witness_verifies(m: StateModel, a: AssetModel, e: EncodingModel)
    requires
        valid_state(m),
        find_asset(m.assets, utf8(a.key)) == Some(a),
        find_encoding(a.encodings, utf8(e.name)) == Some(e),
    ensures
        digest_of(served_witness(m, a, e)) == state_root(m),
        lookup_path(served_witness(m, a, e), seq![assets_label(), utf8(a.key), utf8(e.name)])
            == PathLookup::Found(certified_value(a, e)),
{
    let entries = asset_entries(m.assets);
    let labels = asset_labels(m.assets);
    assert(entry_labels(entries) =~= labels);
    lemma_lower_bound(labels, utf8(a.key));
    let p = lower_bound(labels, utf8(a.key));
    assert(valid_asset(m.assets[p]));
    lemma_encoding_witness(a, e);
    let inner = encoding_witness(a, e);
    lemma_witness(entries, utf8(a.key), inner);
    let shown = witness_of(entries, utf8(a.key), inner);
    let w = served_witness(m, a, e);
    assert(digest_of(w) == state_root(m)) by {
        reveal_with_fuel(digest_of, 3);
    }
    let tail = seq![utf8(a.key), utf8(e.name)];
    assert(seq![assets_label(), utf8(a.key), utf8(e.name)] =~= seq![assets_label()] + tail);
    lemma_path_step(w, assets_label(), tail);
    assert(lookup_label(w, assets_label()) == LabelLookup::Found(shown)) by {
        reveal_with_fuel(lookup_label, 3);
    }
    assert(tail =~= seq![utf8(a.key)] + seq![utf8(e.name)]);
    lemma_path_step(shown, utf8(a.key), seq![utf8(e.name)]);
    assert(seq![utf8(e.name)] =~= seq![utf8(e.name)] + Seq::<Seq<u8>>::empty());
    lemma_path_step(inner, utf8(e.name), Seq::<Seq<u8>>::empty());
}

/// The witness that goes with an encoding served from the fallback verifies
/// against the root: its digest is the root of the state, following the
/// fallback label and the encoding's name in it ends at the value certified
/// for the encoding, and it shows that nothing is stored under the path.
pub proof fn law_fallback_witness_verifies(
    m: StateModel,
    path: Seq<u8>,
    a: AssetModel,
    e: EncodingModel,
    below: Seq<Seq<u8>>,
)
    requires
        valid_state(m),
        find_asset(m.assets, path) is None,
        fallback_asset(m) == Some(a),
        find_encoding(a.encodings, utf8(e.name)) == Some(e),
    ensures
        digest_of(fallback_witness(m, path, a, e)) == state_root(m),
        lookup_path(fallback_witness(m, path, a, e), seq![fallback_label(), utf8(e.name)])
            == PathLookup::Found(certified_value(a, e)),
        lookup_path(fallback_witness(m, path, a, e), seq![assets_label(), path] + below)
            == PathLookup::Absent,
{
    let entries = asset_entries(m.assets);
    let labels = asset_labels(m.assets);
    assert(entry_labels(entries) =~= labels);
    let key = utf8(m.fallback.unwrap());
    lemma_lower_bound(labels, key);
    assert(valid_asset(m.assets[lower_bound(labels, key)]));
    lemma_encoding_witness(a, e);
    let inner = encoding_witness(a, e);
    lemma_witness(entries, path, Tree::Empty);
    let shown = witness_of(entries, path, Tree::Empty);
    let w = fallback_witness(m, path, a, e);
    lemma_top_labels();
    assert(digest_of(w) == state_root(m)) by {
        reveal_with_fuel(digest_of, 3);
    }
    assert(seq![fallback_label(), utf8(e.name)] =~= seq![fallback_label()] + seq![utf8(e.name)]);
    lemma_path_step(w, fallback_label(), seq![utf8(e.name)]);
    assert(lookup_label(w, fallback_label()) == LabelLookup::Found(inner)) by {
        reveal_with_fuel(lookup_label, 3);
    }
    assert(seq![utf8(e.name)] =~= seq![utf8(e.name)] + Seq::<Seq<u8>>::empty());
    lemma_path_step(inner, utf8(e.name), Seq::<Seq<u8>>::empty());
    assert(seq![assets_label(), path] + below =~= seq![assets_label()] + (seq![path] + below));
    lemma_path_step(w, assets_label(), seq![path] + below);
    assert(lookup_label(w, assets_label()) == LabelLookup::Found(shown)) by {
        reveal_with_fuel(lookup_label, 3);
    }
    lemma_path_step(shown, path, below);
}

/// The witness that goes with the answer that nothing is there verifies
/// against the root and proves absence: its digest is the root of the
/// state, and following the path in it, however the path goes on, ends at
/// nothing.
pub proof fn law_missing_witness_proves_absence(m: StateModel, path: Seq<u8>, below: Seq<Seq<u8>>)
    requires
        valid_state(m),
        find_asset(m.assets, path) is None,
        fallback_asset(m) is None,
    ensures
        digest_of(missing_witness(m, path)) == state_root(m),
        lookup_path(missing_witness(m, path), seq![assets_label(), path] + below)
            == PathLookup::Absent,
{
    let entries = asset_entries(m.assets);
    assert(entry_labels(entries) =~= asset_labels(m.assets));
    lemma_witness(entries, path, Tree::Empty);
    let shown = witness_of(entries, path, Tree::Empty);
    let w = missing_witness(m, path);
    assert(digest_of(w) == state_root(m)) by {
        reveal_with_fuel(digest_of, 3);
    }
    assert(seq![assets_label(), path] + below =~= seq![assets_label()] + (seq![path] + below));
    lemma_path_step(w, assets_label(), seq![path] + below);
    assert(lookup_label(w, assets_label()) == LabelLookup::Found(shown)) by {
        reveal_with_fuel(lookup_label, 3);
    }
    lemma_path_step(shown, path, below);
}

/// After a key has been deleted nothing is stored under it: a get of the
/// key finds nothing, whatever encodings the caller takes, and the witness
/// that goes with the answer to a request for the key proves, against the
/// root of the state after the deletion, that nothing is under the key. This
/// holds of the witness that says that nothing is there, where no fallback
/// asset is left, and of the witness that goes with an encoding of the
/// fallback asset, where one is.
pub proof fn law_deleted_key_is_absent(
    m: StateModel,
    key: Seq<char>,
    accept: Seq<Seq<char>>,
    below: Seq<Seq<u8>>,
    e: EncodingModel,
)
    requires
        valid_state(m),
    ensures
        find_asset(deleted(m, key).assets, utf8(normal_key(key))) is None,
        got(deleted(m, key), key, accept) is None,
        valid_state(deleted(m, key)),
        fallback_asset(deleted(m, key)) is None ==> {
            &&& digest_of(missing_witness(deleted(m, key), utf8(normal_key(key)))) == state_root(
                deleted(m, key),
            )
            &&& lookup_path(
                missing_witness(deleted(m, key), utf8(normal_key(key))),
                seq![assets_label(), utf8(normal_key(key))] + below,
            ) == PathLookup::Absent
        },
        fallback_asset(deleted(m, key)) matches Some(a) ==> (find_encoding(
            a.encodings,
            utf8(e.name),
        ) == Some(e) ==> {
            &&& digest_of(fallback_witness(deleted(m, key), utf8(normal_key(key)), a, e))
                == state_root(deleted(m, key))
            &&& lookup_path(
                fallback_witness(deleted(m, key), utf8(normal_key(key)), a, e),
                seq![assets_label(), utf8(normal_key(key))] + below,
            ) == PathLookup::Absent
        }),
{
    let labels = asset_labels(m.assets);
    let target = utf8(normal_key(key));
    let p = lower_bound(labels, target);
    let after = deleted(m, key);
    lemma_lower_bound(labels, target);
    if has_label(labels, target) {
        crate::ordered::lemma_remove_sorted(labels, p);
        assert(asset_labels(after.assets) =~= labels.remove(p));
        assert forall|i: int| 0 <= i < after.assets.len() implies valid_asset(
            #[trigger] after.assets[i],
        ) by {
            if i < p {
                assert(after.assets[i] == m.assets[i]);
            } else {
                assert(after.assets[i] == m.assets[i + 1]);
            }
        }
    }
    match fallback_asset(after) {
        None => {
            law_missing_witness_proves_absence(after, target, below);
        },
        Some(a) => {
            if find_encoding(a.encodings, utf8(e.name)) == Some(e) {
                law_fallback_witness_verifies(after, target, a, e, below);
            }
        },
    }
}

/// A state that went through a snapshot is the state it was: where the
/// snapshot holds what the state before held, and the state after holds
/// what the snapshot holds, both states have the same root, and every get
/// and every listing gives the same in both.
pub proof fn law_snapshot_round_trip(
    before: State,
    snapshot: StableState,
    after: State,
    key: Seq<char>,
    accept: Seq<Seq<char>>,
    start: int,
    end: int,
)
    requires
        before.wf(),
        after.wf(),
        snapshot@ == before@,
        after@ == snapshot@,
    ensures
        after.published_root() == before.published_root(),
        got(after@, key, accept) == got(before@, key, accept),
        listed(after@.assets, start, end) == listed(before@.assets, start, end),
{
    before.lemma_wf();
    after.lemma_wf();
}

/// The root that a state holds is the root computed from its assets alone,
/// whatever calls brought the state about.
pub proof fn law_root_is_fresh(s: State)
    requires
        s.wf(),
    ensures
        s.published_root() == state_root(s@),
{
    s.lemma_wf();
}

/// The chunks that a run of continuation calls returns, from chunk `from`
/// on, joined in order: each call returns one chunk and says whether to go
/// on.
pub open spec fn streamed(m: StateModel, key: Seq<char>, encoding: Seq<char>, sha256: Seq<u8>, from: nat, fuel: nat) -> Seq<u8>
    decreases fuel,
{
    if fuel == 0 {
        Seq::empty()
    } else {
        match continued(m, key, encoding, from, Some(sha256)) {
            Ok((e, more)) => if more {
                e.chunks[from as int] + streamed(
                    m,
                    key,
                    encoding,
                    sha256,
                    from + 1,
                    (fuel - 1) as nat,
                )
            } else {
                e.chunks[from as int]
            },
            Err(_) => Seq::empty(),
        }
    }
}

/// Chunks joined from place `from` on.
pub open spec fn flat_from(chunks: Seq<Seq<u8>>, from: int) -> Seq<u8> {
    flat(chunks.skip(from))
}

/// Following the continuation tokens of an encoding to the end gives the
/// rest of its body: the chunks from the token's chunk on, joined.
pub proof fn lemma_streamed_rest(m: StateModel, a: AssetModel, e: EncodingModel, from: nat)
    requires
        find_asset(m.assets, utf8(a.key)) == Some(a),
        find_encoding(a.encodings, utf8(e.name)) == Some(e),
        from < e.chunks.len(),
    ensures
        streamed(m, a.key, e.name, e.sha256(), from, (e.chunks.len() - from) as nat) == flat_from(
            e.chunks,
            from as int,
        ),
    decreases e.chunks.len() - from,
{
    let rest = e.chunks.skip(from as int);
    assert(rest[0] == e.chunks[from as int]);
    assert(rest.drop_first() =~= e.chunks.skip(from as int + 1));
    if from + 1 < e.chunks.len() {
        lemma_streamed_rest(m, a, e, from + 1);
    } else {
        assert(flat(rest.drop_first()) =~= Seq::<u8>::empty());
        assert(flat(rest) =~= e.chunks[from as int]);
    }
}

/// Streaming reconstructs the content: the body of the first response,
/// which is the first chunk, followed by what the continuation calls return
/// from the second chunk on, is byte for byte the content that a get of the
/// encoding returns.
pub proof fn law_streaming_reconstructs_content(m: StateModel, a: AssetModel, e: EncodingModel)
    requires
        find_asset(m.assets, utf8(a.key)) == Some(a),
        find_encoding(a.encodings, utf8(e.name)) == Some(e),
        e.chunks.len() >= 1,
    ensures
        e.chunks[0] + (if e.chunks.len() > 1 {
            streamed(m, a.key, e.name, e.sha256(), 1, (e.chunks.len() - 1) as nat)
        } else {
            Seq::<u8>::empty()
        }) == e.content(),
{
    assert(e.chunks.drop_first() =~= e.chunks.skip(1));
    if e.chunks.len() > 1 {
        lemma_streamed_rest(m, a, e, 1);
    } else {
        assert(flat(e.chunks.drop_first()) =~= Seq::<u8>::empty());
        assert(e.chunks[0] + Seq::<u8>::empty() =~= e.chunks[0]);
    }
}

/// Where nobody holds the commit permission, no principal passes the check
/// that guards store and delete; and revoking the only holder leaves nobody.
pub proof fn law_no_committer_left(permissions: PermissionsModel, last: Seq<u8>, anyone: Seq<u8>)
    requires
        permissions.wf(),
        permissions.commit == seq![last],
    ensures
        permissions.revoke(last, Permission::Commit).commit == Seq::<Seq<u8>>::empty(),
        !permissions.revoke(last, Permission::Commit).holds(anyone, Permission::Commit),
        permissions.revoke(last, Permission::Commit).grant(anyone, Permission::Commit).holds(
            anyone,
            Permission::Commit,
        ),
{
    crate::ordered::lemma_lower_bound_of_member(permissions.commit, 0);
    let after = permissions.revoke(last, Permission::Commit);
    assert(after.commit =~= Seq::<Seq<u8>>::empty());
    crate::permissions::lemma_grant_holds(after.commit, anyone);
}

/// After an asset has been put it is found under its key, and under any
/// other key is found what was found before.
pub proof fn lemma_find_after_put(assets: Seq<AssetModel>, a: AssetModel, other: Seq<u8>)
    requires
        sorted(asset_labels(assets)),
    ensures
        sorted(asset_labels(put_asset(assets, a))),
        find_asset(put_asset(assets, a), utf8(a.key)) == Some(a),
        other != utf8(a.key) ==> find_asset(put_asset(assets, a), other) == find_asset(
            assets,
            other,
        ),
{
    let labels = asset_labels(assets);
    let after = put_asset(assets, a);
    lemma_lower_bound(labels, utf8(a.key));
    lemma_lower_bound(labels, other);
    assert(asset_labels(after) =~= with_label(labels, utf8(a.key)));
    lemma_put_labels(labels, utf8(a.key), other);
    lemma_lower_bound(asset_labels(after), other);
}

/// After an asset has been removed nothing is found under its key, and
/// under any other key is found what was found before.
pub proof fn lemma_find_after_remove(assets: Seq<AssetModel>, key: Seq<u8>, other: Seq<u8>)
    requires
        sorted(asset_labels(assets)),
    ensures
        sorted(asset_labels(remove_asset(assets, key))),
        find_asset(remove_asset(assets, key), key) is None,
        other != key ==> find_asset(remove_asset(assets, key), other) == find_asset(assets, other),
{
    let labels = asset_labels(assets);
    let after = remove_asset(assets, key);
    lemma_lower_bound(labels, key);
    lemma_lower_bound(labels, other);
    assert(asset_labels(after) =~= without_label(labels, key));
    lemma_take_labels(labels, key, other);
    lemma_lower_bound(asset_labels(after), other);
}

/// After an encoding has been put it is found under its name, and under
/// any other name is found what was found before.
pub proof fn lemma_find_encoding_after_put(
    encodings: Seq<EncodingModel>,
    e: EncodingModel,
    other: Seq<u8>,
)
    requires
        sorted(encoding_labels(encodings)),
    ensures
        sorted(encoding_labels(put_encoding(encodings, e))),
        put_encoding(encodings, e).len() >= 1,
        find_encoding(put_encoding(encodings, e), utf8(e.name)) == Some(e),
        other != utf8(e.name) ==> find_encoding(put_encoding(encodings, e), other)
            == find_encoding(encodings, other),
        forall|j: int|
            0 <= j < put_encoding(encodings, e).len() ==> (#[trigger] put_encoding(
                encodings,
                e,
            )[j] == e || encodings.contains(put_encoding(encodings, e)[j])),
{
    let labels = encoding_labels(encodings);
    let after = put_encoding(encodings, e);
    let p = lower_bound(labels, utf8(e.name));
    lemma_lower_bound(labels, utf8(e.name));
    lemma_lower_bound(labels, other);
    assert(encoding_labels(after) =~= with_label(labels, utf8(e.name)));
    lemma_put_labels(labels, utf8(e.name), other);
    lemma_lower_bound(encoding_labels(after), other);
    assert forall|j: int| 0 <= j < after.len() implies (#[trigger] after[j] == e
        || encodings.contains(after[j])) by {
        if has_label(labels, utf8(e.name)) {
            if j != p {
                assert(after[j] == encodings[j]);
            }
        } else {
            if j < p {
                assert(after[j] == encodings[j]);
            } else if j > p {
                assert(after[j] == encodings[j - 1]);
            }
        }
    }
}

/// What is stored can be had again: after a store call that was accepted, a
/// get of the key for the encoding returns the content that was stored, with
/// the content type that was stored.
pub proof fn law_store_then_get(
    m: StateModel,
    key: Seq<char>,
    content_type: Seq<char>,
    encoding: Seq<char>,
    content: Seq<u8>,
    aliased: Option<bool>,
    time: u64,
)
    requires
        valid_state(m),
    ensures
        valid_state(stored(m, key, content_type, encoding, content, aliased, time)),
        got(stored(m, key, content_type, encoding, content, aliased, time), key, seq![encoding])
            matches Some((a, e)) && e.content() == content && e.name == encoding && e.modified
            == time && a.content_type == content_type && a.is_aliased == aliased,
{
    let a = stored_asset(m, key, content_type, encoding, content, aliased, time);
    let e = stored_encoding(m.chunk_budget, encoding, content, time);
    let after = stored(m, key, content_type, encoding, content, aliased, time);
    let k = utf8(normal_key(key));
    crate::chunks::lemma_flat_chunks(content, m.chunk_budget);
    crate::chunks::lemma_chunks_fit(content, m.chunk_budget);
    lemma_lower_bound(asset_labels(m.assets), k);
    match find_asset(m.assets, k) {
        Some(old) => {
            assert(valid_asset(old));
            assert(utf8(old.key) == k);
            lemma_find_encoding_after_put(old.encodings, e, utf8(encoding));
            assert forall|j: int| 0 <= j < a.encodings.len() implies (
            #[trigger] a.encodings[j]).chunks.len() >= 1 by {
                let x = a.encodings[j];
                if x != e {
                    assert(old.encodings.contains(x));
                }
            }
        },
        None => {
            assert(encoding_labels(seq![e]) =~= seq![utf8(encoding)]);
            crate::ordered::lemma_lower_bound_of_member(encoding_labels(seq![e]), 0);
        },
    }
    assert(valid_asset(a));
    assert(utf8(a.key) == k);
    lemma_find_after_put(m.assets, a, k);
    assert forall|i: int| 0 <= i < after.assets.len() implies valid_asset(
        #[trigger] after.assets[i],
    ) by {
        let p = lower_bound(asset_labels(m.assets), k);
        if has_label(asset_labels(m.assets), k) {
            if i != p {
                assert(after.assets[i] == m.assets[i]);
            }
        } else {
            if i < p {
                assert(after.assets[i] == m.assets[i]);
            } else if i > p {
                assert(after.assets[i] == m.assets[i - 1]);
            }
        }
    }
    let names = crate::asset::texts_bytes(seq![encoding]);
    assert(names[0] == utf8(encoding));
    assert(find_encoding(a.encodings, utf8(encoding)) == Some(e));
}

/// A store call touches one encoding of one asset: under any other key is
/// found what was found before, and the asset under the key has, under any
/// other name, the encoding that it had.
pub proof fn law_store_keeps_the_rest(
    m: StateModel,
    key: Seq<char>,
    content_type: Seq<char>,
    encoding: Seq<char>,
    content: Seq<u8>,
    aliased: Option<bool>,
    time: u64,
    other_key: Seq<u8>,
    other_encoding: Seq<u8>,
)
    requires
        valid_state(m),
    ensures
        other_key != utf8(normal_key(key)) ==> find_asset(
            stored(m, key, content_type, encoding, content, aliased, time).assets,
            other_key,
        ) == find_asset(m.assets, other_key),
        other_encoding != utf8(encoding) ==> (find_asset(m.assets, utf8(normal_key(key)))
            matches Some(before) ==> find_encoding(
            stored_asset(m, key, content_type, encoding, content, aliased, time).encodings,
            other_encoding,
        ) == find_encoding(before.encodings, other_encoding)),
{
    let a = stored_asset(m, key, content_type, encoding, content, aliased, time);
    let e = stored_encoding(m.chunk_budget, encoding, content, time);
    let k = utf8(normal_key(key));
    lemma_lower_bound(asset_labels(m.assets), k);
    match find_asset(m.assets, k) {
        Some(old) => {
            assert(valid_asset(old));
            assert(utf8(old.key) == k);
            lemma_find_encoding_after_put(old.encodings, e, other_encoding);
        },
        None => {},
    }
    assert(utf8(a.key) == k);
    lemma_find_after_put(m.assets, a, other_key);
}

/// A delete call touches one asset: under any other key is found what was
/// found before.
pub proof fn law_delete_keeps_the_rest(m: StateModel, key: Seq<char>, other_key: Seq<u8>)
    requires
        valid_state(m),
    ensures
        other_key != utf8(normal_key(key)) ==> find_asset(deleted(m, key).assets, other_key)
            == find_asset(m.assets, other_key),
{
    lemma_find_after_remove(m.assets, utf8(normal_key(key)), other_key);
}

/// An asset that is found under a key has that key.
pub proof fn lemma_found_asset_key(assets: Seq<AssetModel>, key: Seq<u8>)
    ensures
        find_asset(assets, key) matches Some(a) ==> utf8(a.key) == key,
{
    lemma_lower_bound(asset_labels(assets), key);
}

/// The first stored encoding among some names is found under its own name.
pub proof fn lemma_first_stored_found(encodings: Seq<EncodingModel>, names: Seq<Seq<u8>>)
    ensures
        first_stored(encodings, names) matches Some(e) ==> find_encoding(
            encodings,
            utf8(e.name),
        ) == Some(e),
    decreases names.len(),
{
    if names.len() > 0 {
        lemma_lower_bound(encoding_labels(encodings), names[0]);
        if find_encoding(encodings, names[0]) is None {
            lemma_first_stored_found(encodings, names.drop_first());
        }
    }
}

/// Every answer comes with a witness that verifies against the root. Where
/// an encoding is served, the digest of the witness is the root of the
/// state, and following the path of what is served ends at the value
/// certified for the encoding: the label of the assets, the asset's key and
/// the encoding's name, or, where the fallback is served, the label of the
/// fallback and the encoding's name, next to a proof that nothing is stored
/// under the path asked for. Where nothing is served because nothing is
/// there, the digest of the witness is the root of the state, and the
/// witness proves that nothing is stored under the path.
pub proof fn law_responses_verify(
    m: StateModel,
    url: Seq<u8>,
    headers: Seq<(Seq<char>, Seq<char>)>,
    below: Seq<Seq<u8>>,
)
    requires
        valid_state(m),
    ensures
        match outcome(m, url, headers) {
            Outcome::Serve { asset, encoding, fallback, path } => if fallback {
                &&& digest_of(fallback_witness(m, path, asset, encoding)) == state_root(m)
                &&& lookup_path(
                    fallback_witness(m, path, asset, encoding),
                    seq![fallback_label(), utf8(encoding.name)],
                ) == PathLookup::Found(certified_value(asset, encoding))
                &&& lookup_path(
                    fallback_witness(m, path, asset, encoding),
                    seq![assets_label(), path] + below,
                ) == PathLookup::Absent
            } else {
                &&& digest_of(served_witness(m, asset, encoding)) == state_root(m)
                &&& lookup_path(
                    served_witness(m, asset, encoding),
                    seq![assets_label(), utf8(asset.key), utf8(encoding.name)],
                ) == PathLookup::Found(certified_value(asset, encoding))
            },
            Outcome::NotFound { path } => {
                &&& digest_of(missing_witness(m, path)) == state_root(m)
                &&& lookup_path(missing_witness(m, path), seq![assets_label(), path] + below)
                    == PathLookup::Absent
            },
            _ => digest_of(Tree::Pruned(state_root(m))) == state_root(m),
        },
{
    match outcome(m, url, headers) {
        Outcome::Serve { asset, encoding, fallback, path } => {
            lemma_first_stored_found(asset.encodings, wanted_encodings(headers));
            lemma_found_asset_key(m.assets, path);
            lemma_found_asset_key(m.assets, index_alias(path));
            lemma_found_asset_key(m.assets, html_alias(path));
            if fallback {
                law_fallback_witness_verifies(m, path, asset, encoding, below);
            } else {
                law_served_witness_verifies(m, asset, encoding);
            }
        },
        Outcome::NotFound { path } => {
            law_missing_witness_proves_absence(m, path, below);
        },
        _ => {},
    }
}

/// An encoding that is found in a valid state has no chunk longer than the
/// chunk budget.
pub proof fn lemma_found_encoding_fits(m: StateModel, key: Seq<u8>, name: Seq<u8>)
    requires
        valid_state(m),
    ensures
        find_asset(m.assets, key) matches Some(a) ==> (find_encoding(a.encodings, name)
            matches Some(e) ==> encoding_fits(e, m.chunk_budget) && e.chunks.len() >= 1),
{
    lemma_lower_bound(asset_labels(m.assets), key);
    match find_asset(m.assets, key) {
        Some(a) => {
            let i = lower_bound(asset_labels(m.assets), key);
            assert(valid_asset(m.assets[i]) && asset_fits(m.assets[i], m.chunk_budget));
            lemma_lower_bound(encoding_labels(a.encodings), name);
        },
        None => {},
    }
}

/// No body is longer than the chunk budget: neither the body of a response
/// that serves an encoding, which is the encoding's first chunk, nor the
/// chunk that a continuation call returns.
pub proof fn law_bodies_fit_the_budget(
    m: StateModel,
    url: Seq<u8>,
    headers: Seq<(Seq<char>, Seq<char>)>,
    key: Seq<char>,
    encoding: Seq<char>,
    index: nat,
    sha256: Option<Seq<u8>>,
)
    requires
        valid_state(m),
    ensures
        outcome(m, url, headers) matches Outcome::Serve { encoding: e, .. } ==> e.chunks[0].len()
            <= m.chunk_budget,
        continued(m, key, encoding, index, sha256) matches Ok((e, _)) ==> e.chunks[index as int].len()
            <= m.chunk_budget,
{
    match outcome(m, url, headers) {
        Outcome::Serve { asset, encoding: e, fallback, path } => {
            lemma_first_stored_found(asset.encodings, wanted_encodings(headers));
            lemma_found_asset_key(m.assets, path);
            lemma_found_asset_key(m.assets, index_alias(path));
            lemma_found_asset_key(m.assets, html_alias(path));
            if fallback {
                lemma_found_encoding_fits(m, utf8(m.fallback.unwrap()), utf8(e.name));
            } else {
                lemma_found_encoding_fits(m, utf8(asset.key), utf8(e.name));
            }
        },
        _ => {},
    }
    lemma_found_encoding_fits(m, utf8(key), utf8(encoding));
}

} // verus!
