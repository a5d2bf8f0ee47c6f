//! Storage keys: where an entry of a keyed store lives.
//!
//! A key is the 128-bit hash of the namespace name, the 128-bit hash of
//! the item name, and then one segment for each parameter, in the order
//! given: the parameter's bytes under the hasher chosen for it.

use crate::codec::{encode, ScalarValue};
use crate::error::Error;
use crate::hashing::{
    hash_bytes, hashed, hashed_len, lemma_payload_is_kept, twox_128_digest, HashKind,
};
use crate::hexadecimal::{
    digit_text, hex_chars, hex_digits, hex_encode, lemma_hex_chars_push,
};
use vstd::prelude::*;
use vstd::string::StringExecFns;
use vstd::utf8::encode_utf8;

verus! {

/// One parameter of a key: its bytes, and the hasher chosen for its slot.
#[derive(Clone, Debug, PartialEq, Eq)]
pub struct KeyParam {
    pub bytes: Vec<u8>,
    pub hasher: HashKind,
}

impl View for KeyParam {
    type V = (Seq<u8>, HashKind);

    open spec fn view(&self) -> (Seq<u8>, HashKind) {
        (self.bytes@, self.hasher)
    }
}

/// What a key is asked for: a namespace, an item, and the parameters in the
/// order in which they enter the key.
#[derive(Clone, Debug, PartialEq, Eq)]
pub struct StorageKeyRequest {
    pub namespace: String,
    pub item: String,
    pub params: Vec<KeyParam>,
}

/// A derived key. It is a byte string and nothing more: what it was derived
/// from cannot be read off it.
#[derive(Clone, Debug, PartialEq, Eq)]
pub struct StorageKey {
    bytes: Vec<u8>,
}

impl View for StorageKey {
    type V = Seq<u8>;

    closed spec fn view(&self) -> Seq<u8> {
        self.bytes@
    }
}

/// The parameters as plain values.
pub open spec fn param_views(params: Seq<KeyParam>) -> Seq<(Seq<u8>, HashKind)> {
    params.map_values(|p: KeyParam| p@)
}

/// The 32 bytes that every key of one namespace and item starts with.
pub open spec fn anchor(namespace: Seq<u8>, item: Seq<u8>) -> Seq<u8> {
    twox_128_digest(namespace)@ + twox_128_digest(item)@
}

/// The segments of the parameters, one after the other.
pub open spec fn segments(params: Seq<(Seq<u8>, HashKind)>) -> Seq<u8>
    decreases params.len(),
{
    if params.len() == 0 {
        Seq::empty()
    } else {
        segments(params.drop_last()) + hashed(params.last().1, params.last().0)
    }
}

/// How long the segments of the parameters are together.
pub open spec fn segments_len(params: Seq<(Seq<u8>, HashKind)>) -> nat
    decreases params.len(),
{
    if params.len() == 0 {
        0
    } else {
        segments_len(params.drop_last()) + hashed_len(params.last().1, params.last().0.len())
    }
}

/// The key of a namespace, an item and parameters.
pub open spec fn key_bytes(
    namespace: Seq<u8>,
    item: Seq<u8>,
    params: Seq<(Seq<u8>, HashKind)>,
) -> Seq<u8> {
    anchor(namespace, item) + segments(params)
}

/// Whether every parameter has a hasher that a parameter may have: any but
/// the prefix hash.
pub open spec fn selectable(params: Seq<(Seq<u8>, HashKind)>) -> bool {
    forall|i: int| 0 <= i < params.len() ==> (#[trigger] params[i]).1 != HashKind::Prefix128
}

/// Appends `more` to `out`.
fn append_bytes(out: &mut Vec<u8>, more: &[u8])
    ensures
        final(out)@ == old(out)@ + more@,
{
    let mut i: usize = 0;
    while i < more.len()
        invariant
            i <= more@.len(),
            out@ == old(out)@ + more@.take(i as int),
        decreases more@.len() - i,
    {
        out.push(more[i]);
        proof {
            assert(more@.take(i + 1) =~= more@.take(i as int).push(more@[i as int]));
        }
        i = i + 1;
    }
    proof {
        assert(more@.take(i as int) =~= more@);
    }
}

/// The anchor of a namespace and an item: the hash of the one name, then
/// the hash of the other. Empty names are names like any other.
pub fn anchor_bytes(namespace: &str, item: &str) -> (out: Vec<u8>)
    ensures
        out@ == anchor(encode_utf8(namespace@), encode_utf8(item@)),
        out@.len() == 32,
{
    let mut out = hash_bytes(HashKind::Prefix128, namespace.as_bytes());
    let second = hash_bytes(HashKind::Prefix128, item.as_bytes());
    append_bytes(&mut out, second.as_slice());
    out
}

impl KeyParam {
    /// A parameter given as a typed value: its bytes are the value's
    /// encoding.
    pub fn from_value(value: ScalarValue, hasher: HashKind) -> (param: KeyParam)
        ensures
            param@ == (value.encoding(), hasher),
    {
        KeyParam { bytes: encode(value), hasher }
    }
}

impl StorageKey {
    /// The bytes of the key.
    pub fn as_bytes(&self) -> (bytes: &[u8])
        ensures
            bytes@ == self@,
    {
        self.bytes.as_slice()
    }

    /// The bytes of the key, as lowercase hexadecimal text.
    pub fn to_hex(&self) -> (text: String)
        ensures
            text@ == hex_chars(self@),
    {
        hex_encode(self.bytes.as_slice())
    }
}

/// Derives the key of `namespace`, `item` and `params`.
///
/// The parameters enter the key in the order given; none is dropped,
/// merged or moved, and there may be any number of them. A parameter whose
/// hasher is the prefix hash is refused, and nothing else is.
pub fn build_key(namespace: &str, item: &str, params: &[KeyParam]) -> (result: Result<
    StorageKey,
    Error,
>)
    ensures
        match result {
            Ok(key) => {
                &&& selectable(param_views(params@))
                &&& key@ == key_bytes(
                    encode_utf8(namespace@),
                    encode_utf8(item@),
                    param_views(params@),
                )
                &&& key@.len() == 32 + segments_len(param_views(params@))
            },
            Err(e) => e == Error::UnsupportedHasher && !selectable(param_views(params@)),
        },
{
    let ghost views = param_views(params@);
    let mut bytes = anchor_bytes(namespace, item);
    let mut i: usize = 0;
    while i < params.len()
        invariant
            i <= params@.len(),
            views == param_views(params@),
            selectable(views.take(i as int)),
            bytes@ == anchor(encode_utf8(namespace@), encode_utf8(item@)) + segments(
                views.take(i as int),
            ),
            bytes@.len() == 32 + segments_len(views.take(i as int)),
        decreases params@.len() - i,
    {
        let param = &params[i];
        proof {
            assert(views[i as int] == param@);
            assert(views.take(i + 1).drop_last() =~= views.take(i as int));
            assert(views.take(i + 1).last() == views[i as int]);
        }
        if param.hasher == HashKind::Prefix128 {
            return Err(Error::UnsupportedHasher);
        }
        let segment = hash_bytes(param.hasher, param.bytes.as_slice());
        append_bytes(&mut bytes, segment.as_slice());
        i = i + 1;
    }
    proof {
        assert(views.take(i as int) =~= views);
    }
    Ok(StorageKey { bytes })
}

impl StorageKeyRequest {
    /// Derives the key that this request asks for.
    pub fn key(&self) -> (result: Result<StorageKey, Error>)
        ensures
            match result {
                Ok(key) => {
                    &&& selectable(param_views(self.params@))
                    &&& key@ == key_bytes(
                        encode_utf8(self.namespace@),
                        encode_utf8(self.item@),
                        param_views(self.params@),
                    )
                },
                Err(e) => e == Error::UnsupportedHasher && !selectable(
                    param_views(self.params@),
                ),
            },
    {
        build_key(self.namespace.as_str(), self.item.as_str(), self.params.as_slice())
    }
}

/// Writes `bytes` as lowercase hexadecimal text: two digits for each byte,
/// with no prefix and no separator.
pub fn to_hex_string(bytes: Vec<u8>) -> (text: String)
    ensures
        text@ == hex_chars(bytes@),
{
    let mut text = String::new();
    let mut i: usize = 0;
    while i < bytes.len()
        invariant
            i <= bytes@.len(),
            text@ == hex_chars(bytes@.take(i as int)),
        decreases bytes@.len() - i,
    {
        let byte = bytes[i];
        proof {
            lemma_hex_chars_push(bytes@.take(i as int), byte);
            assert(bytes@.take(i + 1) =~= bytes@.take(i as int).push(byte));
        }
        text.append(digit_text(byte / 16));
        text.append(digit_text(byte % 16));
        proof {
            assert(text@ =~= hex_chars(bytes@.take(i as int)) + seq![
                hex_digits()[byte as int / 16],
                hex_digits()[byte as int % 16],
            ]);
        }
        i = i + 1;
    }
    proof {
        assert(bytes@.take(i as int) =~= bytes@);
    }
    text
}

/// The parameters with those at `i` and `j` in each other's place.
pub open spec fn swapped(params: Seq<(Seq<u8>, HashKind)>, i: int, j: int) -> Seq<
    (Seq<u8>, HashKind),
> {
    params.update(i, params[j]).update(j, params[i])
}

/// The segments of two runs of parameters, one after the other, are the
/// segments of the first run and then those of the second.
pub proof fn lemma_segments_concat(
    front: Seq<(Seq<u8>, HashKind)>,
    back: Seq<(Seq<u8>, HashKind)>,
)
    ensures
        segments(front + back) == segments(front) + segments(back),
    decreases back.len(),
{
    if back.len() == 0 {
        assert(front + back =~= front);
        assert(segments(front) + segments(back) =~= segments(front));
    } else {
        lemma_segments_concat(front, back.drop_last());
        assert((front + back).drop_last() =~= front + back.drop_last());
        assert((front + back).last() == back.last());
        let piece = hashed(back.last().1, back.last().0);
        assert((segments(front) + segments(back.drop_last())) + piece =~= segments(front) + (
        segments(back.drop_last()) + piece));
    }
}

/// One parameter has one segment: its bytes under its hasher.
pub proof fn lemma_segments_of_one(param: (Seq<u8>, HashKind))
    ensures
        segments(seq![param]) == hashed(param.1, param.0),
{
    let one = seq![param];
    assert(one.drop_last() =~= Seq::empty());
    assert(segments(one.drop_last()) =~= Seq::<u8>::empty());
    assert(segments(one) =~= hashed(param.1, param.0));
}

/// The segments are as long as the hashers and the lengths of the
/// parameters say.
pub proof fn lemma_segments_len(params: Seq<(Seq<u8>, HashKind)>)
    ensures
        segments(params).len() == segments_len(params),
    decreases params.len(),
{
    if params.len() > 0 {
        lemma_segments_len(params.drop_last());
    }
}

/// A key is 32 bytes and its segments long.
pub proof fn lemma_key_len(namespace: Seq<u8>, item: Seq<u8>, params: Seq<(Seq<u8>, HashKind)>)
    ensures
        key_bytes(namespace, item, params).len() == 32 + segments_len(params),
{
    lemma_segments_len(params);
}

/// Every key of a namespace and an item starts with their anchor, whatever
/// the parameters are.
pub proof fn lemma_key_starts_with_anchor(
    namespace: Seq<u8>,
    item: Seq<u8>,
    params: Seq<(Seq<u8>, HashKind)>,
)
    ensures
        anchor(namespace, item).len() == 32,
        key_bytes(namespace, item, params).take(32) == anchor(namespace, item),
{
    assert(key_bytes(namespace, item, params).take(32) =~= anchor(namespace, item));
}

/// With no parameters the key is the anchor alone: exactly 32 bytes.
pub proof fn lemma_key_without_params(namespace: Seq<u8>, item: Seq<u8>)
    ensures
        key_bytes(namespace, item, Seq::empty()) == anchor(namespace, item),
        key_bytes(namespace, item, Seq::empty()).len() == 32,
{
    assert(anchor(namespace, item) + Seq::<u8>::empty() =~= anchor(namespace, item));
}

/// With one parameter the key is the anchor and the parameter's segment.
/// Under the 128-bit concatenating hasher that makes 32 + 16 bytes and the
/// parameter's own length; under the 64-bit one 32 + 8 and that length;
/// under identity 32 and that length.
pub proof fn lemma_key_with_one_param(
    namespace: Seq<u8>,
    item: Seq<u8>,
    payload: Seq<u8>,
    hasher: HashKind,
)
    ensures
        key_bytes(namespace, item, seq![(payload, hasher)]) == anchor(namespace, item) + hashed(
            hasher,
            payload,
        ),
        key_bytes(namespace, item, seq![(payload, hasher)]).len() == 32 + hashed_len(
            hasher,
            payload.len(),
        ),
        hasher == HashKind::Concat128 ==> key_bytes(
            namespace,
            item,
            seq![(payload, hasher)],
        ).len() == 32 + 16 + payload.len(),
{
    lemma_segments_of_one((payload, hasher));
}

/// The key is a function of the request: the same namespace, item and
/// parameters, in the same order, give the same bytes.
pub proof fn lemma_same_request_same_key(
    namespace_a: Seq<u8>,
    item_a: Seq<u8>,
    params_a: Seq<(Seq<u8>, HashKind)>,
    namespace_b: Seq<u8>,
    item_b: Seq<u8>,
    params_b: Seq<(Seq<u8>, HashKind)>,
)
    requires
        namespace_a == namespace_b,
        item_a == item_b,
        params_a == params_b,
    ensures
        key_bytes(namespace_a, item_a, params_a) == key_bytes(namespace_b, item_b, params_b),
{
}

/// Two byte strings of one length that differ have segments of one length
/// that differ, under every hasher that a parameter may have.
pub proof fn lemma_segments_tell_payloads_apart(hasher: HashKind, a: Seq<u8>, b: Seq<u8>)
    requires
        hasher != HashKind::Prefix128,
        a.len() == b.len(),
        a != b,
    ensures
        hashed(hasher, a).len() == hashed(hasher, b).len(),
        hashed(hasher, a) != hashed(hasher, b),
{
    lemma_payload_is_kept(hasher, a);
    lemma_payload_is_kept(hasher, b);
}

/// Where the segment of the parameter at `i` starts in the key: behind the
/// anchor and the segments of the parameters before it.
pub open spec fn segment_start(params: Seq<(Seq<u8>, HashKind)>, i: int) -> int {
    32 + segments_len(params.take(i)) as int
}

/// Every parameter is in the key, whole and in its place: its segment
/// starts where the anchor and the segments of the parameters before it
/// end.
pub proof fn lemma_segment_in_key(
    namespace: Seq<u8>,
    item: Seq<u8>,
    params: Seq<(Seq<u8>, HashKind)>,
    i: int,
)
    requires
        0 <= i < params.len(),
    ensures
        segment_start(params, i) + hashed(params[i].1, params[i].0).len() <= key_bytes(
            namespace,
            item,
            params,
        ).len(),
        key_bytes(namespace, item, params).subrange(
            segment_start(params, i),
            segment_start(params, i) + hashed(params[i].1, params[i].0).len(),
        ) == hashed(params[i].1, params[i].0),
{
    let front = params.take(i);
    let back = params.skip(i + 1);
    let here = hashed(params[i].1, params[i].0);
    let from_here = seq![params[i]] + back;
    assert(params =~= front + from_here);
    lemma_segments_concat(front, from_here);
    lemma_segments_concat(seq![params[i]], back);
    lemma_segments_of_one(params[i]);
    lemma_segments_len(front);
    let before = anchor(namespace, item) + segments(front);
    let key = key_bytes(namespace, item, params);
    assert(key =~= before + (here + segments(back)));
    assert(key.subrange(before.len() as int, (before.len() + here.len()) as int) =~= here);
}

/// Order counts: when the parameters at `i` and `j` have segments of one
/// length that differ, the key with the two in each other's place is
/// another key.
pub proof fn lemma_swap_changes_key(
    namespace: Seq<u8>,
    item: Seq<u8>,
    params: Seq<(Seq<u8>, HashKind)>,
    i: int,
    j: int,
)
    requires
        0 <= i < j < params.len(),
        hashed(params[i].1, params[i].0).len() == hashed(params[j].1, params[j].0).len(),
        hashed(params[i].1, params[i].0) != hashed(params[j].1, params[j].0),
    ensures
        key_bytes(namespace, item, swapped(params, i, j)) != key_bytes(namespace, item, params),
{
    let other = swapped(params, i, j);
    assert(other.take(i) =~= params.take(i));
    assert(other[i] == params[j]);
    lemma_segment_in_key(namespace, item, params, i);
    lemma_segment_in_key(namespace, item, other, i);
}

/// Order counts: two parameters under one hasher, with bytes of one length
/// that differ, cannot change places without changing the key.
pub proof fn lemma_swap_under_one_hasher_changes_key(
    namespace: Seq<u8>,
    item: Seq<u8>,
    params: Seq<(Seq<u8>, HashKind)>,
    i: int,
    j: int,
)
    requires
        0 <= i < j < params.len(),
        params[i].1 == params[j].1,
        params[i].1 != HashKind::Prefix128,
        params[i].0.len() == params[j].0.len(),
        params[i].0 != params[j].0,
    ensures
        key_bytes(namespace, item, swapped(params, i, j)) != key_bytes(namespace, item, params),
{
    lemma_segments_tell_payloads_apart(params[i].1, params[i].0, params[j].0);
    lemma_swap_changes_key(namespace, item, params, i, j);
}

} // verus!
