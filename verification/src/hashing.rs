//! The hash functions that shape a storage key.

use crate::error::Error;
use frame_support::{Blake2_128Concat, Identity, StorageHasher, Twox128, Twox64Concat};
use vstd::prelude::*;
use vstd::slice::slice_to_vec;
use vstd::utf8::encode_utf8_decode_utf8;

verus! {

/// How a byte string enters a storage key.
#[derive(Clone, Copy, Debug, PartialEq, Eq, Structural)]
pub enum HashKind {
    /// The 128-bit hash alone. It anchors the namespace and the item, and is
    /// not for parameters.
    Prefix128,
    /// The bytes as they are, so that keys sort as the parameters do.
    Identity,
    /// A 64-bit hash, then the bytes.
    Concat64,
    /// A 128-bit hash, then the bytes.
    Concat128,
}

/// The 128-bit XX hash of `data`: what `frame_support::Twox128::hash`
/// returns for it. Nothing is said of which bytes these are.
pub uninterp spec fn twox_128_digest(data: Seq<u8>) -> [u8; 16];

/// The 64-bit XX hash of `data`: what `frame_support::Twox64Concat::hash`
/// puts in front of it. Nothing is said of which bytes these are.
pub uninterp spec fn twox_64_digest(data: Seq<u8>) -> [u8; 8];

/// The 128-bit Blake2b hash of `data`: what
/// `frame_support::Blake2_128Concat::hash` puts in front of it. Nothing is
/// said of which bytes these are.
pub uninterp spec fn blake2_128_digest(data: Seq<u8>) -> [u8; 16];

/// What `data` becomes under `kind`.
pub open spec fn hashed(kind: HashKind, data: Seq<u8>) -> Seq<u8> {
    match kind {
        HashKind::Prefix128 => twox_128_digest(data)@,
        HashKind::Identity => data,
        HashKind::Concat64 => twox_64_digest(data)@ + data,
        HashKind::Concat128 => blake2_128_digest(data)@ + data,
    }
}

/// How long `hashed(kind, data)` is for `data` of `len` bytes.
pub open spec fn hashed_len(kind: HashKind, len: nat) -> nat {
    match kind {
        HashKind::Prefix128 => 16,
        HashKind::Identity => len,
        HashKind::Concat64 => 8 + len,
        HashKind::Concat128 => 16 + len,
    }
}

/// Calls `frame_support::Twox128::hash`. Believed without proof: the 16
/// bytes that come back depend on `data` alone, so that they can be named
/// `twox_128_digest(data)`.
#[verifier::external_body]
fn twox_128(data: &[u8]) -> (digest: [u8; 16])
    ensures
        digest == twox_128_digest(data@),
{
    Twox128::hash(data)
}

/// Calls `frame_support::Twox64Concat::hash`. Believed without proof: what
/// comes back is an 8-byte hash that depends on `data` alone, named
/// `twox_64_digest(data)`, and behind it `data` itself.
#[verifier::external_body]
fn twox_64_concat(data: &[u8]) -> (out: Vec<u8>)
    ensures
        out@ == twox_64_digest(data@)@ + data@,
{
    Twox64Concat::hash(data)
}

/// Calls `frame_support::Blake2_128Concat::hash`. Believed without proof:
/// what comes back is a 16-byte hash that depends on `data` alone, named
/// `blake2_128_digest(data)`, and behind it `data` itself.
#[verifier::external_body]
fn blake2_128_concat(data: &[u8]) -> (out: Vec<u8>)
    ensures
        out@ == blake2_128_digest(data@)@ + data@,
{
    Blake2_128Concat::hash(data)
}

/// Calls `frame_support::Identity::hash`. Believed without proof: what
/// comes back is a copy of `data`.
#[verifier::external_body]
fn identity(data: &[u8]) -> (out: Vec<u8>)
    ensures
        out@ == data@,
{
    Identity::hash(data)
}

/// The hasher that a selector name stands for. The prefix hash has no name:
/// callers cannot select it.
pub open spec fn selected(name: Seq<char>) -> Option<HashKind> {
    if name == "identity"@ {
        Some(HashKind::Identity)
    } else if name == "twox64_concat"@ {
        Some(HashKind::Concat64)
    } else if name == "blake2_128_concat"@ {
        Some(HashKind::Concat128)
    } else {
        None
    }
}

/// Whether two byte strings hold the same bytes.
fn same_bytes(a: &[u8], b: &[u8]) -> (same: bool)
    ensures
        same == (a@ == b@),
{
    if a.len() != b.len() {
        return false;
    }
    let mut i: usize = 0;
    while i < a.len()
        invariant
            i <= a@.len(),
            a@.len() == b@.len(),
            a@.take(i as int) == b@.take(i as int),
        decreases a@.len() - i,
    {
        if a[i] != b[i] {
            return false;
        }
        proof {
            assert(a@.take(i + 1) =~= a@.take(i as int).push(a@[i as int]));
            assert(b@.take(i + 1) =~= b@.take(i as int).push(b@[i as int]));
        }
        i = i + 1;
    }
    proof {
        assert(a@.take(i as int) =~= a@);
        assert(b@.take(i as int) =~= b@);
    }
    true
}

/// Whether two texts hold the same characters.
fn same_text(a: &str, b: &str) -> (same: bool)
    ensures
        same == (a@ == b@),
{
    proof {
        encode_utf8_decode_utf8(a@);
        encode_utf8_decode_utf8(b@);
    }
    same_bytes(a.as_bytes(), b.as_bytes())
}

impl HashKind {
    /// Reads a selector name: `identity`, `twox64_concat` or
    /// `blake2_128_concat`. Any other text is refused.
    pub fn from_name(name: &str) -> (kind: Result<HashKind, Error>)
        ensures
            kind == match selected(name@) {
                Some(k) => Ok::<HashKind, Error>(k),
                None => Err::<HashKind, Error>(Error::UnsupportedHasher),
            },
    {
        proof {
            reveal_strlit("identity");
            reveal_strlit("twox64_concat");
            reveal_strlit("blake2_128_concat");
            assert("identity"@.len() == 8);
            assert("twox64_concat"@.len() == 13);
            assert("blake2_128_concat"@.len() == 17);
        }
        if same_text(name, "blake2_128_concat") {
            Ok(HashKind::Concat128)
        } else if same_text(name, "twox64_concat") {
            Ok(HashKind::Concat64)
        } else if same_text(name, "identity") {
            Ok(HashKind::Identity)
        } else {
            Err(Error::UnsupportedHasher)
        }
    }
}

/// Applies `kind` to `data`. Every kind takes every input, the empty one
/// too.
pub fn hash_bytes(kind: HashKind, data: &[u8]) -> (out: Vec<u8>)
    ensures
        out@ == hashed(kind, data@),
{
    match kind {
        HashKind::Prefix128 => {
            let digest = twox_128(data);
            slice_to_vec(digest.as_slice())
        },
        HashKind::Identity => identity(data),
        HashKind::Concat64 => twox_64_concat(data),
        HashKind::Concat128 => blake2_128_concat(data),
    }
}

/// The length of a hashed byte string depends on the kind and on the
/// length of the input alone.
pub proof fn lemma_hashed_len(kind: HashKind, data: Seq<u8>)
    ensures
        hashed(kind, data).len() == hashed_len(kind, data.len()),
{
}

/// Under every hasher but the prefix hash the bytes can be read back from
/// what they became: they stand at its end, behind the hash.
pub proof fn lemma_payload_is_kept(kind: HashKind, data: Seq<u8>)
    requires
        kind != HashKind::Prefix128,
    ensures
        hashed(kind, data).skip(hashed_len(kind, 0) as int) == data,
{
    assert(hashed(kind, data).skip(hashed_len(kind, 0) as int) =~= data);
}

} // verus!
