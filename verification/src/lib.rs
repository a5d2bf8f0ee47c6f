//! Storage keys for a keyed state store, and the scalar codec that goes
//! with them.
//!
//! The functions of this file are the entry points: each takes plain bytes
//! and text and answers with a value, never by stopping the process.

pub mod codec;
pub mod error;
pub mod hashing;
pub mod hexadecimal;
pub mod le;
pub mod storage_key;

use crate::codec::{decode, decoded, Primitive, PrimitiveType, ScalarType, ScalarValue, Trailing};
use crate::error::Error;
use crate::hashing::{hash_bytes, hashed, selected, HashKind};
use crate::hexadecimal::{hex_chars, hex_encode};
use crate::storage_key::{anchor_bytes, key_bytes, lemma_segments_of_one, segments};
use vstd::prelude::*;
use vstd::utf8::encode_utf8;

verus! {

/// What checking a buffer against an expected value gives: whether the value
/// at the front of `bytes` is `expected`, or why there is no value there.
/// Bytes behind the value are not looked at.
pub open spec fn checked(bytes: Seq<u8>, ty: ScalarType, expected: ScalarValue) -> Result<
    bool,
    Error,
> {
    match decoded(bytes, ty, Trailing::Allow) {
        Ok(value) => Ok(value == expected),
        Err(e) => Err(e),
    }
}

/// Decodes the value of type `ty` at the front of `bytes` and compares it
/// with `expected`.
fn check(bytes: &[u8], ty: ScalarType, expected: ScalarValue) -> (result: Result<bool, Error>)
    ensures
        result == checked(bytes@, ty, expected),
{
    match decode(bytes, ty, Trailing::Allow) {
        Ok(value) => Ok(value == expected),
        Err(e) => Err(e),
    }
}

/// Whether `bytes` starts with the eight bytes of `expectation`.
pub fn parse_u64(bytes: &[u8], expectation: u64) -> (result: Result<bool, Error>)
    ensures
        result == checked(
            bytes@,
            ScalarType::Plain(PrimitiveType::UInt64),
            ScalarValue::Plain(Primitive::UInt64(expectation)),
        ),
{
    check(
        bytes,
        ScalarType::Plain(PrimitiveType::UInt64),
        ScalarValue::Plain(Primitive::UInt64(expectation)),
    )
}

/// Whether `bytes` starts with the four bytes of `expectation`.
pub fn parse_u32(bytes: &[u8], expectation: u32) -> (result: Result<bool, Error>)
    ensures
        result == checked(
            bytes@,
            ScalarType::Plain(PrimitiveType::UInt32),
            ScalarValue::Plain(Primitive::UInt32(expectation)),
        ),
{
    check(
        bytes,
        ScalarType::Plain(PrimitiveType::UInt32),
        ScalarValue::Plain(Primitive::UInt32(expectation)),
    )
}

/// Whether `bytes` starts with the byte `expectation`.
pub fn parse_u8(bytes: &[u8], expectation: u8) -> (result: Result<bool, Error>)
    ensures
        result == checked(
            bytes@,
            ScalarType::Plain(PrimitiveType::UInt8),
            ScalarValue::Plain(Primitive::UInt8(expectation)),
        ),
{
    check(
        bytes,
        ScalarType::Plain(PrimitiveType::UInt8),
        ScalarValue::Plain(Primitive::UInt8(expectation)),
    )
}

/// Whether `bytes` starts with the byte of the boolean `expectation`.
pub fn parse_bool(bytes: &[u8], expectation: bool) -> (result: Result<bool, Error>)
    ensures
        result == checked(
            bytes@,
            ScalarType::Plain(PrimitiveType::Bool),
            ScalarValue::Plain(Primitive::Bool(expectation)),
        ),
{
    check(
        bytes,
        ScalarType::Plain(PrimitiveType::Bool),
        ScalarValue::Plain(Primitive::Bool(expectation)),
    )
}

/// The optional that `option` and `inner_value` describe: present and
/// `inner_value`, or absent, and then `inner_value` does not count.
pub open spec fn expected_option(inner_value: Primitive, option: bool) -> ScalarValue {
    if option {
        ScalarValue::Optional(Some(inner_value))
    } else {
        ScalarValue::Optional(None)
    }
}

/// Whether `bytes` starts with an optional 32-bit number that is present
/// and `inner_value`, where `option` holds, or absent, where it does not.
pub fn parse_opt_u32(bytes: &[u8], inner_value: u32, option: bool) -> (result: Result<
    bool,
    Error,
>)
    ensures
        result == checked(
            bytes@,
            ScalarType::Optional(PrimitiveType::UInt32),
            expected_option(Primitive::UInt32(inner_value), option),
        ),
{
    let expectation = match option {
        true => ScalarValue::Optional(Some(Primitive::UInt32(inner_value))),
        false => ScalarValue::Optional(None),
    };
    check(bytes, ScalarType::Optional(PrimitiveType::UInt32), expectation)
}

/// Whether `bytes` starts with an optional boolean that is present and
/// `inner_value`, where `option` holds, or absent, where it does not.
pub fn parse_opt_bool(bytes: &[u8], inner_value: bool, option: bool) -> (result: Result<
    bool,
    Error,
>)
    ensures
        result == checked(
            bytes@,
            ScalarType::Optional(PrimitiveType::Bool),
            expected_option(Primitive::Bool(inner_value), option),
        ),
{
    let expectation = match option {
        true => ScalarValue::Optional(Some(Primitive::Bool(inner_value))),
        false => ScalarValue::Optional(None),
    };
    check(bytes, ScalarType::Optional(PrimitiveType::Bool), expectation)
}

/// The segment of a parameter whose hasher is given by name.
pub fn gen_param_hash(param: &[u8], param_hasher: &str) -> (result: Result<Vec<u8>, Error>)
    ensures
        match selected(param_hasher@) {
            Some(kind) => result matches Ok(segment) && segment@ == hashed(kind, param@),
            None => result matches Err(e) && e == Error::UnsupportedHasher,
        },
{
    match HashKind::from_name(param_hasher) {
        Ok(kind) => Ok(hash_bytes(kind, param)),
        Err(e) => Err(e),
    }
}

/// The key of a single value, as hexadecimal text: the anchor of the module
/// and the storage item, 64 digits.
pub fn get_storage_key_for_value(module_name: &str, storage_name: &str) -> (text: String)
    ensures
        text@ == hex_chars(
            key_bytes(encode_utf8(module_name@), encode_utf8(storage_name@), Seq::empty()),
        ),
{
    let storage_key = anchor_bytes(module_name, storage_name);
    proof {
        assert(storage_key@ + Seq::<u8>::empty() =~= storage_key@);
    }
    hex_encode(storage_key.as_slice())
}

/// The key of a map entry, as hexadecimal text: the anchor, then the
/// segment of the one parameter.
pub fn get_storage_key_for_map(
    module_name: &str,
    storage_name: &str,
    param: &[u8],
    param_hasher: &str,
) -> (result: Result<String, Error>)
    ensures
        match selected(param_hasher@) {
            Some(kind) => result matches Ok(text) && text@ == hex_chars(
                key_bytes(
                    encode_utf8(module_name@),
                    encode_utf8(storage_name@),
                    seq![(param@, kind)],
                ),
            ),
            None => result matches Err(e) && e == Error::UnsupportedHasher,
        },
{
    let mut storage_key = anchor_bytes(module_name, storage_name);
    let mut param_hash = match gen_param_hash(param, param_hasher) {
        Ok(segment) => segment,
        Err(e) => return Err(e),
    };
    proof {
        lemma_segments_of_one((param@, selected(param_hasher@)->Some_0));
    }
    storage_key.append(&mut param_hash);
    Ok(hex_encode(storage_key.as_slice()))
}

/// The key of an entry of a map with two keys, as hexadecimal text: the
/// anchor, then the segment of the first parameter, then that of the
/// second.
pub fn get_storage_key_for_double_map(
    module_name: &str,
    storage_name: &str,
    param1: &[u8],
    param1_hasher: &str,
    param2: &[u8],
    param2_hasher: &str,
) -> (result: Result<String, Error>)
    ensures
        match (selected(param1_hasher@), selected(param2_hasher@)) {
            (Some(kind1), Some(kind2)) => result matches Ok(text) && text@ == hex_chars(
                key_bytes(
                    encode_utf8(module_name@),
                    encode_utf8(storage_name@),
                    seq![(param1@, kind1), (param2@, kind2)],
                ),
            ),
            _ => result matches Err(e) && e == Error::UnsupportedHasher,
        },
{
    let mut storage_key = anchor_bytes(module_name, storage_name);
    let mut param1_hash = match gen_param_hash(param1, param1_hasher) {
        Ok(segment) => segment,
        Err(e) => return Err(e),
    };
    storage_key.append(&mut param1_hash);
    let mut param2_hash = match gen_param_hash(param2, param2_hasher) {
        Ok(segment) => segment,
        Err(e) => return Err(e),
    };
    storage_key.append(&mut param2_hash);
    proof {
        let first = (param1@, selected(param1_hasher@)->Some_0);
        let second = (param2@, selected(param2_hasher@)->Some_0);
        let both = seq![first, second];
        lemma_segments_of_one(first);
        assert(both.drop_last() =~= seq![first]);
        assert(segments(both) =~= hashed(first.1, first.0) + hashed(second.1, second.0));
    }
    Ok(hex_encode(storage_key.as_slice()))
}

} // verus!
