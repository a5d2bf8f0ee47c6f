//! The scalar codec: unsigned integers, booleans and one level of optional,
//! in a fixed little-endian layout.
//!
//! Optionals follow the strict scheme. A discriminant byte comes first: `0`
//! for an absent value, with nothing after it, and `1` for a present one,
//! with the value's own encoding after it. So a present boolean takes two
//! bytes, `[1, 0]` or `[1, 1]`. The compact scheme, which packs an optional
//! boolean into the single byte `0`, `1` or `2`, is not read and not
//! written: under it `[1]` and `[2]` would be values, here the first is
//! truncated and the second has an invalid discriminant.

use crate::error::Error;
use crate::le::{
    le_bytes, le_value, lemma_le_bytes_len, lemma_le_bytes_of_le_value, lemma_le_value_bound,
    lemma_le_value_of_le_bytes, lemma_pow256_values, read_le, write_le,
};
use vstd::prelude::*;
use vstd::slice::slice_subrange;

verus! {

/// The types of the values that are not optional.
#[derive(Clone, Copy, Debug, PartialEq, Eq, Structural)]
pub enum PrimitiveType {
    UInt8,
    UInt16,
    UInt32,
    UInt64,
    Bool,
}

/// A target of decoding: a primitive, or an optional primitive. An optional
/// holds a primitive and never another optional, so the nesting stops at
/// one level.
#[derive(Clone, Copy, Debug, PartialEq, Eq, Structural)]
pub enum ScalarType {
    Plain(PrimitiveType),
    Optional(PrimitiveType),
}

/// A value that is not optional.
#[derive(Clone, Copy, Debug, PartialEq, Eq, Structural)]
pub enum Primitive {
    UInt8(u8),
    UInt16(u16),
    UInt32(u32),
    UInt64(u64),
    Bool(bool),
}

/// A value of the codec.
#[derive(Clone, Copy, Debug, PartialEq, Eq, Structural)]
pub enum ScalarValue {
    Plain(Primitive),
    Optional(Option<Primitive>),
}

/// What the caller wants done with bytes that follow the value.
#[derive(Clone, Copy, Debug, PartialEq, Eq, Structural)]
pub enum Trailing {
    /// They are not looked at.
    Allow,
    /// They are an error: the value must use the whole buffer.
    Reject,
}

impl PrimitiveType {
    /// How many bytes a value of this type takes.
    pub open spec fn width(self) -> nat {
        match self {
            PrimitiveType::UInt8 => 1,
            PrimitiveType::UInt16 => 2,
            PrimitiveType::UInt32 => 4,
            PrimitiveType::UInt64 => 8,
            PrimitiveType::Bool => 1,
        }
    }

    /// How many bytes a value of this type takes.
    pub fn width_in_bytes(self) -> (width: usize)
        ensures
            width == self.width(),
    {
        match self {
            PrimitiveType::UInt8 => 1,
            PrimitiveType::UInt16 => 2,
            PrimitiveType::UInt32 => 4,
            PrimitiveType::UInt64 => 8,
            PrimitiveType::Bool => 1,
        }
    }
}

impl Primitive {
    /// The type of this value.
    pub open spec fn type_of(self) -> PrimitiveType {
        match self {
            Primitive::UInt8(_) => PrimitiveType::UInt8,
            Primitive::UInt16(_) => PrimitiveType::UInt16,
            Primitive::UInt32(_) => PrimitiveType::UInt32,
            Primitive::UInt64(_) => PrimitiveType::UInt64,
            Primitive::Bool(_) => PrimitiveType::Bool,
        }
    }

    /// The bytes that stand for this value.
    pub open spec fn encoding(self) -> Seq<u8> {
        match self {
            Primitive::UInt8(v) => seq![v],
            Primitive::UInt16(v) => le_bytes(v as nat, 2),
            Primitive::UInt32(v) => le_bytes(v as nat, 4),
            Primitive::UInt64(v) => le_bytes(v as nat, 8),
            Primitive::Bool(v) => seq![if v { 1u8 } else { 0u8 }],
        }
    }
}

impl ScalarValue {
    /// Whether this value is one of type `ty`. An absent value is one of
    /// every optional type.
    pub open spec fn has_type(self, ty: ScalarType) -> bool {
        match (self, ty) {
            (ScalarValue::Plain(v), ScalarType::Plain(t)) => v.type_of() == t,
            (ScalarValue::Optional(None), ScalarType::Optional(_)) => true,
            (ScalarValue::Optional(Some(v)), ScalarType::Optional(t)) => v.type_of() == t,
            _ => false,
        }
    }

    /// The bytes that stand for this value.
    pub open spec fn encoding(self) -> Seq<u8> {
        match self {
            ScalarValue::Plain(v) => v.encoding(),
            ScalarValue::Optional(None) => seq![0u8],
            ScalarValue::Optional(Some(v)) => seq![1u8] + v.encoding(),
        }
    }
}

/// The primitive of type `ty` that stands at the front of `bytes`.
pub open spec fn primitive_at_front(bytes: Seq<u8>, ty: PrimitiveType) -> Result<Primitive, Error> {
    if bytes.len() < ty.width() {
        Err(Error::TruncatedInput)
    } else {
        match ty {
            PrimitiveType::UInt8 => Ok(Primitive::UInt8(bytes[0])),
            PrimitiveType::UInt16 => Ok(Primitive::UInt16(le_value(bytes.take(2)) as u16)),
            PrimitiveType::UInt32 => Ok(Primitive::UInt32(le_value(bytes.take(4)) as u32)),
            PrimitiveType::UInt64 => Ok(Primitive::UInt64(le_value(bytes.take(8)) as u64)),
            PrimitiveType::Bool => if bytes[0] == 0 {
                Ok(Primitive::Bool(false))
            } else if bytes[0] == 1 {
                Ok(Primitive::Bool(true))
            } else {
                Err(Error::InvalidBooleanDiscriminant)
            },
        }
    }
}

/// The value of type `ty` that stands at the front of `bytes`, and how many
/// bytes it takes.
pub open spec fn value_at_front(bytes: Seq<u8>, ty: ScalarType) -> Result<(ScalarValue, nat), Error> {
    match ty {
        ScalarType::Plain(t) => match primitive_at_front(bytes, t) {
            Ok(v) => Ok((ScalarValue::Plain(v), t.width())),
            Err(e) => Err(e),
        },
        ScalarType::Optional(t) => if bytes.len() == 0 {
            Err(Error::TruncatedInput)
        } else if bytes[0] == 0 {
            Ok((ScalarValue::Optional(None), 1))
        } else if bytes[0] == 1 {
            match primitive_at_front(bytes.skip(1), t) {
                Ok(v) => Ok((ScalarValue::Optional(Some(v)), 1 + t.width())),
                Err(e) => Err(e),
            }
        } else {
            Err(Error::InvalidBooleanDiscriminant)
        },
    }
}

/// What decoding `bytes` as a `ty` gives. A fault in the value itself comes
/// before the complaint about bytes behind it.
pub open spec fn decoded(bytes: Seq<u8>, ty: ScalarType, trailing: Trailing) -> Result<
    ScalarValue,
    Error,
> {
    match value_at_front(bytes, ty) {
        Ok((value, used)) => if trailing == Trailing::Reject && used < bytes.len() {
            Err(Error::TrailingBytes)
        } else {
            Ok(value)
        },
        Err(e) => Err(e),
    }
}

/// Decodes the primitive of type `ty` at the front of `bytes`.
pub fn decode_primitive(bytes: &[u8], ty: PrimitiveType) -> (result: Result<Primitive, Error>)
    ensures
        result == primitive_at_front(bytes@, ty),
{
    let width = ty.width_in_bytes();
    if bytes.len() < width {
        return Err(Error::TruncatedInput);
    }
    proof {
        lemma_le_value_bound(bytes@.take(width as int));
        lemma_pow256_values();
    }
    match ty {
        PrimitiveType::UInt8 => Ok(Primitive::UInt8(bytes[0])),
        PrimitiveType::UInt16 => Ok(Primitive::UInt16(read_le(bytes, 2) as u16)),
        PrimitiveType::UInt32 => Ok(Primitive::UInt32(read_le(bytes, 4) as u32)),
        PrimitiveType::UInt64 => Ok(Primitive::UInt64(read_le(bytes, 8))),
        PrimitiveType::Bool => {
            let byte = bytes[0];
            if byte == 0 {
                Ok(Primitive::Bool(false))
            } else if byte == 1 {
                Ok(Primitive::Bool(true))
            } else {
                Err(Error::InvalidBooleanDiscriminant)
            }
        },
    }
}

/// Decodes the value of type `ty` at the front of `bytes`, and says how
/// many bytes it took.
pub fn decode_front(bytes: &[u8], ty: ScalarType) -> (result: Result<(ScalarValue, usize), Error>)
    ensures
        match value_at_front(bytes@, ty) {
            Ok((value, used)) => result == Ok::<(ScalarValue, usize), Error>((value, used as usize))
                && used <= bytes@.len(),
            Err(e) => result == Err::<(ScalarValue, usize), Error>(e),
        },
{
    match ty {
        ScalarType::Plain(t) => match decode_primitive(bytes, t) {
            Ok(v) => Ok((ScalarValue::Plain(v), t.width_in_bytes())),
            Err(e) => Err(e),
        },
        ScalarType::Optional(t) => {
            if bytes.len() == 0 {
                return Err(Error::TruncatedInput);
            }
            let discriminant = bytes[0];
            if discriminant == 0 {
                Ok((ScalarValue::Optional(None), 1))
            } else if discriminant == 1 {
                let rest = slice_subrange(bytes, 1, bytes.len());
                assert(rest@ =~= bytes@.skip(1));
                match decode_primitive(rest, t) {
                    Ok(v) => Ok((ScalarValue::Optional(Some(v)), 1 + t.width_in_bytes())),
                    Err(e) => Err(e),
                }
            } else {
                Err(Error::InvalidBooleanDiscriminant)
            }
        },
    }
}

/// Decodes `bytes` as a value of type `ty`, reading from the front.
pub fn decode(bytes: &[u8], ty: ScalarType, trailing: Trailing) -> (result: Result<
    ScalarValue,
    Error,
>)
    ensures
        result == decoded(bytes@, ty, trailing),
{
    match decode_front(bytes, ty) {
        Ok((value, used)) => match trailing {
            Trailing::Reject => if used < bytes.len() {
                Err(Error::TrailingBytes)
            } else {
                Ok(value)
            },
            Trailing::Allow => Ok(value),
        },
        Err(e) => Err(e),
    }
}

/// Appends the encoding of `value` to `out`.
pub fn encode_primitive(value: Primitive, out: &mut Vec<u8>)
    ensures
        final(out)@ == old(out)@ + value.encoding(),
{
    match value {
        Primitive::UInt8(v) => out.push(v),
        Primitive::UInt16(v) => write_le(v as u64, 2, out),
        Primitive::UInt32(v) => write_le(v as u64, 4, out),
        Primitive::UInt64(v) => write_le(v, 8, out),
        Primitive::Bool(v) => out.push(if v { 1 } else { 0 }),
    }
}

/// Encodes `value`.
pub fn encode(value: ScalarValue) -> (out: Vec<u8>)
    ensures
        out@ == value.encoding(),
{
    let mut out: Vec<u8> = Vec::new();
    match value {
        ScalarValue::Plain(v) => encode_primitive(v, &mut out),
        ScalarValue::Optional(None) => out.push(0),
        ScalarValue::Optional(Some(v)) => {
            out.push(1);
            encode_primitive(v, &mut out);
        },
    }
    out
}

/// A primitive takes as many bytes as its type says, and is read back from
/// them, whatever follows.
pub proof fn lemma_primitive_round_trip(value: Primitive, rest: Seq<u8>)
    ensures
        value.encoding().len() == value.type_of().width(),
        primitive_at_front(value.encoding() + rest, value.type_of()) == Ok::<Primitive, Error>(
            value,
        ),
{
    let bytes = value.encoding();
    let width = value.type_of().width();
    lemma_pow256_values();
    match value {
        Primitive::UInt8(v) => {},
        Primitive::UInt16(v) => {
            lemma_le_bytes_len(v as nat, 2);
            lemma_le_value_of_le_bytes(v as nat, 2);
        },
        Primitive::UInt32(v) => {
            lemma_le_bytes_len(v as nat, 4);
            lemma_le_value_of_le_bytes(v as nat, 4);
        },
        Primitive::UInt64(v) => {
            lemma_le_bytes_len(v as nat, 8);
            lemma_le_value_of_le_bytes(v as nat, 8);
        },
        Primitive::Bool(v) => {},
    }
    assert((bytes + rest).take(width as int) =~= bytes);
}

/// Round trip: a value is read back from its encoding, whatever follows
/// it, and the read takes exactly the encoding.
pub proof fn lemma_round_trip_at_front(value: ScalarValue, ty: ScalarType, rest: Seq<u8>)
    requires
        value.has_type(ty),
    ensures
        value_at_front(value.encoding() + rest, ty) == Ok::<(ScalarValue, nat), Error>(
            (value, value.encoding().len()),
        ),
{
    match value {
        ScalarValue::Plain(v) => {
            lemma_primitive_round_trip(v, rest);
        },
        ScalarValue::Optional(None) => {},
        ScalarValue::Optional(Some(v)) => {
            lemma_primitive_round_trip(v, rest);
            assert((value.encoding() + rest).skip(1) =~= v.encoding() + rest);
        },
    }
}

/// Round trip: decoding the encoding of a value gives the value, whether
/// or not trailing bytes are allowed.
pub proof fn lemma_round_trip(value: ScalarValue, ty: ScalarType, trailing: Trailing)
    requires
        value.has_type(ty),
    ensures
        decoded(value.encoding(), ty, trailing) == Ok::<ScalarValue, Error>(value),
{
    lemma_round_trip_at_front(value, ty, Seq::empty());
    assert(value.encoding() + Seq::<u8>::empty() =~= value.encoding());
}

/// A buffer that stops inside a value is truncated: when a value can be
/// read from the front of `bytes`, no shorter piece of what it takes can be
/// read as anything.
pub proof fn lemma_cut_short_is_truncated(
    bytes: Seq<u8>,
    ty: ScalarType,
    kept: nat,
    trailing: Trailing,
)
    requires
        value_at_front(bytes, ty) is Ok,
        kept < value_at_front(bytes, ty)->Ok_0.1,
    ensures
        value_at_front(bytes.take(kept as int), ty) == Err::<(ScalarValue, nat), Error>(
            Error::TruncatedInput,
        ),
        decoded(bytes.take(kept as int), ty, trailing) == Err::<ScalarValue, Error>(
            Error::TruncatedInput,
        ),
{
    let short = bytes.take(kept as int);
    match ty {
        ScalarType::Plain(t) => {},
        ScalarType::Optional(t) => {
            if kept > 0 {
                assert(short[0] == bytes[0]);
                assert(short.skip(1).len() == kept - 1);
            }
        },
    }
}

/// What is read has the type that was asked for, lies within the buffer,
/// and is spelled by exactly the bytes that the read took: no two byte
/// strings stand for one value.
pub proof fn lemma_read_is_exact(bytes: Seq<u8>, ty: ScalarType)
    requires
        value_at_front(bytes, ty) is Ok,
    ensures
        value_at_front(bytes, ty)->Ok_0.0.has_type(ty),
        value_at_front(bytes, ty)->Ok_0.1 <= bytes.len(),
        value_at_front(bytes, ty)->Ok_0.0.encoding() == bytes.take(
            value_at_front(bytes, ty)->Ok_0.1 as int,
        ),
{
    let (value, used) = value_at_front(bytes, ty)->Ok_0;
    match ty {
        ScalarType::Plain(t) => {
            lemma_primitive_read_is_exact(bytes, t);
        },
        ScalarType::Optional(t) => {
            if bytes[0] == 1 {
                let inner = bytes.skip(1);
                lemma_primitive_read_is_exact(inner, t);
                assert(seq![1u8] + inner.take(t.width() as int) =~= bytes.take(used as int));
            } else {
                assert(seq![0u8] =~= bytes.take(1));
            }
        },
    }
}

/// A primitive that is read has the type that was asked for and is spelled
/// by exactly the bytes that the read took.
pub proof fn lemma_primitive_read_is_exact(bytes: Seq<u8>, ty: PrimitiveType)
    requires
        primitive_at_front(bytes, ty) is Ok,
    ensures
        primitive_at_front(bytes, ty)->Ok_0.type_of() == ty,
        ty.width() <= bytes.len(),
        primitive_at_front(bytes, ty)->Ok_0.encoding() == bytes.take(ty.width() as int),
{
    let taken = bytes.take(ty.width() as int);
    lemma_le_value_bound(taken);
    lemma_le_bytes_of_le_value(taken);
    lemma_pow256_values();
    match ty {
        PrimitiveType::UInt8 => {
            assert(seq![bytes[0]] =~= taken);
        },
        PrimitiveType::Bool => {
            assert(seq![bytes[0]] =~= taken);
        },
        _ => {},
    }
}

} // verus!
