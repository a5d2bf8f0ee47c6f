use storage_keys::codec::{decode, Primitive, PrimitiveType, ScalarType, ScalarValue, Trailing};
use storage_keys::error::Error;
use storage_keys::parse_opt_bool;

fn decode_option_bool(bytes: &[u8]) -> Result<Option<bool>, Error> {
    match decode(bytes, ScalarType::Optional(PrimitiveType::Bool), Trailing::Allow)? {
        ScalarValue::Optional(None) => Ok(None),
        ScalarValue::Optional(Some(Primitive::Bool(v))) => Ok(Some(v)),
        other => panic!("an optional boolean was asked for, not {:?}", other),
    }
}

#[test]
fn opt_bool_is_broken() {
    // a present `true` takes two bytes: the discriminant, then the boolean
    let v = vec![1, 1];
    assert_eq!(decode_option_bool(&v[..]).unwrap(), Some(true));

    let v = vec![0];
    assert_eq!(decode_option_bool(&v[..]).unwrap(), None);

    // bytes behind the value are not looked at
    let v = vec![0, 0, 0, 0];
    assert_eq!(decode_option_bool(&v[..]).unwrap(), None);

    // the one-byte compact forms are no values here
    let v = vec![1];
    assert!(decode_option_bool(&v[..]).is_err());

    let v = vec![2];
    assert!(decode_option_bool(&v[..]).is_err())
}

#[test]
fn option_bool_follows_the_strict_scheme() {
    assert_eq!(decode_option_bool(&[0]), Ok(None));
    assert_eq!(decode_option_bool(&[1, 0]), Ok(Some(false)));
    assert_eq!(decode_option_bool(&[1, 1]), Ok(Some(true)));
    // the compact forms of `true` and `false`
    assert_eq!(decode_option_bool(&[1]), Err(Error::TruncatedInput));
    assert_eq!(decode_option_bool(&[2]), Err(Error::InvalidBooleanDiscriminant));
    assert_eq!(decode_option_bool(&[2, 1]), Err(Error::InvalidBooleanDiscriminant));
    // a present value that is no boolean
    assert_eq!(decode_option_bool(&[1, 2]), Err(Error::InvalidBooleanDiscriminant));
    assert_eq!(decode_option_bool(&[]), Err(Error::TruncatedInput));
}

#[test]
fn option_bool_with_the_whole_buffer() {
    let ty = ScalarType::Optional(PrimitiveType::Bool);
    assert_eq!(
        decode(&[1, 1], ty, Trailing::Reject),
        Ok(ScalarValue::Optional(Some(Primitive::Bool(true))))
    );
    assert_eq!(decode(&[0], ty, Trailing::Reject), Ok(ScalarValue::Optional(None)));
    assert_eq!(decode(&[0, 0, 0, 0], ty, Trailing::Reject), Err(Error::TrailingBytes));
    assert_eq!(decode(&[1, 1, 1], ty, Trailing::Reject), Err(Error::TrailingBytes));
    // a fault in the value comes before the bytes behind it
    assert_eq!(decode(&[1, 2, 0], ty, Trailing::Reject), Err(Error::InvalidBooleanDiscriminant));
    assert_eq!(decode(&[2, 0, 0], ty, Trailing::Reject), Err(Error::InvalidBooleanDiscriminant));
}

#[test]
fn parse_opt_bool_compares_with_what_is_described() {
    assert_eq!(parse_opt_bool(&[1, 1], true, true), Ok(true));
    assert_eq!(parse_opt_bool(&[1, 1], false, true), Ok(false));
    assert_eq!(parse_opt_bool(&[1, 0], false, true), Ok(true));
    assert_eq!(parse_opt_bool(&[1, 1], true, false), Ok(false));
    // for an absent value the inner value does not count
    assert_eq!(parse_opt_bool(&[0], true, false), Ok(true));
    assert_eq!(parse_opt_bool(&[0], false, false), Ok(true));
    assert_eq!(parse_opt_bool(&[0], true, true), Ok(false));
    assert_eq!(parse_opt_bool(&[0, 9, 9], false, false), Ok(true));
    assert_eq!(parse_opt_bool(&[1], true, true), Err(Error::TruncatedInput));
    assert_eq!(parse_opt_bool(&[2], true, true), Err(Error::InvalidBooleanDiscriminant));
    assert_eq!(parse_opt_bool(&[], true, false), Err(Error::TruncatedInput));
}
