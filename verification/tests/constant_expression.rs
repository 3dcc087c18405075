use orna_artifact::constant_expression::{
    ConstantExpression, ConstantExpressionError, FORMAT_VERSION, MAGIC, MAX_ARTIFACT_BYTES,
};


#[test]
fn encodes_golden_values_and_round_trips_every_kind() {
    let null = ConstantExpression::Null.encode().unwrap();
    assert_eq!(
        null,
        [
            MAGIC.as_slice(),
            FORMAT_VERSION.to_be_bytes().as_slice(),
            &[1],
        ]
        .concat()
    );

    for value in [
        ConstantExpression::Null,
        ConstantExpression::Boolean(false),
        ConstantExpression::Boolean(true),
        ConstantExpression::Integer(i64::MIN),
        ConstantExpression::Integer(42),
        ConstantExpression::Text(String::new()),
        ConstantExpression::Text("cafe\u{301}\r\n".to_owned()),
    ] {
        let encoded = value.encode().unwrap();
        assert_eq!(ConstantExpression::decode(&encoded), Ok(value));
    }
}

#[test]
fn uses_big_endian_integer_and_utf8_text_payloads() {
    let integer = ConstantExpression::Integer(0x0102_0304_0506_0708)
        .encode()
        .unwrap();
    assert_eq!(&integer[13..], &0x0102_0304_0506_0708_i64.to_be_bytes());

    let text = ConstantExpression::Text("é".to_owned()).encode().unwrap();
    assert_eq!(&text[13..17], &2_u32.to_be_bytes());
    assert_eq!(&text[17..], "é".as_bytes());
}

#[test]
fn rejects_corruption_truncation_and_trailing_bytes() {
    let valid = ConstantExpression::Boolean(true).encode().unwrap();

    let mut bad_magic = valid.clone();
    bad_magic[0] ^= 0xff;
    assert_eq!(
        ConstantExpression::decode(&bad_magic),
        Err(ConstantExpressionError::InvalidMagic)
    );

    let mut bad_version = valid.clone();
    bad_version[8..12].copy_from_slice(&2_u32.to_be_bytes());
    assert_eq!(
        ConstantExpression::decode(&bad_version),
        Err(ConstantExpressionError::UnsupportedVersion(2))
    );

    let mut bad_tag = valid.clone();
    bad_tag[12] = 9;
    assert_eq!(
        ConstantExpression::decode(&bad_tag),
        Err(ConstantExpressionError::InvalidKindTag(9))
    );

    let mut bad_boolean = valid.clone();
    bad_boolean[13] = 2;
    assert_eq!(
        ConstantExpression::decode(&bad_boolean),
        Err(ConstantExpressionError::InvalidBoolean(2))
    );

    assert_eq!(
        ConstantExpression::decode(&valid[..valid.len() - 1]),
        Err(ConstantExpressionError::Truncated)
    );
    let mut trailing = valid;
    trailing.push(0);
    assert_eq!(
        ConstantExpression::decode(&trailing),
        Err(ConstantExpressionError::TrailingBytes)
    );
}

#[test]
fn rejects_invalid_utf8_and_oversized_artifacts() {
    let invalid_utf8 = [
        MAGIC.as_slice(),
        FORMAT_VERSION.to_be_bytes().as_slice(),
        &[4],
        1_u32.to_be_bytes().as_slice(),
        &[0xff],
    ]
    .concat();
    assert_eq!(
        ConstantExpression::decode(&invalid_utf8),
        Err(ConstantExpressionError::InvalidUtf8)
    );

    let oversized = vec![0; MAX_ARTIFACT_BYTES + 1];
    assert_eq!(
        ConstantExpression::decode(&oversized),
        Err(ConstantExpressionError::ArtifactSizeLimit {
            size: MAX_ARTIFACT_BYTES + 1,
            maximum: MAX_ARTIFACT_BYTES,
        })
    );

    let oversized_text = ConstantExpression::Text("x".repeat(MAX_ARTIFACT_BYTES));
    assert_eq!(
        oversized_text.encode(),
        Err(ConstantExpressionError::ArtifactSizeLimit {
            size: MAX_ARTIFACT_BYTES + 17,
            maximum: MAX_ARTIFACT_BYTES,
        })
    );
}
