use orna_artifact::identity::{ParameterId, TypeId};
use orna_artifact::server_json_encode::{
    JsonEncodePlan, JsonEncodePlanError, MAX_ARTIFACT_BYTES, PAYLOAD_LEN,
};

/// The fixed `std.json.encode.p_value` parameter identity: `...11`.
const PARAMETER: ParameterId =
    ParameterId(u128::from_be_bytes([0, 0, 0, 0, 0, 0, 0, 0, 0, 0, 0, 0, 0, 0, 0, 0x11]));
const OTHER_PARAMETER: ParameterId =
    ParameterId(u128::from_be_bytes([0, 0, 0, 0, 0, 0, 0, 0, 0, 0, 0, 0, 0, 0, 0, 0x21]));
/// The resolved `std.json.Value` type identity: `...11`.
const VALUE_TYPE: TypeId =
    TypeId(u128::from_be_bytes([0, 0, 0, 0, 0, 0, 0, 0, 0, 0, 0, 0, 0, 0, 0, 0x11]));
const OTHER_TYPE: TypeId =
    TypeId(u128::from_be_bytes([0, 0, 0, 0, 0, 0, 0, 0, 0, 0, 0, 0, 0, 0, 0, 0x22]));

/// The exact canonical version-1 payload.
const CANONICAL: [u8; PAYLOAD_LEN] = [
    // bytes 0..8: ASCII `ORNAJE\0\0`
    b'O', b'R', b'N', b'A', b'J', b'E', 0, 0,
    // bytes 8..12: u32 big-endian format version 1
    0, 0, 0, 1, // bytes 12..28: raw `ParameterId` `...11`
    0, 0, 0, 0, 0, 0, 0, 0, 0, 0, 0, 0, 0, 0, 0, 0x11,
    // bytes 28..44: raw resolved `std.json.Value` `TypeId` `...11`
    0, 0, 0, 0, 0, 0, 0, 0, 0, 0, 0, 0, 0, 0, 0, 0x11,
];

#[test]
fn round_trip_is_exact_canonical_payload() {
    let plan = JsonEncodePlan::new(PARAMETER, VALUE_TYPE)
        .expect("any opaque identities form a valid model");
    assert_eq!(plan.parameter(), PARAMETER);
    assert_eq!(plan.value_type(), VALUE_TYPE);

    let encoded = plan.encode().expect("canonical model encodes");
    assert_eq!(encoded.len(), PAYLOAD_LEN);
    assert_eq!(encoded, CANONICAL);

    let decoded = JsonEncodePlan::decode(&encoded, PARAMETER, VALUE_TYPE)
        .expect("canonical payload decodes with pinned identities");
    assert_eq!(decoded, plan);
}

#[test]
fn decode_rejects_wrong_magic() {
    let mut bytes = CANONICAL;
    bytes[0] = b'X';
    assert_eq!(
        JsonEncodePlan::decode(&bytes, PARAMETER, VALUE_TYPE),
        Err(JsonEncodePlanError::InvalidMagic)
    );

    let mut bytes = CANONICAL;
    bytes[7] = b'X';
    assert_eq!(
        JsonEncodePlan::decode(&bytes, PARAMETER, VALUE_TYPE),
        Err(JsonEncodePlanError::InvalidMagic)
    );
}

#[test]
fn decode_rejects_wrong_version() {
    let mut bytes = CANONICAL;
    bytes[11] = 2;
    assert_eq!(
        JsonEncodePlan::decode(&bytes, PARAMETER, VALUE_TYPE),
        Err(JsonEncodePlanError::UnsupportedVersion(2))
    );

    let mut bytes = CANONICAL;
    bytes[8..12].copy_from_slice(&[0, 0, 0, 0]);
    assert_eq!(
        JsonEncodePlan::decode(&bytes, PARAMETER, VALUE_TYPE),
        Err(JsonEncodePlanError::UnsupportedVersion(0))
    );
}

#[test]
fn decode_rejects_truncation_at_every_prefix() {
    for length in 0..PAYLOAD_LEN {
        assert_eq!(
            JsonEncodePlan::decode(&CANONICAL[..length], PARAMETER, VALUE_TYPE),
            Err(JsonEncodePlanError::Truncated),
            "prefix length {length} must be truncated"
        );
    }
}

#[test]
fn decode_rejects_excess_bytes() {
    let mut bytes = Vec::from(CANONICAL);
    bytes.push(0);
    assert_eq!(
        JsonEncodePlan::decode(&bytes, PARAMETER, VALUE_TYPE),
        Err(JsonEncodePlanError::TrailingBytes)
    );

    let mut bytes = Vec::from(CANONICAL);
    bytes.extend_from_slice(&[1, 2, 3]);
    assert_eq!(
        JsonEncodePlan::decode(&bytes, PARAMETER, VALUE_TYPE),
        Err(JsonEncodePlanError::TrailingBytes)
    );
}

#[test]
fn decode_rejects_wrong_parameter_identity() {
    let mut bytes = CANONICAL;
    bytes[27] = 0x21;
    assert_eq!(
        JsonEncodePlan::decode(&bytes, PARAMETER, VALUE_TYPE),
        Err(JsonEncodePlanError::UnexpectedParameter {
            actual: OTHER_PARAMETER,
            expected: PARAMETER,
        })
    );
}

#[test]
fn decode_rejects_wrong_type_identity() {
    let mut bytes = CANONICAL;
    bytes[43] = 0x22;
    assert_eq!(
        JsonEncodePlan::decode(&bytes, PARAMETER, VALUE_TYPE),
        Err(JsonEncodePlanError::UnexpectedType {
            actual: OTHER_TYPE,
            expected: VALUE_TYPE,
        })
    );
}

#[test]
fn decode_rejects_size_limit() {
    assert_eq!(
        JsonEncodePlan::decode(&vec![0; MAX_ARTIFACT_BYTES + 1], PARAMETER, VALUE_TYPE),
        Err(JsonEncodePlanError::ArtifactSizeLimit {
            size: MAX_ARTIFACT_BYTES + 1,
            maximum: MAX_ARTIFACT_BYTES,
        })
    );
}

#[test]
fn error_display_messages_are_stable() {
    let messages = [
        (
            JsonEncodePlanError::InvalidMagic,
            "invalid orna.server-json-encode artifact magic",
        ),
        (
            JsonEncodePlanError::UnsupportedVersion(2),
            "unsupported orna.server-json-encode artifact version 2",
        ),
        (
            JsonEncodePlanError::Truncated,
            "truncated orna.server-json-encode artifact",
        ),
        (
            JsonEncodePlanError::TrailingBytes,
            "trailing bytes after orna.server-json-encode artifact",
        ),
        (
            JsonEncodePlanError::Internal("unreachable"),
            "invalid server json-encode model: unreachable",
        ),
    ];
    for (error, message) in messages {
        assert_eq!(error.message(), message);
    }
    assert!(
        JsonEncodePlanError::UnexpectedParameter {
            actual: OTHER_PARAMETER,
            expected: PARAMETER,
        }
        .message()
        .contains("parameter")
    );
    assert!(
        JsonEncodePlanError::UnexpectedType {
            actual: OTHER_TYPE,
            expected: VALUE_TYPE,
        }
        .message()
        .contains("value type")
    );
    assert!(
        JsonEncodePlanError::ArtifactSizeLimit {
            size: MAX_ARTIFACT_BYTES + 1,
            maximum: MAX_ARTIFACT_BYTES,
        }
        .message()
        .contains("size")
    );
}
