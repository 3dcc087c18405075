use orna_artifact::identity::{ParameterId, TypeId};
use orna_artifact::server_csv_encode::{CsvEncodePlan, CsvEncodePlanError, MAGIC, PAYLOAD_LEN};

fn parameter() -> ParameterId {
    ParameterId::from_bytes([0x13; 16])
}

fn rows_type() -> TypeId {
    TypeId::from_bytes([0x12; 16])
}

#[test]
fn encode_and_decode_round_trip_exactly() {
    let plan = CsvEncodePlan::new(parameter(), rows_type()).unwrap();
    let bytes = plan.encode().unwrap();
    assert_eq!(bytes.len(), PAYLOAD_LEN);
    assert_eq!(&bytes[..8], &MAGIC);
    let decoded = CsvEncodePlan::decode(&bytes, parameter(), rows_type()).unwrap();
    assert_eq!(decoded, plan);
}

#[test]
fn decode_rejects_wrong_magic_version_and_identities() {
    let plan = CsvEncodePlan::new(parameter(), rows_type()).unwrap();
    let mut bytes = plan.encode().unwrap();

    let mut wrong_magic = bytes.clone();
    wrong_magic[0] ^= 0xff;
    assert_eq!(
        CsvEncodePlan::decode(&wrong_magic, parameter(), rows_type()),
        Err(CsvEncodePlanError::InvalidMagic)
    );

    bytes[8..12].copy_from_slice(&2u32.to_be_bytes());
    assert_eq!(
        CsvEncodePlan::decode(&bytes, parameter(), rows_type()),
        Err(CsvEncodePlanError::UnsupportedVersion(2))
    );
    bytes[8..12].copy_from_slice(&1u32.to_be_bytes());

    let other = ParameterId::from_bytes([0x14; 16]);
    assert_eq!(
        CsvEncodePlan::decode(&bytes, other, rows_type()),
        Err(CsvEncodePlanError::UnexpectedParameter {
            actual: parameter(),
            expected: other
        })
    );

    let other_type = TypeId::from_bytes([0x11; 16]);
    assert_eq!(
        CsvEncodePlan::decode(&bytes, parameter(), other_type),
        Err(CsvEncodePlanError::UnexpectedType {
            actual: rows_type(),
            expected: other_type
        })
    );
}

#[test]
fn decode_rejects_truncation_and_trailing_bytes() {
    let plan = CsvEncodePlan::new(parameter(), rows_type()).unwrap();
    let bytes = plan.encode().unwrap();

    assert_eq!(
        CsvEncodePlan::decode(&bytes[..bytes.len() - 1], parameter(), rows_type()),
        Err(CsvEncodePlanError::Truncated)
    );

    let mut with_trailing = bytes.clone();
    with_trailing.push(0);
    assert_eq!(
        CsvEncodePlan::decode(&with_trailing, parameter(), rows_type()),
        Err(CsvEncodePlanError::TrailingBytes)
    );
}

#[test]
fn error_variants_display_without_panicking() {
    let errors = [
        CsvEncodePlanError::InvalidMagic,
        CsvEncodePlanError::UnsupportedVersion(2),
        CsvEncodePlanError::UnexpectedParameter {
            actual: parameter(),
            expected: ParameterId::from_bytes([0x14; 16]),
        },
        CsvEncodePlanError::UnexpectedType {
            actual: rows_type(),
            expected: TypeId::from_bytes([0x11; 16]),
        },
        CsvEncodePlanError::ArtifactSizeLimit {
            size: 100,
            maximum: 50,
        },
        CsvEncodePlanError::Truncated,
        CsvEncodePlanError::TrailingBytes,
        CsvEncodePlanError::Internal("test"),
    ];
    for error in errors {
        assert!(!error.message().is_empty());
    }
}
