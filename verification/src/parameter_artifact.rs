//! Shared codec for fixed server artefacts that pin one parameter and value
//! type.
//!
//! ```text
//! magic[8]
//! version: u32 big-endian
//! parameter: ParameterId[16]
//! value type: TypeId[16]
//! ```

use vstd::prelude::*;

use crate::artifact_codec::{lemma_bytes_read, lemma_identity_read, lemma_u32_read};
use crate::artifact_codec::{lemma_read_bytes, lemma_read_identity, lemma_read_u32};
use crate::artifact_codec::{read_bytes, read_identity, read_u32, u32_bytes};
use crate::artifact_codec::{same_bytes, Reader, Writer};
use crate::identity::{identity_bytes, ParameterId, TypeId};

verus! {

/// The exact encoded length of one artefact.
pub const PAYLOAD_LEN: usize = 8 + 4 + 16 + 16;

/// The maximum accepted encoded artefact size.
pub const MAX_ARTIFACT_BYTES: usize = 16 * 1024 * 1024;

/// The identities decoded from one canonical artefact.
#[derive(Clone, Copy, Debug, PartialEq, Eq, Structural)]
pub struct PinnedParameterArtifact {
    pub parameter: ParameterId,
    pub value_type: TypeId,
}

/// Format-neutral failures produced by the shared wire codec.
#[derive(Clone, Copy, Debug, PartialEq, Eq, Structural)]
pub enum ParameterArtifactCodecError {
    /// The artefact does not start with the magic bytes of its format.
    InvalidMagic,
    /// The artefact version is not supported.
    UnsupportedVersion(u32),
    /// The artefact pins a parameter identity other than the expected one.
    UnexpectedParameter {
        /// The identity pinned by the artefact.
        actual: ParameterId,
        /// The identity required by the pinned function signature.
        expected: ParameterId,
    },
    /// The artefact pins a value type identity other than the expected one.
    UnexpectedType {
        /// The identity pinned by the artefact.
        actual: TypeId,
        /// The identity required by the pinned function signature.
        expected: TypeId,
    },
    /// The encoded artefact exceeds the format byte limit.
    ArtifactSizeLimit {
        /// The supplied artefact size.
        size: usize,
        /// The largest accepted artefact size.
        maximum: usize,
    },
    /// The artefact ends before a complete value can be read.
    Truncated,
    /// The artefact contains bytes after a complete value.
    TrailingBytes,
}

impl PinnedParameterArtifact {
    /// Returns the pinned parameter identity.
    pub fn parameter(self) -> (parameter: ParameterId)
        ensures
            parameter == self.parameter,
    {
        self.parameter
    }

    /// Returns the pinned value type identity.
    pub fn value_type(self) -> (value_type: TypeId)
        ensures
            value_type == self.value_type,
    {
        self.value_type
    }
}

/// The complete artefact of a format.
pub open spec fn parameter_bytes(magic: Seq<u8>, version: u32, parameter: ParameterId, value_type: TypeId) -> Seq<u8> {
    magic + (u32_bytes(version) + (identity_bytes(parameter.0) + identity_bytes(value_type.0)))
}

/// What decoding `bytes` against the expected identities gives.
pub open spec fn decoded_parameter(
    magic: Seq<u8>,
    version: u32,
    bytes: Seq<u8>,
    expected_parameter: ParameterId,
    expected_type: TypeId,
) -> Result<PinnedParameterArtifact, ParameterArtifactCodecError> {
    if bytes.len() > MAX_ARTIFACT_BYTES {
        Err(
            ParameterArtifactCodecError::ArtifactSizeLimit {
                size: bytes.len() as usize,
                maximum: MAX_ARTIFACT_BYTES,
            },
        )
    } else {
        match read_bytes(bytes, 8) {
            None => Err(ParameterArtifactCodecError::Truncated),
            Some((found, rest)) => if found != magic {
                Err(ParameterArtifactCodecError::InvalidMagic)
            } else {
                match read_u32(rest) {
                    None => Err(ParameterArtifactCodecError::Truncated),
                    Some((declared, rest)) => if declared != version {
                        Err(ParameterArtifactCodecError::UnsupportedVersion(declared))
                    } else {
                        decoded_identities(rest, expected_parameter, expected_type)
                    },
                }
            },
        }
    }
}

/// The identities behind the version.
pub open spec fn decoded_identities(
    input: Seq<u8>,
    expected_parameter: ParameterId,
    expected_type: TypeId,
) -> Result<PinnedParameterArtifact, ParameterArtifactCodecError> {
    match read_identity(input) {
        None => Err(ParameterArtifactCodecError::Truncated),
        Some((parameter, rest)) => if ParameterId(parameter) != expected_parameter {
            Err(
                ParameterArtifactCodecError::UnexpectedParameter {
                    actual: ParameterId(parameter),
                    expected: expected_parameter,
                },
            )
        } else {
            match read_identity(rest) {
                None => Err(ParameterArtifactCodecError::Truncated),
                Some((value_type, rest)) => if TypeId(value_type) != expected_type {
                    Err(
                        ParameterArtifactCodecError::UnexpectedType {
                            actual: TypeId(value_type),
                            expected: expected_type,
                        },
                    )
                } else if rest.len() != 0 {
                    Err(ParameterArtifactCodecError::TrailingBytes)
                } else {
                    Ok(
                        PinnedParameterArtifact {
                            parameter: ParameterId(parameter),
                            value_type: TypeId(value_type),
                        },
                    )
                },
            }
        },
    }
}

/// Decoding an artefact against the identities that it pins gives them back, and
/// every artefact has the one length.
pub proof fn law_parameter_round_trip(magic: Seq<u8>, version: u32, parameter: ParameterId, value_type: TypeId)
    requires
        magic.len() == 8,
    ensures
        decoded_parameter(
            magic,
            version,
            parameter_bytes(magic, version, parameter, value_type),
            parameter,
            value_type,
        ) == Ok::<PinnedParameterArtifact, ParameterArtifactCodecError>(
            PinnedParameterArtifact { parameter, value_type },
        ),
        parameter_bytes(magic, version, parameter, value_type).len() == PAYLOAD_LEN,
{
    let identities = identity_bytes(parameter.0) + identity_bytes(value_type.0);
    lemma_read_bytes(magic, u32_bytes(version) + identities);
    lemma_read_u32(version, identities);
    lemma_read_identity(parameter.0, identity_bytes(value_type.0));
    lemma_read_identity(value_type.0, Seq::empty());
    assert(identity_bytes(value_type.0) + Seq::<u8>::empty() =~= identity_bytes(value_type.0));
}

/// An artefact that decodes pins the expected identities and is their encoding.
pub proof fn law_parameter_canonical(
    magic: Seq<u8>,
    version: u32,
    bytes: Seq<u8>,
    expected_parameter: ParameterId,
    expected_type: TypeId,
)
    ensures
        decoded_parameter(magic, version, bytes, expected_parameter, expected_type) matches Ok(pinned) ==> {
            &&& pinned == (PinnedParameterArtifact { parameter: expected_parameter, value_type: expected_type })
            &&& bytes == parameter_bytes(magic, version, expected_parameter, expected_type)
        },
{
    if decoded_parameter(magic, version, bytes, expected_parameter, expected_type) is Ok {
        lemma_bytes_read(bytes, 8);
        let after_magic = read_bytes(bytes, 8)->Some_0.1;
        lemma_u32_read(after_magic);
        let after_version = read_u32(after_magic)->Some_0.1;
        lemma_identity_read(after_version);
        let after_parameter = read_identity(after_version)->Some_0.1;
        lemma_identity_read(after_parameter);
        assert(bytes =~= parameter_bytes(magic, version, expected_parameter, expected_type));
    }
}

/// Every artefact that is cut short is refused as truncated.
pub proof fn law_parameter_prefix_truncated(
    magic: Seq<u8>,
    version: u32,
    parameter: ParameterId,
    value_type: TypeId,
    length: nat,
)
    requires
        magic.len() == 8,
        length < PAYLOAD_LEN,
    ensures
        decoded_parameter(
            magic,
            version,
            parameter_bytes(magic, version, parameter, value_type).take(length as int),
            parameter,
            value_type,
        ) == Err::<PinnedParameterArtifact, _>(ParameterArtifactCodecError::Truncated),
{
    let whole = parameter_bytes(magic, version, parameter, value_type);
    let bytes = whole.take(length as int);
    law_parameter_round_trip(magic, version, parameter, value_type);
    lemma_read_u32(version, Seq::empty());
    lemma_read_identity(parameter.0, Seq::empty());
    if length >= 8 {
        let after_magic = bytes.skip(8);
        assert(bytes.take(8) =~= magic);
        if length >= 12 {
            assert(after_magic =~= u32_bytes(version) + after_magic.skip(4));
            lemma_read_u32(version, after_magic.skip(4));
            let after_version = after_magic.skip(4);
            if length >= 28 {
                assert(after_version =~= identity_bytes(parameter.0) + after_version.skip(16));
                lemma_read_identity(parameter.0, after_version.skip(16));
            }
        }
    }
}

/// Every artefact with bytes behind it is refused for them.
pub proof fn law_parameter_trailing_refused(
    magic: Seq<u8>,
    version: u32,
    parameter: ParameterId,
    value_type: TypeId,
    trailing: Seq<u8>,
)
    requires
        magic.len() == 8,
        0 < trailing.len() <= MAX_ARTIFACT_BYTES - PAYLOAD_LEN,
    ensures
        decoded_parameter(
            magic,
            version,
            parameter_bytes(magic, version, parameter, value_type) + trailing,
            parameter,
            value_type,
        ) == Err::<PinnedParameterArtifact, _>(ParameterArtifactCodecError::TrailingBytes),
{
    let whole = parameter_bytes(magic, version, parameter, value_type);
    let after_parameter = identity_bytes(value_type.0) + trailing;
    let after_version = identity_bytes(parameter.0) + after_parameter;
    law_parameter_round_trip(magic, version, parameter, value_type);
    assert(whole + trailing =~= magic + (u32_bytes(version) + after_version));
    lemma_read_bytes(magic, u32_bytes(version) + after_version);
    lemma_read_u32(version, after_version);
    lemma_read_identity(parameter.0, after_parameter);
    lemma_read_identity(value_type.0, trailing);
}

/// Encodes the identities of a format. The one length keeps the size limit.
pub fn encode(magic: [u8; 8], version: u32, parameter: ParameterId, value_type: TypeId) -> (bytes: Vec<u8>)
    ensures
        bytes@ == parameter_bytes(magic@, version, parameter, value_type),
{
    let mut writer = Writer::with_capacity(PAYLOAD_LEN);
    writer.bytes(magic.as_slice());
    writer.u32(version);
    writer.parameter_id(parameter);
    writer.type_id(value_type);
    assert(writer@ =~= parameter_bytes(magic@, version, parameter, value_type));
    writer.finish()
}

/// Decodes exactly one artefact of a format against the expected identities.
pub fn decode(
    magic: [u8; 8],
    version: u32,
    bytes: &[u8],
    expected_parameter: ParameterId,
    expected_type: TypeId,
) -> (result: Result<PinnedParameterArtifact, ParameterArtifactCodecError>)
    ensures
        result == decoded_parameter(magic@, version, bytes@, expected_parameter, expected_type),
{
    validate_artifact_size(bytes.len())?;
    let mut reader = Reader::new(bytes);
    let found = match reader.take(8) {
        Ok(found) => found,
        Err(_) => return Err(ParameterArtifactCodecError::Truncated),
    };
    if !same_bytes(found, magic.as_slice()) {
        return Err(ParameterArtifactCodecError::InvalidMagic);
    }
    let declared: u32 = match reader.u32() {
        Ok(declared) => declared,
        Err(_) => return Err(ParameterArtifactCodecError::Truncated),
    };
    if declared != version {
        return Err(ParameterArtifactCodecError::UnsupportedVersion(declared));
    }
    let parameter = match reader.parameter_id() {
        Ok(parameter) => parameter,
        Err(_) => return Err(ParameterArtifactCodecError::Truncated),
    };
    if parameter != expected_parameter {
        return Err(
            ParameterArtifactCodecError::UnexpectedParameter { actual: parameter, expected: expected_parameter },
        );
    }
    let value_type = match reader.type_id() {
        Ok(value_type) => value_type,
        Err(_) => return Err(ParameterArtifactCodecError::Truncated),
    };
    if value_type != expected_type {
        return Err(ParameterArtifactCodecError::UnexpectedType { actual: value_type, expected: expected_type });
    }
    match reader.require_finished() {
        Ok(()) => Ok(PinnedParameterArtifact { parameter, value_type }),
        Err(_) => Err(ParameterArtifactCodecError::TrailingBytes),
    }
}

/// Refuses an artefact over the size limit.
fn validate_artifact_size(size: usize) -> (result: Result<(), ParameterArtifactCodecError>)
    ensures
        result == if size > MAX_ARTIFACT_BYTES {
            Err::<(), ParameterArtifactCodecError>(
                ParameterArtifactCodecError::ArtifactSizeLimit { size, maximum: MAX_ARTIFACT_BYTES },
            )
        } else {
            Ok(())
        },
{
    if size > MAX_ARTIFACT_BYTES {
        Err(ParameterArtifactCodecError::ArtifactSizeLimit { size, maximum: MAX_ARTIFACT_BYTES })
    } else {
        Ok(())
    }
}

} // verus!
