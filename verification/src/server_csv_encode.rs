//! Canonical `orna.server-csv-encode` artefact format, version 1.
//!
//! ```text
//! magic[8] = ORNACSV\0
//! version: u32 big-endian = 1
//! parameter: ParameterId[16]
//! value type: TypeId[16]
//! ```
//!
//! The parameter is the one of `std.csv.encode` and the value type is the
//! resolved `std.data.Rows`.
//! Both are checked against the identities that the caller expects when an
//! artefact is decoded. The format holds no SQL text, expression tree, function
//! name, default, object identifier, predicate, cast or value literal.

use vstd::prelude::*;

use crate::artifact_codec::viewed;
use crate::identity::{ParameterId, TypeId};
use crate::parameter_artifact::{
    decoded_parameter, law_parameter_canonical, law_parameter_prefix_truncated, law_parameter_round_trip,
    law_parameter_trailing_refused, parameter_bytes, ParameterArtifactCodecError,
};
use crate::text::{decimal, identity_text};
use crate::text::{with_identities, with_number, with_numbers, with_text};

verus! {

/// The stable public identity of this artefact format.
pub const FORMAT_IDENTITY: &'static str = "orna.server-csv-encode";

/// The Orna language version whose semantics this artefact version executes.
pub const LANGUAGE_VERSION_IDENTITY: &'static str = "orna.language/1";

/// The version used by all server csv-encode artefacts.
pub const FORMAT_VERSION: u32 = 1;

/// The exact first eight bytes of every server csv-encode artefact:
/// `ORNACSV` and a zero byte.
pub const MAGIC: [u8; 8] = [79, 82, 78, 65, 67, 83, 86, 0];

/// The exact encoded length in bytes of one version-1 artefact.
pub const PAYLOAD_LEN: usize = 44;

/// The maximum accepted encoded artefact size.
pub const MAX_ARTIFACT_BYTES: usize = 16 * 1024 * 1024;

/// A checked server csv-encode artefact: exactly the pinned parameter identity
/// and the resolved value type identity.
#[derive(Clone, Copy, Debug, PartialEq, Eq, Structural)]
pub struct CsvEncodePlan {
    pub parameter: ParameterId,
    pub value_type: TypeId,
}

/// An error returned for an invalid or unsupported server csv-encode artefact.
#[non_exhaustive]
#[derive(Clone, Debug, Eq, PartialEq)]
pub enum CsvEncodePlanError {
    /// The artefact does not start with the csv-encode magic bytes.
    InvalidMagic,
    /// The artefact version is not supported.
    UnsupportedVersion(u32),
    /// The artefact pins a parameter identity other than the expected one.
    UnexpectedParameter {
        /// The identity pinned by the artefact.
        actual: ParameterId,
        /// The identity required by the pinned function signature.
        expected: ParameterId,
    },
    /// The artefact pins a value type identity other than the expected one.
    UnexpectedType {
        /// The identity pinned by the artefact.
        actual: TypeId,
        /// The identity required by the pinned function signature.
        expected: TypeId,
    },
    /// The encoded artefact exceeds the format byte limit.
    ArtifactSizeLimit {
        /// The supplied artefact size.
        size: usize,
        /// The largest accepted artefact size.
        maximum: usize,
    },
    /// The artefact ends before a complete value can be read.
    Truncated,
    /// The artefact contains bytes after a complete value.
    TrailingBytes,
    /// A decoded or supplied model violates an internal invariant.
    Internal(&'static str),
}

impl CsvEncodePlanError {
    /// The text of this error.
    pub open spec fn text(self) -> Seq<char> {
        match self {
            CsvEncodePlanError::InvalidMagic => "invalid orna.server-csv-encode artifact magic"@,
            CsvEncodePlanError::UnsupportedVersion(version) => {
                "unsupported orna.server-csv-encode artifact version "@ + decimal(version as nat)
            },
            CsvEncodePlanError::UnexpectedParameter { actual, expected } => {
                "server csv-encode artifact pins parameter "@ + identity_text(actual.0) + ", expected "@
                    + identity_text(expected.0)
            },
            CsvEncodePlanError::UnexpectedType { actual, expected } => {
                "server csv-encode artifact pins value type "@ + identity_text(actual.0) + ", expected "@
                    + identity_text(expected.0)
            },
            CsvEncodePlanError::ArtifactSizeLimit { size, maximum } => {
                "orna.server-csv-encode artifact size "@ + decimal(size as nat) + " exceeds the limit "@
                    + decimal(maximum as nat)
            },
            CsvEncodePlanError::Truncated => "truncated orna.server-csv-encode artifact"@,
            CsvEncodePlanError::TrailingBytes => "trailing bytes after orna.server-csv-encode artifact"@,
            CsvEncodePlanError::Internal(reason) => "invalid server csv-encode model: "@ + reason@,
        }
    }

    /// Renders this error for a reader.
    pub fn message(&self) -> (message: String)
        ensures
            message@ == self.text(),
    {
        match self {
            CsvEncodePlanError::InvalidMagic => "invalid orna.server-csv-encode artifact magic".to_owned(),
            CsvEncodePlanError::UnsupportedVersion(version) => {
                with_number("unsupported orna.server-csv-encode artifact version ", *version as u64)
            },
            CsvEncodePlanError::UnexpectedParameter { actual, expected } => {
                with_identities("server csv-encode artifact pins parameter ", actual.0, ", expected ", expected.0)
            },
            CsvEncodePlanError::UnexpectedType { actual, expected } => {
                with_identities("server csv-encode artifact pins value type ", actual.0, ", expected ", expected.0)
            },
            CsvEncodePlanError::ArtifactSizeLimit { size, maximum } => {
                with_numbers(
                    "orna.server-csv-encode artifact size ",
                    *size as u64,
                    " exceeds the limit ",
                    *maximum as u64,
                )
            },
            CsvEncodePlanError::Truncated => "truncated orna.server-csv-encode artifact".to_owned(),
            CsvEncodePlanError::TrailingBytes => "trailing bytes after orna.server-csv-encode artifact".to_owned(),
            CsvEncodePlanError::Internal(reason) => with_text("invalid server csv-encode model: ", reason),
        }
    }
}

/// The failure of this format that a codec failure stands for.
pub open spec fn codec_failure(error: ParameterArtifactCodecError) -> CsvEncodePlanError {
    match error {
        ParameterArtifactCodecError::InvalidMagic => CsvEncodePlanError::InvalidMagic,
        ParameterArtifactCodecError::UnsupportedVersion(version) => CsvEncodePlanError::UnsupportedVersion(version),
        ParameterArtifactCodecError::UnexpectedParameter { actual, expected } => CsvEncodePlanError::UnexpectedParameter {
            actual,
            expected,
        },
        ParameterArtifactCodecError::UnexpectedType { actual, expected } => CsvEncodePlanError::UnexpectedType {
            actual,
            expected,
        },
        ParameterArtifactCodecError::ArtifactSizeLimit { size, maximum } => CsvEncodePlanError::ArtifactSizeLimit {
            size,
            maximum,
        },
        ParameterArtifactCodecError::Truncated => CsvEncodePlanError::Truncated,
        ParameterArtifactCodecError::TrailingBytes => CsvEncodePlanError::TrailingBytes,
    }
}

/// The complete version-1 artefact of a plan.
pub open spec fn csv_plan_bytes(plan: CsvEncodePlan) -> Seq<u8> {
    parameter_bytes(MAGIC@, FORMAT_VERSION, plan.parameter, plan.value_type)
}

/// What decoding `bytes` against the expected identities gives.
pub open spec fn decoded_csv_plan(bytes: Seq<u8>, expected_parameter: ParameterId, expected_type: TypeId) -> Result<
    CsvEncodePlan,
    CsvEncodePlanError,
> {
    match decoded_parameter(MAGIC@, FORMAT_VERSION, bytes, expected_parameter, expected_type) {
        Ok(pinned) => Ok(CsvEncodePlan { parameter: pinned.parameter, value_type: pinned.value_type }),
        Err(error) => Err(codec_failure(error)),
    }
}

/// Decoding an encoded plan against its own identities gives that plan back, and
/// every artefact has the one length.
pub proof fn law_csv_plan_round_trip(plan: CsvEncodePlan)
    ensures
        decoded_csv_plan(csv_plan_bytes(plan), plan.parameter, plan.value_type) == Ok::<
            CsvEncodePlan,
            CsvEncodePlanError,
        >(plan),
        csv_plan_bytes(plan).len() == PAYLOAD_LEN,
{
    law_parameter_round_trip(MAGIC@, FORMAT_VERSION, plan.parameter, plan.value_type);
}

/// An artefact that decodes pins the expected identities and is the encoding of
/// what it decodes to.
pub proof fn law_csv_plan_canonical(bytes: Seq<u8>, expected_parameter: ParameterId, expected_type: TypeId)
    ensures
        decoded_csv_plan(bytes, expected_parameter, expected_type) matches Ok(plan) ==> {
            &&& plan == (CsvEncodePlan { parameter: expected_parameter, value_type: expected_type })
            &&& csv_plan_bytes(plan) == bytes
        },
{
    law_parameter_canonical(MAGIC@, FORMAT_VERSION, bytes, expected_parameter, expected_type);
}

/// Every artefact that is cut short is refused as truncated.
pub proof fn law_csv_plan_prefix_truncated(plan: CsvEncodePlan, length: nat)
    requires
        length < PAYLOAD_LEN,
    ensures
        decoded_csv_plan(csv_plan_bytes(plan).take(length as int), plan.parameter, plan.value_type) == Err::<
            CsvEncodePlan,
            _,
        >(CsvEncodePlanError::Truncated),
{
    law_parameter_prefix_truncated(MAGIC@, FORMAT_VERSION, plan.parameter, plan.value_type, length);
}

/// Every artefact with bytes behind it is refused for them.
pub proof fn law_csv_plan_trailing_refused(plan: CsvEncodePlan, trailing: Seq<u8>)
    requires
        0 < trailing.len() <= MAX_ARTIFACT_BYTES - PAYLOAD_LEN,
    ensures
        decoded_csv_plan(csv_plan_bytes(plan) + trailing, plan.parameter, plan.value_type) == Err::<
            CsvEncodePlan,
            _,
        >(CsvEncodePlanError::TrailingBytes),
{
    law_parameter_trailing_refused(MAGIC@, FORMAT_VERSION, plan.parameter, plan.value_type, trailing);
}

impl CsvEncodePlanError {
    /// Maps a codec failure to the failure of this format.
    fn from_codec(error: ParameterArtifactCodecError) -> (mapped: CsvEncodePlanError)
        ensures
            mapped == codec_failure(error),
    {
        match error {
            ParameterArtifactCodecError::InvalidMagic => CsvEncodePlanError::InvalidMagic,
            ParameterArtifactCodecError::UnsupportedVersion(version) => {
                CsvEncodePlanError::UnsupportedVersion(version)
            },
            ParameterArtifactCodecError::UnexpectedParameter { actual, expected } => CsvEncodePlanError::UnexpectedParameter {
                actual,
                expected,
            },
            ParameterArtifactCodecError::UnexpectedType { actual, expected } => CsvEncodePlanError::UnexpectedType {
                actual,
                expected,
            },
            ParameterArtifactCodecError::ArtifactSizeLimit { size, maximum } => CsvEncodePlanError::ArtifactSizeLimit {
                size,
                maximum,
            },
            ParameterArtifactCodecError::Truncated => CsvEncodePlanError::Truncated,
            ParameterArtifactCodecError::TrailingBytes => CsvEncodePlanError::TrailingBytes,
        }
    }
}

impl CsvEncodePlan {
    /// Builds a checked server csv-encode model. Any two identities form one;
    /// they are checked against a signature when an artefact is decoded.
    pub fn new(parameter: ParameterId, value_type: TypeId) -> (result: Result<CsvEncodePlan, CsvEncodePlanError>)
        ensures
            result == Ok::<CsvEncodePlan, CsvEncodePlanError>(CsvEncodePlan { parameter, value_type }),
    {
        Ok(CsvEncodePlan { parameter, value_type })
    }

    /// Returns the pinned parameter identity.
    pub fn parameter(&self) -> (parameter: ParameterId)
        ensures
            parameter == self.parameter,
    {
        self.parameter
    }

    /// Returns the resolved value type identity.
    pub fn value_type(&self) -> (value_type: TypeId)
        ensures
            value_type == self.value_type,
    {
        self.value_type
    }

    /// Encodes this model into the canonical version-1 artefact bytes.
    pub fn encode(&self) -> (result: Result<Vec<u8>, CsvEncodePlanError>)
        ensures
            viewed(result) == Ok::<Seq<u8>, CsvEncodePlanError>(csv_plan_bytes(*self)),
    {
        Ok(crate::parameter_artifact::encode(MAGIC, FORMAT_VERSION, self.parameter, self.value_type))
    }

    /// Decodes exactly one canonical version-1 artefact.
    ///
    /// The decoder consumes all bytes and rejects a wrong magic, a wrong
    /// version, truncation, excess bytes, a parameter identity other than
    /// `expected_parameter`, and a value type identity other than
    /// `expected_type`.
    pub fn decode(bytes: &[u8], expected_parameter: ParameterId, expected_type: TypeId) -> (result: Result<
        CsvEncodePlan,
        CsvEncodePlanError,
    >)
        ensures
            result == decoded_csv_plan(bytes@, expected_parameter, expected_type),
    {
        match crate::parameter_artifact::decode(MAGIC, FORMAT_VERSION, bytes, expected_parameter, expected_type) {
            Ok(pinned) => Ok(CsvEncodePlan { parameter: pinned.parameter(), value_type: pinned.value_type() }),
            Err(error) => Err(CsvEncodePlanError::from_codec(error)),
        }
    }
}

} // verus!
