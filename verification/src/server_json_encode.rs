//! Canonical `orna.server-json-encode` artefact format, version 1.
//!
//! ```text
//! magic[8] = ORNAJE\0\0
//! version: u32 big-endian = 1
//! parameter: ParameterId[16]
//! value type: TypeId[16]
//! ```
//!
//! The parameter is the one of `std.json.encode` and the value type is the
//! resolved `std.json.Value`.
//! Both are checked against the identities that the caller expects when an
//! artefact is decoded. The format holds no SQL text, expression tree, function
//! name, default, object identifier, predicate, cast or value literal.

use vstd::prelude::*;

use crate::artifact_codec::viewed;
use crate::identity::{ParameterId, TypeId};
use crate::parameter_artifact::{
    decoded_parameter, law_parameter_canonical, law_parameter_prefix_truncated, law_parameter_round_trip,
    law_parameter_trailing_refused, parameter_bytes, ParameterArtifactCodecError,
};
use crate::text::{decimal, identity_text};
use crate::text::{with_identities, with_number, with_numbers, with_text};

verus! {

/// The stable public identity of this artefact format.
pub const FORMAT_IDENTITY: &'static str = "orna.server-json-encode";

/// The Orna language version whose semantics this artefact version executes.
pub const LANGUAGE_VERSION_IDENTITY: &'static str = "orna.language/1";

/// The version used by all server json-encode artefacts.
pub const FORMAT_VERSION: u32 = 1;

/// The exact first eight bytes of every server json-encode artefact:
/// `ORNAJE` and two zero bytes.
pub const MAGIC: [u8; 8] = [79, 82, 78, 65, 74, 69, 0, 0];

/// The exact encoded length in bytes of one version-1 artefact.
pub const PAYLOAD_LEN: usize = 44;

/// The maximum accepted encoded artefact size.
pub const MAX_ARTIFACT_BYTES: usize = 16 * 1024 * 1024;

/// A checked server json-encode artefact: exactly the pinned parameter identity
/// and the resolved value type identity.
#[derive(Clone, Copy, Debug, PartialEq, Eq, Structural)]
pub struct JsonEncodePlan {
    pub parameter: ParameterId,
    pub value_type: TypeId,
}

/// An error returned for an invalid or unsupported server json-encode artefact.
#[non_exhaustive]
#[derive(Clone, Debug, Eq, PartialEq)]
pub enum JsonEncodePlanError {
    /// The artefact does not start with the json-encode magic bytes.
    InvalidMagic,
    /// The artefact version is not supported.
    UnsupportedVersion(u32),
    /// The artefact pins a parameter identity other than the expected one.
    UnexpectedParameter {
        /// The identity pinned by the artefact.
        actual: ParameterId,
        /// The identity required by the pinned function signature.
        expected: ParameterId,
    },
    /// The artefact pins a value type identity other than the expected one.
    UnexpectedType {
        /// The identity pinned by the artefact.
        actual: TypeId,
        /// The identity required by the pinned function signature.
        expected: TypeId,
    },
    /// The encoded artefact exceeds the format byte limit.
    ArtifactSizeLimit {
        /// The supplied artefact size.
        size: usize,
        /// The largest accepted artefact size.
        maximum: usize,
    },
    /// The artefact ends before a complete value can be read.
    Truncated,
    /// The artefact contains bytes after a complete value.
    TrailingBytes,
    /// A decoded or supplied model violates an internal invariant.
    Internal(&'static str),
}

impl JsonEncodePlanError {
    /// The text of this error.
    pub open spec fn text(self) -> Seq<char> {
        match self {
            JsonEncodePlanError::InvalidMagic => "invalid orna.server-json-encode artifact magic"@,
            JsonEncodePlanError::UnsupportedVersion(version) => {
                "unsupported orna.server-json-encode artifact version "@ + decimal(version as nat)
            },
            JsonEncodePlanError::UnexpectedParameter { actual, expected } => {
                "server json-encode artifact pins parameter "@ + identity_text(actual.0) + ", expected "@
                    + identity_text(expected.0)
            },
            JsonEncodePlanError::UnexpectedType { actual, expected } => {
                "server json-encode artifact pins value type "@ + identity_text(actual.0) + ", expected "@
                    + identity_text(expected.0)
            },
            JsonEncodePlanError::ArtifactSizeLimit { size, maximum } => {
                "orna.server-json-encode artifact size "@ + decimal(size as nat) + " exceeds the limit "@
                    + decimal(maximum as nat)
            },
            JsonEncodePlanError::Truncated => "truncated orna.server-json-encode artifact"@,
            JsonEncodePlanError::TrailingBytes => "trailing bytes after orna.server-json-encode artifact"@,
            JsonEncodePlanError::Internal(reason) => "invalid server json-encode model: "@ + reason@,
        }
    }

    /// Renders this error for a reader.
    pub fn message(&self) -> (message: String)
        ensures
            message@ == self.text(),
    {
        match self {
            JsonEncodePlanError::InvalidMagic => "invalid orna.server-json-encode artifact magic".to_owned(),
            JsonEncodePlanError::UnsupportedVersion(version) => {
                with_number("unsupported orna.server-json-encode artifact version ", *version as u64)
            },
            JsonEncodePlanError::UnexpectedParameter { actual, expected } => {
                with_identities("server json-encode artifact pins parameter ", actual.0, ", expected ", expected.0)
            },
            JsonEncodePlanError::UnexpectedType { actual, expected } => {
                with_identities("server json-encode artifact pins value type ", actual.0, ", expected ", expected.0)
            },
            JsonEncodePlanError::ArtifactSizeLimit { size, maximum } => {
                with_numbers(
                    "orna.server-json-encode artifact size ",
                    *size as u64,
                    " exceeds the limit ",
                    *maximum as u64,
                )
            },
            JsonEncodePlanError::Truncated => "truncated orna.server-json-encode artifact".to_owned(),
            JsonEncodePlanError::TrailingBytes => "trailing bytes after orna.server-json-encode artifact".to_owned(),
            JsonEncodePlanError::Internal(reason) => with_text("invalid server json-encode model: ", reason),
        }
    }
}

/// The failure of this format that a codec failure stands for.
pub open spec fn codec_failure(error: ParameterArtifactCodecError) -> JsonEncodePlanError {
    match error {
        ParameterArtifactCodecError::InvalidMagic => JsonEncodePlanError::InvalidMagic,
        ParameterArtifactCodecError::UnsupportedVersion(version) => JsonEncodePlanError::UnsupportedVersion(version),
        ParameterArtifactCodecError::UnexpectedParameter { actual, expected } => JsonEncodePlanError::UnexpectedParameter {
            actual,
            expected,
        },
        ParameterArtifactCodecError::UnexpectedType { actual, expected } => JsonEncodePlanError::UnexpectedType {
            actual,
            expected,
        },
        ParameterArtifactCodecError::ArtifactSizeLimit { size, maximum } => JsonEncodePlanError::ArtifactSizeLimit {
            size,
            maximum,
        },
        ParameterArtifactCodecError::Truncated => JsonEncodePlanError::Truncated,
        ParameterArtifactCodecError::TrailingBytes => JsonEncodePlanError::TrailingBytes,
    }
}

/// The complete version-1 artefact of a plan.
pub open spec fn json_plan_bytes(plan: JsonEncodePlan) -> Seq<u8> {
    parameter_bytes(MAGIC@, FORMAT_VERSION, plan.parameter, plan.value_type)
}

/// What decoding `bytes` against the expected identities gives.
pub open spec fn decoded_json_plan(bytes: Seq<u8>, expected_parameter: ParameterId, expected_type: TypeId) -> Result<
    JsonEncodePlan,
    JsonEncodePlanError,
> {
    match decoded_parameter(MAGIC@, FORMAT_VERSION, bytes, expected_parameter, expected_type) {
        Ok(pinned) => Ok(JsonEncodePlan { parameter: pinned.parameter, value_type: pinned.value_type }),
        Err(error) => Err(codec_failure(error)),
    }
}

/// Decoding an encoded plan against its own identities gives that plan back, and
/// every artefact has the one length.
pub proof fn law_json_plan_round_trip(plan: JsonEncodePlan)
    ensures
        decoded_json_plan(json_plan_bytes(plan), plan.parameter, plan.value_type) == Ok::<
            JsonEncodePlan,
            JsonEncodePlanError,
        >(plan),
        json_plan_bytes(plan).len() == PAYLOAD_LEN,
{
    law_parameter_round_trip(MAGIC@, FORMAT_VERSION, plan.parameter, plan.value_type);
}

/// An artefact that decodes pins the expected identities and is the encoding of
/// what it decodes to.
pub proof fn law_json_plan_canonical(bytes: Seq<u8>, expected_parameter: ParameterId, expected_type: TypeId)
    ensures
        decoded_json_plan(bytes, expected_parameter, expected_type) matches Ok(plan) ==> {
            &&& plan == (JsonEncodePlan { parameter: expected_parameter, value_type: expected_type })
            &&& json_plan_bytes(plan) == bytes
        },
{
    law_parameter_canonical(MAGIC@, FORMAT_VERSION, bytes, expected_parameter, expected_type);
}

/// Every artefact that is cut short is refused as truncated.
pub proof fn law_json_plan_prefix_truncated(plan: JsonEncodePlan, length: nat)
    requires
        length < PAYLOAD_LEN,
    ensures
        decoded_json_plan(json_plan_bytes(plan).take(length as int), plan.parameter, plan.value_type) == Err::<
            JsonEncodePlan,
            _,
        >(JsonEncodePlanError::Truncated),
{
    law_parameter_prefix_truncated(MAGIC@, FORMAT_VERSION, plan.parameter, plan.value_type, length);
}

/// Every artefact with bytes behind it is refused for them.
pub proof fn law_json_plan_trailing_refused(plan: JsonEncodePlan, trailing: Seq<u8>)
    requires
        0 < trailing.len() <= MAX_ARTIFACT_BYTES - PAYLOAD_LEN,
    ensures
        decoded_json_plan(json_plan_bytes(plan) + trailing, plan.parameter, plan.value_type) == Err::<
            JsonEncodePlan,
            _,
        >(JsonEncodePlanError::TrailingBytes),
{
    law_parameter_trailing_refused(MAGIC@, FORMAT_VERSION, plan.parameter, plan.value_type, trailing);
}

impl JsonEncodePlanError {
    /// Maps a codec failure to the failure of this format.
    fn from_codec(error: ParameterArtifactCodecError) -> (mapped: JsonEncodePlanError)
        ensures
            mapped == codec_failure(error),
    {
        match error {
            ParameterArtifactCodecError::InvalidMagic => JsonEncodePlanError::InvalidMagic,
            ParameterArtifactCodecError::UnsupportedVersion(version) => {
                JsonEncodePlanError::UnsupportedVersion(version)
            },
            ParameterArtifactCodecError::UnexpectedParameter { actual, expected } => JsonEncodePlanError::UnexpectedParameter {
                actual,
                expected,
            },
            ParameterArtifactCodecError::UnexpectedType { actual, expected } => JsonEncodePlanError::UnexpectedType {
                actual,
                expected,
            },
            ParameterArtifactCodecError::ArtifactSizeLimit { size, maximum } => JsonEncodePlanError::ArtifactSizeLimit {
                size,
                maximum,
            },
            ParameterArtifactCodecError::Truncated => JsonEncodePlanError::Truncated,
            ParameterArtifactCodecError::TrailingBytes => JsonEncodePlanError::TrailingBytes,
        }
    }
}

impl JsonEncodePlan {
    /// Builds a checked server json-encode model. Any two identities form one;
    /// they are checked against a signature when an artefact is decoded.
    pub fn new(parameter: ParameterId, value_type: TypeId) -> (result: Result<JsonEncodePlan, JsonEncodePlanError>)
        ensures
            result == Ok::<JsonEncodePlan, JsonEncodePlanError>(JsonEncodePlan { parameter, value_type }),
    {
        Ok(JsonEncodePlan { parameter, value_type })
    }

    /// Returns the pinned parameter identity.
    pub fn parameter(&self) -> (parameter: ParameterId)
        ensures
            parameter == self.parameter,
    {
        self.parameter
    }

    /// Returns the resolved value type identity.
    pub fn value_type(&self) -> (value_type: TypeId)
        ensures
            value_type == self.value_type,
    {
        self.value_type
    }

    /// Encodes this model into the canonical version-1 artefact bytes.
    pub fn encode(&self) -> (result: Result<Vec<u8>, JsonEncodePlanError>)
        ensures
            viewed(result) == Ok::<Seq<u8>, JsonEncodePlanError>(json_plan_bytes(*self)),
    {
        Ok(crate::parameter_artifact::encode(MAGIC, FORMAT_VERSION, self.parameter, self.value_type))
    }

    /// Decodes exactly one canonical version-1 artefact.
    ///
    /// The decoder consumes all bytes and rejects a wrong magic, a wrong
    /// version, truncation, excess bytes, a parameter identity other than
    /// `expected_parameter`, and a value type identity other than
    /// `expected_type`.
    pub fn decode(bytes: &[u8], expected_parameter: ParameterId, expected_type: TypeId) -> (result: Result<
        JsonEncodePlan,
        JsonEncodePlanError,
    >)
        ensures
            result == decoded_json_plan(bytes@, expected_parameter, expected_type),
    {
        match crate::parameter_artifact::decode(MAGIC, FORMAT_VERSION, bytes, expected_parameter, expected_type) {
            Ok(pinned) => Ok(JsonEncodePlan { parameter: pinned.parameter(), value_type: pinned.value_type() }),
            Err(error) => Err(JsonEncodePlanError::from_codec(error)),
        }
    }
}

} // verus!
