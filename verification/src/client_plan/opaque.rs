//! Version 2: a plan that returns one registered opaque value.
//!
//! ```text
//! header: version 2, operation 2
//! type: TypeId[16]
//! payload length: u32 big-endian
//! canonical payload[payload length]
//! ```

use vstd::prelude::*;

use crate::artifact_codec::{read_bytes, read_identity, read_u32, saturated, u32_bytes, viewed, Reader, Writer};
use crate::artifact_codec::{lemma_bytes_read, lemma_identity_read, lemma_u32_read};
use crate::artifact_codec::{lemma_read_bytes, lemma_read_identity, lemma_read_u32};
use crate::client_plan::error::ClientPlanError;
use crate::client_plan::header::{after_header, header_bytes, lemma_header, lemma_header_read, size_error};
use crate::client_plan::header::{put_header, require_finished, take_bytes, take_header, take_identity, take_u32};
use crate::client_plan::header::validate_artifact_size;
use crate::client_plan::{MAX_ARTIFACT_BYTES, OPAQUE_FIXED_LENGTH, OPAQUE_FORMAT_VERSION, RETURN_OPAQUE_OPERATION};
use crate::identity::{identity_bytes, TypeId};

verus! {

/// A checked version-2 CLIENT plan that returns one registered opaque value.
#[derive(Clone, Debug, Eq, PartialEq)]
pub struct OpaqueClientPlan {
    pub opaque_type: TypeId,
    pub canonical_payload: Vec<u8>,
}

/// The mathematical value of an opaque plan.
pub struct OpaqueValue {
    pub opaque_type: TypeId,
    pub payload: Seq<u8>,
}

impl View for OpaqueClientPlan {
    type V = OpaqueValue;

    open spec fn view(&self) -> OpaqueValue {
        OpaqueValue { opaque_type: self.opaque_type, payload: self.canonical_payload@ }
    }
}

/// The complete version-2 artefact.
pub open spec fn opaque_plan_bytes(plan: OpaqueValue) -> Seq<u8> {
    header_bytes(OPAQUE_FORMAT_VERSION, RETURN_OPAQUE_OPERATION) + (identity_bytes(plan.opaque_type.0) + (u32_bytes(
        plan.payload.len() as u32,
    ) + plan.payload))
}

/// What encoding an opaque plan gives.
pub open spec fn encoded_opaque_plan(plan: OpaqueValue) -> Result<Seq<u8>, ClientPlanError> {
    let size = saturated(OPAQUE_FIXED_LENGTH as nat + plan.payload.len());
    if size > MAX_ARTIFACT_BYTES {
        Err(size_error(size as nat))
    } else {
        Ok(opaque_plan_bytes(plan))
    }
}

/// What decoding `bytes` as version 2 gives.
pub open spec fn decoded_opaque_plan(bytes: Seq<u8>) -> Result<OpaqueValue, ClientPlanError> {
    if bytes.len() > MAX_ARTIFACT_BYTES {
        Err(size_error(bytes.len()))
    } else {
        match after_header(bytes, OPAQUE_FORMAT_VERSION, RETURN_OPAQUE_OPERATION) {
            Err(error) => Err(error),
            Ok(rest) => match read_identity(rest) {
                None => Err(ClientPlanError::Truncated),
                Some((opaque_type, rest)) => match read_u32(rest) {
                    None => Err(ClientPlanError::Truncated),
                    Some((length, rest)) => if length > MAX_ARTIFACT_BYTES {
                        Err(ClientPlanError::InvalidOpaquePayloadLength { actual: length })
                    } else {
                        match read_bytes(rest, length as nat) {
                            None => Err(ClientPlanError::Truncated),
                            Some((payload, rest)) => if rest.len() != 0 {
                                Err(ClientPlanError::TrailingBytes)
                            } else {
                                Ok(OpaqueValue { opaque_type: TypeId(opaque_type), payload })
                            },
                        }
                    },
                },
            },
        }
    }
}

/// Decoding an encoded opaque plan gives that plan back.
pub proof fn law_opaque_plan_round_trip(plan: OpaqueValue)
    ensures
        encoded_opaque_plan(plan) matches Ok(bytes) ==> decoded_opaque_plan(bytes) == Ok::<
            OpaqueValue,
            ClientPlanError,
        >(plan),
{
    if encoded_opaque_plan(plan) is Ok {
        let length = plan.payload.len() as u32;
        let after_type = u32_bytes(length) + plan.payload;
        lemma_header(
            OPAQUE_FORMAT_VERSION,
            RETURN_OPAQUE_OPERATION,
            identity_bytes(plan.opaque_type.0) + after_type,
        );
        lemma_read_identity(plan.opaque_type.0, after_type);
        lemma_read_u32(length, plan.payload);
        assert(plan.payload =~= plan.payload + Seq::<u8>::empty());
        lemma_read_bytes(plan.payload, Seq::empty());
    }
}

/// An artefact that decodes is the encoding of what it decodes to.
pub proof fn law_opaque_plan_canonical(bytes: Seq<u8>)
    ensures
        decoded_opaque_plan(bytes) matches Ok(plan) ==> encoded_opaque_plan(plan) == Ok::<Seq<u8>, ClientPlanError>(
            bytes,
        ),
{
    if decoded_opaque_plan(bytes) is Ok {
        let plan = decoded_opaque_plan(bytes)->Ok_0;
        lemma_header_read(bytes, OPAQUE_FORMAT_VERSION, RETURN_OPAQUE_OPERATION);
        let after = after_header(bytes, OPAQUE_FORMAT_VERSION, RETURN_OPAQUE_OPERATION)->Ok_0;
        lemma_identity_read(after);
        let (opaque_type, after_type) = read_identity(after)->Some_0;
        lemma_u32_read(after_type);
        let (length, after_length) = read_u32(after_type)->Some_0;
        lemma_bytes_read(after_length, length as nat);
        lemma_header(OPAQUE_FORMAT_VERSION, RETURN_OPAQUE_OPERATION, after);
        lemma_read_identity(opaque_type, after_type);
        lemma_read_u32(length, after_length);
        assert(opaque_plan_bytes(plan) =~= bytes);
    }
}

impl OpaqueClientPlan {
    /// Creates a checked plan from one nominal type and complete canonical
    /// payload.
    pub fn return_opaque(opaque_type: TypeId, canonical_payload: Vec<u8>) -> (plan: OpaqueClientPlan)
        ensures
            plan@ == (OpaqueValue { opaque_type, payload: canonical_payload@ }),
    {
        OpaqueClientPlan { opaque_type, canonical_payload }
    }

    /// Returns the canonical artefact version for this plan.
    pub fn format_version(&self) -> (version: u32)
        ensures
            version == OPAQUE_FORMAT_VERSION,
    {
        OPAQUE_FORMAT_VERSION
    }

    /// Returns the nominal opaque value-type identity.
    pub fn opaque_type(&self) -> (opaque_type: TypeId)
        ensures
            opaque_type == self@.opaque_type,
    {
        self.opaque_type
    }

    /// Returns the complete canonical opaque payload.
    pub fn canonical_payload(&self) -> (payload: &[u8])
        ensures
            payload@ == self@.payload,
    {
        self.canonical_payload.as_slice()
    }

    /// Encodes this plan into its exact version-2 bytes.
    pub fn encode(&self) -> (result: Result<Vec<u8>, ClientPlanError>)
        ensures
            viewed(result) == encoded_opaque_plan(self@),
    {
        let size: usize = OPAQUE_FIXED_LENGTH.saturating_add(self.canonical_payload.len());
        validate_artifact_size(size)?;
        let mut writer = Writer::with_capacity(size);
        put_header(&mut writer, OPAQUE_FORMAT_VERSION, RETURN_OPAQUE_OPERATION);
        writer.type_id(self.opaque_type);
        writer.u32(self.canonical_payload.len() as u32);
        writer.bytes(self.canonical_payload.as_slice());
        assert(writer@ =~= opaque_plan_bytes(self@));
        Ok(writer.finish())
    }

    /// Decodes exactly one canonical version-2 opaque client-plan artefact.
    pub fn decode(bytes: &[u8]) -> (result: Result<OpaqueClientPlan, ClientPlanError>)
        ensures
            viewed(result) == decoded_opaque_plan(bytes@),
    {
        validate_artifact_size(bytes.len())?;
        let mut reader = Reader::new(bytes);
        take_header(&mut reader, OPAQUE_FORMAT_VERSION, RETURN_OPAQUE_OPERATION)?;
        let opaque_type: u128 = take_identity(&mut reader)?;
        let length: u32 = take_u32(&mut reader)?;
        if length as usize > MAX_ARTIFACT_BYTES {
            return Err(ClientPlanError::InvalidOpaquePayloadLength { actual: length });
        }
        let payload = take_bytes(&mut reader, length as usize)?;
        require_finished(&reader)?;
        Ok(
            OpaqueClientPlan {
                opaque_type: TypeId(opaque_type),
                canonical_payload: vstd::slice::slice_to_vec(payload),
            },
        )
    }
}

} // verus!
