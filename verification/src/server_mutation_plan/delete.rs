//! Version 3: a single-object DELETE plan.
//!
//! ```text
//! magic[8] = ORNAMP\0\0
//! version: u32 big-endian = 3
//! operation: u8 = 3
//! target: TypeId[16]
//! selector owner: FunctionId[16]
//! selector parameter: ParameterId[16]
//! ```

use vstd::prelude::*;

use crate::artifact_codec::{lemma_identity_read, lemma_u8_read};
use crate::artifact_codec::{lemma_read_identity, lemma_read_u8};
use crate::artifact_codec::{read_identity, read_u8, viewed, Reader, Writer};
use crate::identity::{identity_bytes, FunctionId, ParameterId, TypeId};
use crate::server_mutation_plan::codec::{
    declared_version, finish_artifact, lemma_version, lemma_version_read, put_version, require_finished, size_error,
    take_function, take_parameter, take_type, take_u8, take_version, validate_artifact_size, version_bytes,
};
use crate::server_mutation_plan::error::ServerMutationPlanError;
use crate::server_mutation_plan::model::MutationSelector;
use crate::server_mutation_plan::{DELETE_FORMAT_VERSION, DELETE_OPERATION_TAG, MAX_ARTIFACT_BYTES};

verus! {

/// A checked version-3 single-object DELETE plan.
///
/// It has no field assignments or returned object type: its operation fixes the
/// public result to zero or one BOOLEAN value.
#[derive(Clone, Copy, Debug, PartialEq, Eq, Structural)]
pub struct ServerDeletePlan {
    pub target: TypeId,
    pub selector: MutationSelector,
}

/// What follows the operation of a DELETE artefact.
pub open spec fn delete_payload(plan: ServerDeletePlan) -> Seq<u8> {
    identity_bytes(plan.target.0) + (identity_bytes(plan.selector.owner.0) + identity_bytes(
        plan.selector.parameter.0,
    ))
}

/// The complete version-3 artefact.
pub open spec fn delete_plan_bytes(plan: ServerDeletePlan) -> Seq<u8> {
    version_bytes(DELETE_FORMAT_VERSION) + (seq![DELETE_OPERATION_TAG] + delete_payload(plan))
}

/// The plan behind the operation.
pub open spec fn decoded_delete_payload(input: Seq<u8>) -> Result<ServerDeletePlan, ServerMutationPlanError> {
    match read_identity(input) {
        None => Err(ServerMutationPlanError::Truncated),
        Some((target, rest)) => match read_identity(rest) {
            None => Err(ServerMutationPlanError::Truncated),
            Some((owner, rest)) => match read_identity(rest) {
                None => Err(ServerMutationPlanError::Truncated),
                Some((parameter, rest)) => if rest.len() != 0 {
                    Err(ServerMutationPlanError::TrailingBytes)
                } else {
                    Ok(
                        ServerDeletePlan {
                            target: TypeId(target),
                            selector: MutationSelector {
                                owner: FunctionId(owner),
                                parameter: ParameterId(parameter),
                            },
                        },
                    )
                },
            },
        },
    }
}

/// What decoding `bytes` as version 3 gives.
pub open spec fn decoded_delete_plan(bytes: Seq<u8>) -> Result<ServerDeletePlan, ServerMutationPlanError> {
    if bytes.len() > MAX_ARTIFACT_BYTES {
        Err(size_error(bytes.len()))
    } else {
        match declared_version(bytes) {
            Err(error) => Err(error),
            Ok((version, rest)) => if version != DELETE_FORMAT_VERSION {
                Err(ServerMutationPlanError::UnsupportedVersion(version))
            } else {
                match read_u8(rest) {
                    None => Err(ServerMutationPlanError::Truncated),
                    Some((tag, rest)) => if tag != DELETE_OPERATION_TAG {
                        Err(ServerMutationPlanError::InvalidEnumTag { kind: "operation", tag })
                    } else {
                        decoded_delete_payload(rest)
                    },
                }
            },
        }
    }
}

/// Decoding an encoded DELETE plan gives that plan back, and every DELETE
/// artefact has the one length.
pub proof fn law_delete_plan_round_trip(plan: ServerDeletePlan)
    ensures
        decoded_delete_plan(delete_plan_bytes(plan)) == Ok::<ServerDeletePlan, ServerMutationPlanError>(plan),
        delete_plan_bytes(plan).len() == 61,
{
    let after_target = identity_bytes(plan.selector.owner.0) + identity_bytes(plan.selector.parameter.0);
    lemma_version(DELETE_FORMAT_VERSION, seq![DELETE_OPERATION_TAG] + delete_payload(plan));
    lemma_read_u8(DELETE_OPERATION_TAG, delete_payload(plan));
    lemma_read_identity(plan.target.0, after_target);
    lemma_read_identity(plan.selector.owner.0, identity_bytes(plan.selector.parameter.0));
    lemma_read_identity(plan.selector.parameter.0, Seq::empty());
    assert(identity_bytes(plan.selector.parameter.0) + Seq::<u8>::empty() =~= identity_bytes(
        plan.selector.parameter.0,
    ));
}

/// An artefact that decodes is the encoding of what it decodes to.
pub proof fn law_delete_plan_canonical(bytes: Seq<u8>)
    ensures
        decoded_delete_plan(bytes) matches Ok(plan) ==> delete_plan_bytes(plan) == bytes,
{
    if decoded_delete_plan(bytes) is Ok {
        let plan = decoded_delete_plan(bytes)->Ok_0;
        lemma_version_read(bytes);
        let after_version = declared_version(bytes)->Ok_0.1;
        lemma_u8_read(after_version);
        let payload = read_u8(after_version)->Some_0.1;
        lemma_identity_read(payload);
        let after_target = read_identity(payload)->Some_0.1;
        lemma_identity_read(after_target);
        let after_owner = read_identity(after_target)->Some_0.1;
        lemma_identity_read(after_owner);
        assert(delete_plan_bytes(plan) =~= bytes);
    }
}

impl ServerDeletePlan {
    /// Builds a version-3 delete plan from stable Orna identities.
    pub fn new(target: TypeId, selector: MutationSelector) -> (plan: ServerDeletePlan)
        ensures
            plan == (ServerDeletePlan { target, selector }),
    {
        ServerDeletePlan { target, selector }
    }

    /// Returns the canonical artefact version for DELETE.
    pub fn format_version(&self) -> (version: u32)
        ensures
            version == DELETE_FORMAT_VERSION,
    {
        DELETE_FORMAT_VERSION
    }

    /// Returns the target object type identity.
    pub fn target(&self) -> (target: TypeId)
        ensures
            target == self.target,
    {
        self.target
    }

    /// Returns the parameter that supplies the deleted object identity.
    pub fn selector(&self) -> (selector: MutationSelector)
        ensures
            selector == self.selector,
    {
        self.selector
    }

    /// Encodes this checked DELETE plan into canonical version-3 bytes.
    pub fn encode(&self) -> (result: Result<Vec<u8>, ServerMutationPlanError>)
        ensures
            viewed(result) == Ok::<Seq<u8>, ServerMutationPlanError>(delete_plan_bytes(*self)),
    {
        let mut writer = Writer::new();
        put_version(&mut writer, DELETE_FORMAT_VERSION);
        writer.u8(DELETE_OPERATION_TAG);
        writer.type_id(self.target);
        writer.function_id(self.selector.owner);
        writer.parameter_id(self.selector.parameter);
        proof {
            assert(writer@ =~= delete_plan_bytes(*self));
            law_delete_plan_round_trip(*self);
        }
        finish_artifact(writer)
    }

    /// Decodes exactly one canonical version-3 DELETE artefact.
    pub fn decode(bytes: &[u8]) -> (result: Result<ServerDeletePlan, ServerMutationPlanError>)
        ensures
            result == decoded_delete_plan(bytes@),
    {
        validate_artifact_size(bytes.len())?;
        let mut reader = Reader::new(bytes);
        let version: u32 = take_version(&mut reader)?;
        if version != DELETE_FORMAT_VERSION {
            return Err(ServerMutationPlanError::UnsupportedVersion(version));
        }
        let tag: u8 = take_u8(&mut reader)?;
        if tag != DELETE_OPERATION_TAG {
            return Err(ServerMutationPlanError::InvalidEnumTag { kind: "operation", tag });
        }
        let target = take_type(&mut reader)?;
        let owner = take_function(&mut reader)?;
        let parameter = take_parameter(&mut reader)?;
        require_finished(&reader)?;
        Ok(ServerDeletePlan::new(target, MutationSelector::new(owner, parameter)))
    }
}

} // verus!
