//! The canonical encoding of INSERT and UPDATE plans.
//!
//! ```text
//! magic[8] = ORNAMP\0\0
//! version: u32 big-endian = 1|2|4
//! operation: u8 = 1|2 (INSERT|UPDATE)
//! target: TypeId[16]
//! [UPDATE: selector owner: FunctionId[16], selector parameter: ParameterId[16]]
//! assignment count: u32 big-endian, 1..=MAX_ASSIGNMENTS
//! assignment: owner: TypeId[16]
//!             field: FieldId[16]
//!             expression
//! returned object: TypeId[16]
//!
//! expression: tag: u8 = 1|2|3|4 (parameter|BOOLEAN literal|typed NULL|record)
//!             type
//!             nullability: u8 = 0|1
//!   parameter: FunctionId[16] ParameterId[16]
//!   BOOLEAN literal: u8 = 0|1
//!   record: field count: u32 big-endian, 1..=MAX_RECORD_FIELDS
//!           field: owner: TypeId[16], field: FieldId[16], tag: u8 = 1|2, type,
//!                  nullability: u8 = 0, payload of the tag
//!
//! type: tag: u8 = 1|2|3 (scalar|nominal|reference)
//!   scalar: u8
//!   nominal, reference: TypeId[16]
//! ```

use vstd::prelude::*;

use crate::artifact_codec::{boolean_byte, read_bytes, read_identity, read_u32, read_u8, u32_bytes, viewed};
use crate::artifact_codec::{lemma_bytes_read, lemma_u32_read};
use crate::artifact_codec::{lemma_read_bytes, lemma_read_u32};
use crate::artifact_codec::{same_bytes, Reader, Writer};
use crate::identity::{identity_bytes, FieldId, FunctionId, ParameterId, TypeId};
use crate::resolved_type::{ResolvedType, StandardScalar};
use crate::server_mutation_plan::error::ServerMutationPlanError;
use crate::server_mutation_plan::model::{
    assignments_of, built_plan, plan_version, Assignment, FieldAssignment, MutationExpression,
    MutationExpressionKind, MutationPlan, MutationSelector, RecordFieldExpression, RecordFieldExpressionKind,
    ServerMutationOperation, ServerMutationPlan, Value, ValueKind,
};
use crate::server_mutation_plan::rules::{
    nullability_valid, plan_valid, record_field_valid, scalar_supported, validate_expression, validate_nullability,
    validate_plan, validate_record_field_expression, value_valid,
};
use crate::server_mutation_plan::{
    BIGINT_SCALAR_TAG, BLOB_SCALAR_TAG, BOOLEAN_EXPRESSION_TAG, BOOLEAN_SCALAR_TAG, CLOB_SCALAR_TAG,
    FLOAT_SCALAR_TAG, INSERT_FORMAT_VERSION, INSERT_OPERATION_TAG, INTEGER_SCALAR_TAG, MAGIC, MAX_ARTIFACT_BYTES,
    MAX_ASSIGNMENTS, MAX_RECORD_FIELDS, NAMED_TYPE_TAG, PARAMETER_EXPRESSION_TAG, RECORD_CONSTRUCTOR_EXPRESSION_TAG,
    RECORD_INSERT_FORMAT_VERSION, REFERENCE_TYPE_TAG, SCALAR_TYPE_TAG, TYPED_NULL_EXPRESSION_TAG,
    UPDATE_FORMAT_VERSION, UPDATE_OPERATION_TAG,
};

verus! {

/// What was read and what follows it.
pub type Parsed<T> = Result<(T, Seq<u8>), ServerMutationPlanError>;

/// The magic and a version.
pub open spec fn version_bytes(version: u32) -> Seq<u8> {
    MAGIC@ + u32_bytes(version)
}

/// The declared version and what follows it.
pub open spec fn declared_version(input: Seq<u8>) -> Parsed<u32> {
    match read_bytes(input, 8) {
        None => Err(ServerMutationPlanError::Truncated),
        Some((magic, rest)) => if magic != MAGIC@ {
            Err(ServerMutationPlanError::InvalidMagic)
        } else {
            match read_u32(rest) {
                None => Err(ServerMutationPlanError::Truncated),
                Some((version, rest)) => Ok((version, rest)),
            }
        },
    }
}

/// The failure of an artefact over the size limit.
pub open spec fn size_error(size: nat) -> ServerMutationPlanError {
    ServerMutationPlanError::ArtifactSizeLimit { size: size as usize, maximum: MAX_ARTIFACT_BYTES }
}

/// An encoded artefact, where it keeps the size limit.
pub open spec fn sized(bytes: Seq<u8>) -> Result<Seq<u8>, ServerMutationPlanError> {
    if bytes.len() > MAX_ARTIFACT_BYTES {
        Err(size_error(bytes.len()))
    } else {
        Ok(bytes)
    }
}

/// The wire tag of a supported scalar type.
pub open spec fn scalar_wire(scalar: StandardScalar) -> u8 {
    match scalar {
        StandardScalar::Boolean => BOOLEAN_SCALAR_TAG,
        StandardScalar::Integer => INTEGER_SCALAR_TAG,
        StandardScalar::BigInt => BIGINT_SCALAR_TAG,
        StandardScalar::Float => FLOAT_SCALAR_TAG,
        StandardScalar::CharacterLargeObject => CLOB_SCALAR_TAG,
        StandardScalar::BinaryLargeObject => BLOB_SCALAR_TAG,
        _ => 0,
    }
}

/// The scalar type that a wire tag stands for.
pub open spec fn scalar_of_wire(tag: u8) -> Option<StandardScalar> {
    if tag == BOOLEAN_SCALAR_TAG {
        Some(StandardScalar::Boolean)
    } else if tag == INTEGER_SCALAR_TAG {
        Some(StandardScalar::Integer)
    } else if tag == BIGINT_SCALAR_TAG {
        Some(StandardScalar::BigInt)
    } else if tag == FLOAT_SCALAR_TAG {
        Some(StandardScalar::Float)
    } else if tag == CLOB_SCALAR_TAG {
        Some(StandardScalar::CharacterLargeObject)
    } else if tag == BLOB_SCALAR_TAG {
        Some(StandardScalar::BinaryLargeObject)
    } else {
        None
    }
}

/// What reading a scalar tag gives.
pub open spec fn decoded_scalar(tag: u8) -> Result<StandardScalar, ServerMutationPlanError> {
    match scalar_of_wire(tag) {
        Some(scalar) => Ok(scalar),
        None => Err(ServerMutationPlanError::InvalidEnumTag { kind: "scalar type", tag }),
    }
}

/// What writing a scalar type gives.
pub open spec fn encoded_scalar(scalar: StandardScalar) -> Result<u8, ServerMutationPlanError> {
    if scalar_supported(scalar) {
        Ok(scalar_wire(scalar))
    } else {
        Err(ServerMutationPlanError::UnsupportedValueType { resolved_type: ResolvedType::Scalar(scalar) })
    }
}

/// Scalar tags and supported scalar types stand for each other one for one, and
/// a tag outside the closed set is refused.
pub proof fn law_scalar_tags_inverse(tag: u8, scalar: StandardScalar)
    ensures
        scalar_of_wire(tag) == Some(scalar) <==> scalar_supported(scalar) && scalar_wire(scalar) == tag,
        decoded_scalar(tag) == Ok::<StandardScalar, ServerMutationPlanError>(scalar) <==> encoded_scalar(scalar)
            == Ok::<u8, ServerMutationPlanError>(tag),
        !(tag == 1 || tag == 2 || tag == 3 || tag == 4 || tag == 6 || tag == 7) <==> decoded_scalar(tag) == Err::<
            StandardScalar,
            ServerMutationPlanError,
        >(ServerMutationPlanError::InvalidEnumTag { kind: "scalar type", tag }),
{
}

/// A type in front of `rest`. Opaque value types have no encoding, and no valid
/// plan holds one.
pub open spec fn type_then(resolved_type: ResolvedType, rest: Seq<u8>) -> Seq<u8> {
    match resolved_type {
        ResolvedType::Scalar(scalar) => seq![SCALAR_TYPE_TAG] + (seq![scalar_wire(scalar)] + rest),
        ResolvedType::Named(type_id) => seq![NAMED_TYPE_TAG] + (identity_bytes(type_id.0) + rest),
        ResolvedType::Reference(type_id) => seq![REFERENCE_TYPE_TAG] + (identity_bytes(type_id.0) + rest),
        ResolvedType::Value(_) => rest,
    }
}

/// A record field in front of `rest`.
#[verifier::opaque]
pub open spec fn record_field_then(field: RecordFieldExpression, rest: Seq<u8>) -> Seq<u8> {
    identity_bytes(field.owner.0) + (identity_bytes(field.field.0) + match field.kind {
        RecordFieldExpressionKind::Parameter { owner, parameter } => seq![PARAMETER_EXPRESSION_TAG] + type_then(
            field.resolved_type,
            seq![boolean_byte(false)] + (identity_bytes(owner.0) + (identity_bytes(parameter.0) + rest)),
        ),
        RecordFieldExpressionKind::BooleanLiteral { value } => seq![BOOLEAN_EXPRESSION_TAG] + type_then(
            field.resolved_type,
            seq![boolean_byte(false)] + (seq![boolean_byte(value)] + rest),
        ),
    })
}

/// The record fields from `index` on in front of `rest`.
pub open spec fn record_fields_then(fields: Seq<RecordFieldExpression>, index: nat, rest: Seq<u8>) -> Seq<u8>
    decreases fields.len() - index,
{
    if index >= fields.len() {
        rest
    } else {
        record_field_then(fields[index as int], record_fields_then(fields, index + 1, rest))
    }
}

/// The wire tag of a value.
pub open spec fn value_wire(value: Value) -> u8 {
    match value.kind {
        ValueKind::Parameter { .. } => PARAMETER_EXPRESSION_TAG,
        ValueKind::BooleanLiteral { .. } => BOOLEAN_EXPRESSION_TAG,
        ValueKind::TypedNull => TYPED_NULL_EXPRESSION_TAG,
        ValueKind::RecordConstructor { .. } => RECORD_CONSTRUCTOR_EXPRESSION_TAG,
    }
}

/// What follows the nullability of a value, in front of `rest`.
pub open spec fn kind_then(kind: ValueKind, rest: Seq<u8>) -> Seq<u8> {
    match kind {
        ValueKind::Parameter { owner, parameter } => identity_bytes(owner.0) + (identity_bytes(parameter.0) + rest),
        ValueKind::BooleanLiteral { value } => seq![boolean_byte(value)] + rest,
        ValueKind::TypedNull => rest,
        ValueKind::RecordConstructor { fields } => u32_bytes(fields.len() as u32) + record_fields_then(
            fields,
            0,
            rest,
        ),
    }
}

/// A value in front of `rest`.
#[verifier::opaque]
pub open spec fn value_then(value: Value, rest: Seq<u8>) -> Seq<u8> {
    seq![value_wire(value)] + type_then(
        value.resolved_type,
        seq![boolean_byte(value.nullable)] + kind_then(value.kind, rest),
    )
}

/// An assignment in front of `rest`.
pub open spec fn assignment_then(assignment: Assignment, rest: Seq<u8>) -> Seq<u8> {
    identity_bytes(assignment.owner.0) + (identity_bytes(assignment.field.0) + value_then(assignment.value, rest))
}

/// The assignments from `index` on in front of `rest`.
pub open spec fn assignments_then(assignments: Seq<Assignment>, index: nat, rest: Seq<u8>) -> Seq<u8>
    decreases assignments.len() - index,
{
    if index >= assignments.len() {
        rest
    } else {
        assignment_then(assignments[index as int], assignments_then(assignments, index + 1, rest))
    }
}

/// The wire tag of an operation.
pub open spec fn operation_wire(operation: ServerMutationOperation) -> u8 {
    match operation {
        ServerMutationOperation::Insert => INSERT_OPERATION_TAG,
        ServerMutationOperation::Update { .. } => UPDATE_OPERATION_TAG,
    }
}

/// The assignments and the returned object of a plan.
pub open spec fn plan_body(plan: MutationPlan) -> Seq<u8> {
    u32_bytes(plan.assignments.len() as u32) + assignments_then(
        plan.assignments,
        0,
        identity_bytes(plan.returned_object.0),
    )
}

/// What follows the target of a plan.
pub open spec fn after_target(plan: MutationPlan) -> Seq<u8> {
    match plan.operation {
        ServerMutationOperation::Insert => plan_body(plan),
        ServerMutationOperation::Update { selector } => identity_bytes(selector.owner.0) + (identity_bytes(
            selector.parameter.0,
        ) + plan_body(plan)),
    }
}

/// The complete artefact of a plan.
pub open spec fn mutation_plan_bytes(plan: MutationPlan) -> Seq<u8> {
    version_bytes(plan_version(plan)) + (seq![operation_wire(plan.operation)] + (identity_bytes(plan.target.0)
        + after_target(plan)))
}

/// What encoding a plan gives.
pub open spec fn encoded_mutation_plan(plan: MutationPlan) -> Result<Seq<u8>, ServerMutationPlanError> {
    match plan_valid(plan) {
        Err(error) => Err(error),
        Ok(()) => sized(mutation_plan_bytes(plan)),
    }
}

/// A type.
pub open spec fn parsed_type(input: Seq<u8>, allow_named: bool) -> Parsed<ResolvedType> {
    match read_u8(input) {
        None => Err(ServerMutationPlanError::Truncated),
        Some((tag, rest)) => if tag == SCALAR_TYPE_TAG {
            match read_u8(rest) {
                None => Err(ServerMutationPlanError::Truncated),
                Some((scalar, rest)) => match scalar_of_wire(scalar) {
                    None => Err(ServerMutationPlanError::InvalidEnumTag { kind: "scalar type", tag: scalar }),
                    Some(scalar) => Ok((ResolvedType::Scalar(scalar), rest)),
                },
            }
        } else if tag == NAMED_TYPE_TAG && allow_named {
            match read_identity(rest) {
                None => Err(ServerMutationPlanError::Truncated),
                Some((type_id, rest)) => Ok((ResolvedType::Named(TypeId(type_id)), rest)),
            }
        } else if tag == REFERENCE_TYPE_TAG {
            match read_identity(rest) {
                None => Err(ServerMutationPlanError::Truncated),
                Some((type_id, rest)) => Ok((ResolvedType::Reference(TypeId(type_id)), rest)),
            }
        } else {
            Err(ServerMutationPlanError::InvalidEnumTag { kind: "resolved type kind", tag })
        },
    }
}

/// A truth value.
pub open spec fn parsed_truth(input: Seq<u8>, context: &'static str) -> Parsed<bool> {
    match read_u8(input) {
        None => Err(ServerMutationPlanError::Truncated),
        Some((value, rest)) => if value > 1 {
            Err(ServerMutationPlanError::InvalidBoolean { context, value })
        } else {
            Ok((value == 1, rest))
        },
    }
}

/// A count of at most `maximum`.
pub open spec fn parsed_count(input: Seq<u8>, kind: &'static str, maximum: u32) -> Parsed<nat> {
    match read_u32(input) {
        None => Err(ServerMutationPlanError::Truncated),
        Some((count, rest)) => if count > maximum {
            Err(ServerMutationPlanError::CollectionLimit { kind, count: count as usize, maximum })
        } else {
            Ok((count as nat, rest))
        },
    }
}

/// The function and identity of a parameter.
pub open spec fn parsed_parameter(input: Seq<u8>) -> Parsed<(FunctionId, ParameterId)> {
    match read_identity(input) {
        None => Err(ServerMutationPlanError::Truncated),
        Some((owner, rest)) => match read_identity(rest) {
            None => Err(ServerMutationPlanError::Truncated),
            Some((parameter, rest)) => Ok(((FunctionId(owner), ParameterId(parameter)), rest)),
        },
    }
}

/// The expression of a record field behind its identities.
pub open spec fn parsed_field_kind(input: Seq<u8>, tag: u8) -> Parsed<RecordFieldExpressionKind> {
    if tag == PARAMETER_EXPRESSION_TAG {
        match parsed_parameter(input) {
            Err(error) => Err(error),
            Ok(((owner, parameter), rest)) => Ok((RecordFieldExpressionKind::Parameter { owner, parameter }, rest)),
        }
    } else if tag == BOOLEAN_EXPRESSION_TAG {
        match parsed_truth(input, "record literal") {
            Err(error) => Err(error),
            Ok((value, rest)) => Ok((RecordFieldExpressionKind::BooleanLiteral { value }, rest)),
        }
    } else {
        Err(ServerMutationPlanError::InvalidEnumTag { kind: "record field expression kind", tag })
    }
}

/// The tag, type, nullability and payload of a record field.
pub open spec fn parsed_field_expression(input: Seq<u8>) -> Parsed<(ResolvedType, RecordFieldExpressionKind)> {
    match read_u8(input) {
        None => Err(ServerMutationPlanError::Truncated),
        Some((tag, rest)) => match parsed_type(rest, tag == PARAMETER_EXPRESSION_TAG) {
            Err(error) => Err(error),
            Ok((resolved_type, rest)) => match parsed_truth(rest, "record field nullability") {
                Err(error) => Err(error),
                Ok((nullable, rest)) => match nullability_valid("record field", false, nullable) {
                    Err(error) => Err(error),
                    Ok(()) => match parsed_field_kind(rest, tag) {
                        Err(error) => Err(error),
                        Ok((kind, rest)) => Ok(((resolved_type, kind), rest)),
                    },
                },
            },
        },
    }
}

/// A record field.
#[verifier::opaque]
pub open spec fn parsed_record_field(input: Seq<u8>) -> Parsed<RecordFieldExpression> {
    match read_identity(input) {
        None => Err(ServerMutationPlanError::Truncated),
        Some((owner, rest)) => match read_identity(rest) {
            None => Err(ServerMutationPlanError::Truncated),
            Some((field, rest)) => match parsed_field_expression(rest) {
                Err(error) => Err(error),
                Ok(((resolved_type, kind), rest)) => {
                    let expression = RecordFieldExpression {
                        owner: TypeId(owner),
                        field: FieldId(field),
                        kind,
                        resolved_type,
                    };
                    match record_field_valid(expression) {
                        Err(error) => Err(error),
                        Ok(()) => Ok((expression, rest)),
                    }
                },
            },
        },
    }
}

/// Record fields up to `total`, the first of which are `done`.
pub open spec fn parsed_record_fields(input: Seq<u8>, done: Seq<RecordFieldExpression>, total: nat) -> Parsed<
    Seq<RecordFieldExpression>,
>
    decreases total - done.len(),
{
    if done.len() >= total {
        Ok((done, input))
    } else {
        match parsed_record_field(input) {
            Err(error) => Err(error),
            Ok((field, rest)) => parsed_record_fields(rest, done.push(field), total),
        }
    }
}

/// What follows the nullability of a value.
pub open spec fn parsed_kind(input: Seq<u8>, tag: u8, allow_record: bool) -> Parsed<ValueKind> {
    if tag == PARAMETER_EXPRESSION_TAG {
        match parsed_parameter(input) {
            Err(error) => Err(error),
            Ok(((owner, parameter), rest)) => Ok((ValueKind::Parameter { owner, parameter }, rest)),
        }
    } else if tag == BOOLEAN_EXPRESSION_TAG {
        match parsed_truth(input, "literal") {
            Err(error) => Err(error),
            Ok((value, rest)) => Ok((ValueKind::BooleanLiteral { value }, rest)),
        }
    } else if tag == TYPED_NULL_EXPRESSION_TAG {
        Ok((ValueKind::TypedNull, input))
    } else if tag == RECORD_CONSTRUCTOR_EXPRESSION_TAG && allow_record {
        match parsed_count(input, "record fields", MAX_RECORD_FIELDS) {
            Err(error) => Err(error),
            Ok((count, rest)) => match parsed_record_fields(rest, Seq::empty(), count) {
                Err(error) => Err(error),
                Ok((fields, rest)) => Ok((ValueKind::RecordConstructor { fields }, rest)),
            },
        }
    } else {
        Err(ServerMutationPlanError::InvalidEnumTag { kind: "mutation expression kind", tag })
    }
}

/// A value, which may be a record constructor where `allow_record` says so.
#[verifier::opaque]
pub open spec fn parsed_value(input: Seq<u8>, allow_record: bool) -> Parsed<Value> {
    match read_u8(input) {
        None => Err(ServerMutationPlanError::Truncated),
        Some((tag, rest)) => match parsed_type(rest, allow_record && tag == RECORD_CONSTRUCTOR_EXPRESSION_TAG) {
            Err(error) => Err(error),
            Ok((resolved_type, rest)) => match parsed_truth(rest, "expression nullability") {
                Err(error) => Err(error),
                Ok((nullable, rest)) => match parsed_kind(rest, tag, allow_record) {
                    Err(error) => Err(error),
                    Ok((kind, rest)) => {
                        let value = Value { kind, resolved_type, nullable };
                        match value_valid(value, allow_record) {
                            Err(error) => Err(error),
                            Ok(()) => Ok((value, rest)),
                        }
                    },
                },
            },
        },
    }
}

/// An assignment.
pub open spec fn parsed_assignment(input: Seq<u8>, allow_record: bool) -> Parsed<Assignment> {
    match read_identity(input) {
        None => Err(ServerMutationPlanError::Truncated),
        Some((owner, rest)) => match read_identity(rest) {
            None => Err(ServerMutationPlanError::Truncated),
            Some((field, rest)) => match parsed_value(rest, allow_record) {
                Err(error) => Err(error),
                Ok((value, rest)) => Ok((Assignment { owner: TypeId(owner), field: FieldId(field), value }, rest)),
            },
        },
    }
}

/// Assignments up to `total`, the first of which are `done`.
pub open spec fn parsed_assignments(input: Seq<u8>, done: Seq<Assignment>, total: nat, allow_record: bool) -> Parsed<
    Seq<Assignment>,
>
    decreases total - done.len(),
{
    if done.len() >= total {
        Ok((done, input))
    } else {
        match parsed_assignment(input, allow_record) {
            Err(error) => Err(error),
            Ok((assignment, rest)) => parsed_assignments(rest, done.push(assignment), total, allow_record),
        }
    }
}

/// The assignments and the returned object behind the target.
pub open spec fn parsed_body(input: Seq<u8>, allow_record: bool) -> Parsed<(Seq<Assignment>, TypeId)> {
    match parsed_count(input, "assignments", MAX_ASSIGNMENTS) {
        Err(error) => Err(error),
        Ok((count, rest)) => match parsed_assignments(rest, Seq::empty(), count, allow_record) {
            Err(error) => Err(error),
            Ok((assignments, rest)) => match read_identity(rest) {
                None => Err(ServerMutationPlanError::Truncated),
                Some((returned_object, rest)) => Ok(((assignments, TypeId(returned_object)), rest)),
            },
        },
    }
}

/// The operation behind the target of an artefact of a version.
pub open spec fn parsed_operation(input: Seq<u8>, version: u32) -> Parsed<ServerMutationOperation> {
    if version == UPDATE_FORMAT_VERSION {
        match parsed_parameter(input) {
            Err(error) => Err(error),
            Ok(((owner, parameter), rest)) => Ok(
                (ServerMutationOperation::Update { selector: MutationSelector { owner, parameter } }, rest),
            ),
        }
    } else {
        Ok((ServerMutationOperation::Insert, input))
    }
}

/// The plan behind the operation tag, before its rules are checked.
pub open spec fn parsed_plan(input: Seq<u8>, version: u32) -> Parsed<MutationPlan> {
    match read_identity(input) {
        None => Err(ServerMutationPlanError::Truncated),
        Some((target, rest)) => match parsed_operation(rest, version) {
            Err(error) => Err(error),
            Ok((operation, rest)) => match parsed_body(rest, version == RECORD_INSERT_FORMAT_VERSION) {
                Err(error) => Err(error),
                Ok(((assignments, returned_object), rest)) => Ok(
                    (MutationPlan { operation, target: TypeId(target), assignments, returned_object }, rest),
                ),
            },
        },
    }
}

/// The wire tag of the operation of a version.
pub open spec fn version_operation(version: u32) -> u8 {
    if version == UPDATE_FORMAT_VERSION {
        UPDATE_OPERATION_TAG
    } else {
        INSERT_OPERATION_TAG
    }
}

/// The checked plan behind the version.
pub open spec fn decoded_versioned_plan(input: Seq<u8>, version: u32) -> Result<MutationPlan, ServerMutationPlanError> {
    match read_u8(input) {
        None => Err(ServerMutationPlanError::Truncated),
        Some((tag, rest)) => if tag != version_operation(version) {
            Err(ServerMutationPlanError::InvalidEnumTag { kind: "operation", tag })
        } else {
            match parsed_plan(rest, version) {
                Err(error) => Err(error),
                Ok((plan, rest)) => if rest.len() != 0 {
                    Err(ServerMutationPlanError::TrailingBytes)
                } else {
                    match built_plan(plan) {
                        Err(error) => Err(error),
                        Ok(plan) => if plan_version(plan) != version {
                            Err(
                                ServerMutationPlanError::NonCanonicalFormatVersion {
                                    expected: plan_version(plan),
                                    actual: version,
                                },
                            )
                        } else {
                            Ok(plan)
                        },
                    }
                },
            }
        },
    }
}

/// What decoding `bytes` as an INSERT or UPDATE artefact gives.
pub open spec fn decoded_mutation_plan(bytes: Seq<u8>) -> Result<MutationPlan, ServerMutationPlanError> {
    if bytes.len() > MAX_ARTIFACT_BYTES {
        Err(size_error(bytes.len()))
    } else {
        match declared_version(bytes) {
            Err(error) => Err(error),
            Ok((version, rest)) => if version != INSERT_FORMAT_VERSION && version != UPDATE_FORMAT_VERSION && version
                != RECORD_INSERT_FORMAT_VERSION {
                Err(ServerMutationPlanError::UnsupportedVersion(version))
            } else {
                decoded_versioned_plan(rest, version)
            },
        }
    }
}

/// A version is read back.
pub proof fn lemma_version(version: u32, rest: Seq<u8>)
    ensures
        declared_version(version_bytes(version) + rest) == Ok::<(u32, Seq<u8>), ServerMutationPlanError>(
            (version, rest),
        ),
        version_bytes(version).len() == 12,
{
    assert(version_bytes(version) + rest =~= MAGIC@ + (u32_bytes(version) + rest));
    lemma_read_bytes(MAGIC@, u32_bytes(version) + rest);
    lemma_read_u32(version, rest);
}

/// What a version was read from.
pub proof fn lemma_version_read(input: Seq<u8>)
    ensures
        declared_version(input) matches Ok((version, rest)) ==> input == version_bytes(version) + rest,
{
    if declared_version(input) is Ok {
        lemma_bytes_read(input, 8);
        let after_magic = read_bytes(input, 8)->Some_0.1;
        lemma_u32_read(after_magic);
        let (version, rest) = read_u32(after_magic)->Some_0;
        assert(input =~= version_bytes(version) + rest);
    }
}

/// Reads one byte.
pub fn take_u8(reader: &mut Reader) -> (result: Result<u8, ServerMutationPlanError>)
    ensures
        match read_u8(old(reader)@) {
            Some((value, rest)) => result == Ok::<u8, ServerMutationPlanError>(value) && final(reader)@ == rest,
            None => result == Err::<u8, _>(ServerMutationPlanError::Truncated),
        },
{
    match reader.u8() {
        Ok(value) => Ok(value),
        Err(error) => Err(ServerMutationPlanError::from(error)),
    }
}

/// Reads a big-endian 32-bit unsigned integer.
fn take_u32(reader: &mut Reader) -> (result: Result<u32, ServerMutationPlanError>)
    ensures
        match read_u32(old(reader)@) {
            Some((value, rest)) => result == Ok::<u32, ServerMutationPlanError>(value) && final(reader)@ == rest,
            None => result == Err::<u32, _>(ServerMutationPlanError::Truncated),
        },
{
    match reader.u32() {
        Ok(value) => Ok(value),
        Err(error) => Err(ServerMutationPlanError::from(error)),
    }
}

/// Reads a type identity.
pub fn take_type(reader: &mut Reader) -> (result: Result<TypeId, ServerMutationPlanError>)
    ensures
        match read_identity(old(reader)@) {
            Some((value, rest)) => result == Ok::<TypeId, ServerMutationPlanError>(TypeId(value)) && final(reader)@ == rest,
            None => result == Err::<TypeId, _>(ServerMutationPlanError::Truncated),
        },
{
    match reader.type_id() {
        Ok(value) => Ok(value),
        Err(error) => Err(ServerMutationPlanError::from(error)),
    }
}

/// Reads a field identity.
fn take_field(reader: &mut Reader) -> (result: Result<FieldId, ServerMutationPlanError>)
    ensures
        match read_identity(old(reader)@) {
            Some((value, rest)) => result == Ok::<FieldId, ServerMutationPlanError>(FieldId(value)) && final(reader)@ == rest,
            None => result == Err::<FieldId, _>(ServerMutationPlanError::Truncated),
        },
{
    match reader.field_id() {
        Ok(value) => Ok(value),
        Err(error) => Err(ServerMutationPlanError::from(error)),
    }
}

/// Reads a function identity.
pub fn take_function(reader: &mut Reader) -> (result: Result<FunctionId, ServerMutationPlanError>)
    ensures
        match read_identity(old(reader)@) {
            Some((value, rest)) => result == Ok::<FunctionId, ServerMutationPlanError>(FunctionId(value)) && final(reader)@ == rest,
            None => result == Err::<FunctionId, _>(ServerMutationPlanError::Truncated),
        },
{
    match reader.function_id() {
        Ok(value) => Ok(value),
        Err(error) => Err(ServerMutationPlanError::from(error)),
    }
}

/// Reads a parameter identity.
pub fn take_parameter(reader: &mut Reader) -> (result: Result<ParameterId, ServerMutationPlanError>)
    ensures
        match read_identity(old(reader)@) {
            Some((value, rest)) => result == Ok::<ParameterId, ServerMutationPlanError>(ParameterId(value)) && final(reader)@ == rest,
            None => result == Err::<ParameterId, _>(ServerMutationPlanError::Truncated),
        },
{
    match reader.parameter_id() {
        Ok(value) => Ok(value),
        Err(error) => Err(ServerMutationPlanError::from(error)),
    }
}

/// Refuses unread bytes.
pub fn require_finished(reader: &Reader) -> (result: Result<(), ServerMutationPlanError>)
    ensures
        result == if reader@.len() == 0 {
            Ok::<(), ServerMutationPlanError>(())
        } else {
            Err(ServerMutationPlanError::TrailingBytes)
        },
{
    match reader.require_finished() {
        Ok(()) => Ok(()),
        Err(error) => Err(ServerMutationPlanError::from(error)),
    }
}

/// Reads the magic and the declared version.
pub fn take_version(reader: &mut Reader) -> (result: Result<u32, ServerMutationPlanError>)
    ensures
        match declared_version(old(reader)@) {
            Ok((version, rest)) => result == Ok::<u32, ServerMutationPlanError>(version) && final(reader)@ == rest,
            Err(error) => result == Err::<u32, ServerMutationPlanError>(error),
        },
{
    let magic = match reader.take(8) {
        Ok(magic) => magic,
        Err(error) => return Err(ServerMutationPlanError::from(error)),
    };
    if !same_bytes(magic, MAGIC.as_slice()) {
        return Err(ServerMutationPlanError::InvalidMagic);
    }
    take_u32(reader)
}

/// Writes the magic and a version.
pub fn put_version(writer: &mut Writer, version: u32)
    ensures
        final(writer)@ == old(writer)@ + version_bytes(version),
{
    writer.bytes(MAGIC.as_slice());
    writer.u32(version);
    assert(writer@ =~= old(writer)@ + version_bytes(version));
}

/// Refuses an artefact over the size limit.
pub fn validate_artifact_size(size: usize) -> (result: Result<(), ServerMutationPlanError>)
    ensures
        result == if size > MAX_ARTIFACT_BYTES {
            Err::<(), ServerMutationPlanError>(size_error(size as nat))
        } else {
            Ok(())
        },
{
    if size > MAX_ARTIFACT_BYTES {
        Err(ServerMutationPlanError::ArtifactSizeLimit { size, maximum: MAX_ARTIFACT_BYTES })
    } else {
        Ok(())
    }
}

/// Returns the written artefact, where it keeps the size limit.
pub fn finish_artifact(writer: Writer) -> (result: Result<Vec<u8>, ServerMutationPlanError>)
    ensures
        viewed(result) == sized(writer@),
{
    let bytes = writer.finish();
    validate_artifact_size(bytes.len())?;
    Ok(bytes)
}

/// Returns the wire tag of a scalar type.
pub fn encode_scalar(scalar: StandardScalar) -> (result: Result<u8, ServerMutationPlanError>)
    ensures
        result == encoded_scalar(scalar),
{
    match scalar {
        StandardScalar::Boolean => Ok(BOOLEAN_SCALAR_TAG),
        StandardScalar::Integer => Ok(INTEGER_SCALAR_TAG),
        StandardScalar::BigInt => Ok(BIGINT_SCALAR_TAG),
        StandardScalar::Float => Ok(FLOAT_SCALAR_TAG),
        StandardScalar::CharacterLargeObject => Ok(CLOB_SCALAR_TAG),
        StandardScalar::BinaryLargeObject => Ok(BLOB_SCALAR_TAG),
        _ => Err(ServerMutationPlanError::UnsupportedValueType { resolved_type: ResolvedType::Scalar(scalar) }),
    }
}

/// Reads a scalar tag byte.
pub fn decode_scalar(tag: u8) -> (result: Result<StandardScalar, ServerMutationPlanError>)
    ensures
        result == decoded_scalar(tag),
{
    match tag {
        BOOLEAN_SCALAR_TAG => Ok(StandardScalar::Boolean),
        INTEGER_SCALAR_TAG => Ok(StandardScalar::Integer),
        BIGINT_SCALAR_TAG => Ok(StandardScalar::BigInt),
        FLOAT_SCALAR_TAG => Ok(StandardScalar::Float),
        CLOB_SCALAR_TAG => Ok(StandardScalar::CharacterLargeObject),
        BLOB_SCALAR_TAG => Ok(StandardScalar::BinaryLargeObject),
        tag => Err(ServerMutationPlanError::InvalidEnumTag { kind: "scalar type", tag }),
    }
}

/// Writes a type. A scalar type without a tag, which no valid plan holds, is
/// written as zero.
fn put_type(writer: &mut Writer, resolved_type: ResolvedType)
    ensures
        forall|rest: Seq<u8>| final(writer)@ + rest == old(writer)@ + #[trigger] type_then(resolved_type, rest),
{
    match resolved_type {
        ResolvedType::Scalar(scalar) => {
            writer.u8(SCALAR_TYPE_TAG);
            match encode_scalar(scalar) {
                Ok(tag) => writer.u8(tag),
                Err(_) => writer.u8(0),
            }
        },
        ResolvedType::Named(type_id) => {
            writer.u8(NAMED_TYPE_TAG);
            writer.type_id(type_id);
        },
        ResolvedType::Reference(type_id) => {
            writer.u8(REFERENCE_TYPE_TAG);
            writer.type_id(type_id);
        },
        ResolvedType::Value(_) => {},
    }
    assert forall|rest: Seq<u8>| writer@ + rest == old(writer)@ + #[trigger] type_then(resolved_type, rest) by {
        assert(writer@ + rest =~= old(writer)@ + type_then(resolved_type, rest));
    }
}

/// Reads a type.
fn decode_resolved_type(reader: &mut Reader, allow_named: bool) -> (result: Result<
    ResolvedType,
    ServerMutationPlanError,
>)
    ensures
        match parsed_type(old(reader)@, allow_named) {
            Ok((resolved_type, rest)) => result == Ok::<ResolvedType, ServerMutationPlanError>(resolved_type)
                && final(reader)@ == rest,
            Err(error) => result == Err::<ResolvedType, ServerMutationPlanError>(error),
        },
{
    let tag: u8 = take_u8(reader)?;
    if tag == SCALAR_TYPE_TAG {
        let scalar: u8 = take_u8(reader)?;
        Ok(ResolvedType::Scalar(decode_scalar(scalar)?))
    } else if tag == NAMED_TYPE_TAG && allow_named {
        Ok(ResolvedType::Named(take_type(reader)?))
    } else if tag == REFERENCE_TYPE_TAG {
        Ok(ResolvedType::Reference(take_type(reader)?))
    } else {
        Err(ServerMutationPlanError::InvalidEnumTag { kind: "resolved type kind", tag })
    }
}

/// Reads a truth value.
fn decode_boolean(reader: &mut Reader, context: &'static str) -> (result: Result<bool, ServerMutationPlanError>)
    ensures
        match parsed_truth(old(reader)@, context) {
            Ok((value, rest)) => result == Ok::<bool, ServerMutationPlanError>(value) && final(reader)@ == rest,
            Err(error) => result == Err::<bool, ServerMutationPlanError>(error),
        },
{
    let value: u8 = take_u8(reader)?;
    match value {
        0 => Ok(false),
        1 => Ok(true),
        value => Err(ServerMutationPlanError::InvalidBoolean { context, value }),
    }
}

/// Reads a count of at most `maximum`.
fn decode_count(reader: &mut Reader, kind: &'static str, maximum: u32) -> (result: Result<
    usize,
    ServerMutationPlanError,
>)
    ensures
        match parsed_count(old(reader)@, kind, maximum) {
            Ok((count, rest)) => result is Ok && result->Ok_0 == count && final(reader)@ == rest,
            Err(error) => result == Err::<usize, ServerMutationPlanError>(error),
        },
{
    let count: u32 = take_u32(reader)?;
    if count > maximum {
        return Err(ServerMutationPlanError::CollectionLimit { kind, count: count as usize, maximum });
    }
    Ok(count as usize)
}

/// Reads the function and identity of a parameter.
fn decode_parameter(reader: &mut Reader) -> (result: Result<(FunctionId, ParameterId), ServerMutationPlanError>)
    ensures
        match parsed_parameter(old(reader)@) {
            Ok((value, rest)) => result == Ok::<(FunctionId, ParameterId), ServerMutationPlanError>(value) && final(reader)@ == rest,
            Err(error) => result == Err::<(FunctionId, ParameterId), ServerMutationPlanError>(error),
        },
{
    let owner = take_function(reader)?;
    let parameter = take_parameter(reader)?;
    Ok((owner, parameter))
}

/// Writes a record field.
fn put_record_field(writer: &mut Writer, field: &RecordFieldExpression)
    ensures
        forall|rest: Seq<u8>| final(writer)@ + rest == old(writer)@ + #[trigger] record_field_then(*field, rest),
{
    writer.type_id(field.owner);
    writer.field_id(field.field);
    match field.kind {
        RecordFieldExpressionKind::Parameter { .. } => writer.u8(PARAMETER_EXPRESSION_TAG),
        RecordFieldExpressionKind::BooleanLiteral { .. } => writer.u8(BOOLEAN_EXPRESSION_TAG),
    }
    let ghost before_type = writer@;
    put_type(writer, field.resolved_type);
    let ghost before_payload = writer@;
    writer.boolean(false);
    match field.kind {
        RecordFieldExpressionKind::Parameter { owner, parameter } => {
            writer.function_id(owner);
            writer.parameter_id(parameter);
        },
        RecordFieldExpressionKind::BooleanLiteral { value } => writer.boolean(value),
    }
    assert forall|rest: Seq<u8>| writer@ + rest == old(writer)@ + #[trigger] record_field_then(*field, rest) by {
        reveal(record_field_then);
        let payload = match field.kind {
            RecordFieldExpressionKind::Parameter { owner, parameter } => seq![boolean_byte(false)] + (
            identity_bytes(owner.0) + (identity_bytes(parameter.0) + rest)),
            RecordFieldExpressionKind::BooleanLiteral { value } => seq![boolean_byte(false)] + (seq![
                boolean_byte(value),
            ] + rest),
        };
        assert(writer@ + rest =~= before_payload + payload);
        assert(before_payload + payload == before_type + type_then(field.resolved_type, payload));
        assert(before_type + type_then(field.resolved_type, payload) =~= old(writer)@ + record_field_then(
            *field,
            rest,
        ));
    }
}

/// Writes the fields of a record.
fn put_record_fields(writer: &mut Writer, fields: &Vec<RecordFieldExpression>)
    ensures
        forall|rest: Seq<u8>| final(writer)@ + rest == old(writer)@ + #[trigger] record_fields_then(fields@, 0, rest),
{
    let ghost start = writer@;
    let mut index: usize = 0;
    while index < fields.len()
        invariant
            index <= fields.len(),
            forall|rest: Seq<u8>|
                writer@ + #[trigger] record_fields_then(fields@, index as nat, rest) == start + record_fields_then(
                    fields@,
                    0,
                    rest,
                ),
        decreases fields.len() - index,
    {
        let ghost before = writer@;
        let ghost place = index as nat;
        put_record_field(writer, &fields[index]);
        index = index + 1;
        assert forall|rest: Seq<u8>|
            writer@ + #[trigger] record_fields_then(fields@, index as nat, rest) == start + record_fields_then(
                fields@,
                0,
                rest,
            ) by {
            let later = record_fields_then(fields@, index as nat, rest);
            assert(writer@ + later == before + record_field_then(fields@[place as int], later));
            assert(before + record_fields_then(fields@, place, rest) == start + record_fields_then(fields@, 0, rest));
        }
    }
    assert forall|rest: Seq<u8>| writer@ + rest == start + #[trigger] record_fields_then(fields@, 0, rest) by {
        assert(writer@ + record_fields_then(fields@, index as nat, rest) == start + record_fields_then(
            fields@,
            0,
            rest,
        ));
    }
}

/// Writes a value.
fn put_expression(writer: &mut Writer, expression: &MutationExpression)
    ensures
        forall|rest: Seq<u8>| final(writer)@ + rest == old(writer)@ + #[trigger] value_then(expression@, rest),
{
    let tag: u8 = match &expression.kind {
        MutationExpressionKind::Parameter { .. } => PARAMETER_EXPRESSION_TAG,
        MutationExpressionKind::BooleanLiteral { .. } => BOOLEAN_EXPRESSION_TAG,
        MutationExpressionKind::TypedNull => TYPED_NULL_EXPRESSION_TAG,
        MutationExpressionKind::RecordConstructor { .. } => RECORD_CONSTRUCTOR_EXPRESSION_TAG,
    };
    writer.u8(tag);
    let ghost before_type = writer@;
    put_type(writer, expression.resolved_type);
    let ghost before_nullable = writer@;
    writer.boolean(expression.nullable);
    let ghost before_kind = writer@;
    match &expression.kind {
        MutationExpressionKind::Parameter { owner, parameter } => {
            writer.function_id(*owner);
            writer.parameter_id(*parameter);
            assert forall|rest: Seq<u8>| writer@ + rest == before_kind + #[trigger] kind_then(
                expression@.kind,
                rest,
            ) by {
                assert(writer@ + rest =~= before_kind + kind_then(expression@.kind, rest));
            }
        },
        MutationExpressionKind::BooleanLiteral { value } => {
            writer.boolean(*value);
            assert forall|rest: Seq<u8>| writer@ + rest == before_kind + #[trigger] kind_then(
                expression@.kind,
                rest,
            ) by {
                assert(writer@ + rest =~= before_kind + kind_then(expression@.kind, rest));
            }
        },
        MutationExpressionKind::TypedNull => {},
        MutationExpressionKind::RecordConstructor { fields } => {
            #[verifier::truncate]
            let count: u32 = fields.len() as u32;
            writer.u32(count);
            let ghost before_fields = writer@;
            put_record_fields(writer, fields);
            assert forall|rest: Seq<u8>| writer@ + rest == before_kind + #[trigger] kind_then(
                expression@.kind,
                rest,
            ) by {
                let list = record_fields_then(fields@, 0, rest);
                assert(writer@ + rest == before_fields + list);
                assert(before_fields + list =~= before_kind + kind_then(expression@.kind, rest));
            }
        },
    }
    assert forall|rest: Seq<u8>| writer@ + rest == old(writer)@ + #[trigger] value_then(expression@, rest) by {
        reveal(value_then);
        let kind = kind_then(expression@.kind, rest);
        let payload = seq![boolean_byte(expression@.nullable)] + kind;
        assert(writer@ + rest == before_kind + kind);
        assert(before_kind + kind =~= before_nullable + payload);
        assert(before_nullable + payload == before_type + type_then(expression@.resolved_type, payload));
        assert(before_type + type_then(expression@.resolved_type, payload) =~= old(writer)@ + value_then(
            expression@,
            rest,
        ));
    }
}

/// Writes an assignment.
fn put_assignment(writer: &mut Writer, assignment: &FieldAssignment)
    ensures
        forall|rest: Seq<u8>| final(writer)@ + rest == old(writer)@ + #[trigger] assignment_then(assignment@, rest),
{
    writer.type_id(assignment.owner);
    writer.field_id(assignment.field);
    let ghost before = writer@;
    put_expression(writer, &assignment.expression);
    assert forall|rest: Seq<u8>| writer@ + rest == old(writer)@ + #[trigger] assignment_then(assignment@, rest) by {
        let value = value_then(assignment@.value, rest);
        assert(writer@ + rest == before + value);
        assert(before + value =~= old(writer)@ + assignment_then(assignment@, rest));
    }
}

/// Reads a record field.
fn decode_record_field_expression(reader: &mut Reader) -> (result: Result<
    RecordFieldExpression,
    ServerMutationPlanError,
>)
    ensures
        match parsed_record_field(old(reader)@) {
            Ok((field, rest)) => result == Ok::<RecordFieldExpression, ServerMutationPlanError>(field) && final(reader)@ == rest,
            Err(error) => result == Err::<RecordFieldExpression, ServerMutationPlanError>(error),
        },
{
    proof {
        reveal(parsed_record_field);
    }
    let owner = take_type(reader)?;
    let field = take_field(reader)?;
    let tag: u8 = take_u8(reader)?;
    let resolved_type = decode_resolved_type(reader, tag == PARAMETER_EXPRESSION_TAG)?;
    let nullable = decode_boolean(reader, "record field nullability")?;
    validate_nullability("record field", false, nullable)?;
    let kind = match tag {
        PARAMETER_EXPRESSION_TAG => {
            let (function, parameter) = decode_parameter(reader)?;
            RecordFieldExpressionKind::Parameter { owner: function, parameter }
        },
        BOOLEAN_EXPRESSION_TAG => {
            let value = decode_boolean(reader, "record literal")?;
            RecordFieldExpressionKind::BooleanLiteral { value }
        },
        tag => return Err(
            ServerMutationPlanError::InvalidEnumTag { kind: "record field expression kind", tag },
        ),
    };
    let expression = RecordFieldExpression { owner, field, kind, resolved_type };
    validate_record_field_expression(&expression)?;
    Ok(expression)
}

/// Reads `total` record fields.
fn decode_record_fields(reader: &mut Reader, total: usize) -> (result: Result<
    Vec<RecordFieldExpression>,
    ServerMutationPlanError,
>)
    ensures
        match parsed_record_fields(old(reader)@, Seq::empty(), total as nat) {
            Ok((fields, rest)) => result is Ok && result->Ok_0@ == fields && final(reader)@ == rest,
            Err(error) => result == Err::<Vec<RecordFieldExpression>, ServerMutationPlanError>(error),
        },
{
    let mut fields: Vec<RecordFieldExpression> = Vec::with_capacity(total);
    while fields.len() < total
        invariant
            fields.len() <= total,
            parsed_record_fields(old(reader)@, Seq::empty(), total as nat) == parsed_record_fields(
                reader@,
                fields@,
                total as nat,
            ),
        decreases total - fields.len(),
    {
        let field = decode_record_field_expression(reader)?;
        fields.push(field);
    }
    Ok(fields)
}

/// Reads a value.
fn decode_expression(reader: &mut Reader, allow_record: bool) -> (result: Result<
    MutationExpression,
    ServerMutationPlanError,
>)
    ensures
        match parsed_value(old(reader)@, allow_record) {
            Ok((value, rest)) => result is Ok && result->Ok_0@ == value && final(reader)@ == rest,
            Err(error) => result == Err::<MutationExpression, ServerMutationPlanError>(error),
        },
{
    proof {
        reveal(parsed_value);
    }
    let tag: u8 = take_u8(reader)?;
    let resolved_type = decode_resolved_type(reader, allow_record && tag == RECORD_CONSTRUCTOR_EXPRESSION_TAG)?;
    let nullable = decode_boolean(reader, "expression nullability")?;
    let kind = match tag {
        PARAMETER_EXPRESSION_TAG => {
            let (owner, parameter) = decode_parameter(reader)?;
            MutationExpressionKind::Parameter { owner, parameter }
        },
        BOOLEAN_EXPRESSION_TAG => {
            let value = decode_boolean(reader, "literal")?;
            MutationExpressionKind::BooleanLiteral { value }
        },
        TYPED_NULL_EXPRESSION_TAG => MutationExpressionKind::TypedNull,
        RECORD_CONSTRUCTOR_EXPRESSION_TAG if allow_record => {
            let count: usize = decode_count(reader, "record fields", MAX_RECORD_FIELDS)?;
            let fields = decode_record_fields(reader, count)?;
            MutationExpressionKind::RecordConstructor { fields }
        },
        tag => return Err(ServerMutationPlanError::InvalidEnumTag { kind: "mutation expression kind", tag }),
    };
    let expression = MutationExpression { kind, resolved_type, nullable };
    validate_expression(&expression, allow_record)?;
    Ok(expression)
}

/// Reads `total` assignments.
fn decode_assignments(reader: &mut Reader, total: usize, allow_record: bool) -> (result: Result<
    Vec<FieldAssignment>,
    ServerMutationPlanError,
>)
    ensures
        match parsed_assignments(old(reader)@, Seq::empty(), total as nat, allow_record) {
            Ok((assignments, rest)) => {
                &&& result is Ok
                &&& assignments_of(result->Ok_0@) == assignments
                &&& final(reader)@ == rest
            },
            Err(error) => result == Err::<Vec<FieldAssignment>, ServerMutationPlanError>(error),
        },
{
    let mut assignments: Vec<FieldAssignment> = Vec::with_capacity(total);
    assert(assignments_of(assignments@) =~= Seq::empty());
    while assignments.len() < total
        invariant
            assignments.len() <= total,
            parsed_assignments(old(reader)@, Seq::empty(), total as nat, allow_record) == parsed_assignments(
                reader@,
                assignments_of(assignments@),
                total as nat,
                allow_record,
            ),
        decreases total - assignments.len(),
    {
        let ghost done = assignments_of(assignments@);
        let owner = take_type(reader)?;
        let field = take_field(reader)?;
        let expression = decode_expression(reader, allow_record)?;
        let ghost value = Assignment { owner, field, value: expression@ };
        assignments.push(FieldAssignment { owner, field, expression });
        assert(assignments_of(assignments@) =~= done.push(value));
    }
    Ok(assignments)
}

impl ServerMutationPlan {
    /// Writes the assignments.
    fn put_assignments(&self, writer: &mut Writer)
        ensures
            forall|rest: Seq<u8>|
                final(writer)@ + rest == old(writer)@ + #[trigger] assignments_then(self@.assignments, 0, rest),
    {
        let ghost start = writer@;
        let ghost list = self@.assignments;
        let mut index: usize = 0;
        while index < self.assignments.len()
            invariant
                index <= self.assignments.len(),
                list == self@.assignments,
                forall|rest: Seq<u8>|
                    writer@ + #[trigger] assignments_then(list, index as nat, rest) == start + assignments_then(
                        list,
                        0,
                        rest,
                    ),
            decreases self.assignments.len() - index,
        {
            let ghost before = writer@;
            let ghost place = index as nat;
            assert(list[index as int] == self.assignments[index as int]@);
            put_assignment(writer, &self.assignments[index]);
            index = index + 1;
            assert forall|rest: Seq<u8>|
                writer@ + #[trigger] assignments_then(list, index as nat, rest) == start + assignments_then(
                    list,
                    0,
                    rest,
                ) by {
                let later = assignments_then(list, index as nat, rest);
                assert(writer@ + later == before + assignment_then(list[place as int], later));
                assert(before + assignments_then(list, place, rest) == start + assignments_then(list, 0, rest));
            }
        }
        assert forall|rest: Seq<u8>| writer@ + rest == start + #[trigger] assignments_then(list, 0, rest) by {
            assert(writer@ + assignments_then(list, index as nat, rest) == start + assignments_then(list, 0, rest));
        }
    }

    /// Encodes this checked plan into canonical bytes for its operation.
    pub fn encode(&self) -> (result: Result<Vec<u8>, ServerMutationPlanError>)
        ensures
            viewed(result) == encoded_mutation_plan(self@),
    {
        validate_plan(self)?;
        let mut writer = Writer::new();
        put_version(&mut writer, self.format_version());
        match self.operation {
            ServerMutationOperation::Insert => writer.u8(INSERT_OPERATION_TAG),
            ServerMutationOperation::Update { .. } => writer.u8(UPDATE_OPERATION_TAG),
        }
        writer.type_id(self.target);
        let ghost before_selector = writer@;
        if let ServerMutationOperation::Update { selector } = self.operation {
            writer.function_id(selector.owner);
            writer.parameter_id(selector.parameter);
        }
        let ghost before_body = writer@;
        writer.u32(self.assignments.len() as u32);
        let ghost before_assignments = writer@;
        self.put_assignments(&mut writer);
        let ghost before_returned = writer@;
        writer.type_id(self.returned_object);
        proof {
            let last = identity_bytes(self@.returned_object.0);
            assert(before_returned + last == before_assignments + assignments_then(self@.assignments, 0, last));
            assert(writer@ =~= before_body + plan_body(self@));
            assert(writer@ =~= before_selector + after_target(self@));
            assert(writer@ =~= mutation_plan_bytes(self@));
        }
        finish_artifact(writer)
    }

    /// Decodes exactly one canonical INSERT, record INSERT, or UPDATE artefact.
    pub fn decode(bytes: &[u8]) -> (result: Result<ServerMutationPlan, ServerMutationPlanError>)
        ensures
            viewed(result) == decoded_mutation_plan(bytes@),
    {
        validate_artifact_size(bytes.len())?;
        let mut reader = Reader::new(bytes);
        let version: u32 = take_version(&mut reader)?;
        if version != INSERT_FORMAT_VERSION && version != UPDATE_FORMAT_VERSION && version
            != RECORD_INSERT_FORMAT_VERSION {
            return Err(ServerMutationPlanError::UnsupportedVersion(version));
        }
        let tag: u8 = take_u8(&mut reader)?;
        let update = version == UPDATE_FORMAT_VERSION;
        if update && tag != UPDATE_OPERATION_TAG || !update && tag != INSERT_OPERATION_TAG {
            return Err(ServerMutationPlanError::InvalidEnumTag { kind: "operation", tag });
        }
        let target = take_type(&mut reader)?;
        let selector = if update {
            let (owner, parameter) = decode_parameter(&mut reader)?;
            Some(MutationSelector { owner, parameter })
        } else {
            None
        };
        let count: usize = decode_count(&mut reader, "assignments", MAX_ASSIGNMENTS)?;
        let assignments = decode_assignments(&mut reader, count, version == RECORD_INSERT_FORMAT_VERSION)?;
        let returned_object = take_type(&mut reader)?;
        require_finished(&reader)?;
        let plan = match selector {
            Some(selector) => ServerMutationPlan::new_update(target, selector, assignments, returned_object)?,
            None => ServerMutationPlan::new_insert(target, assignments, returned_object)?,
        };
        let expected: u32 = plan.format_version();
        if version != expected {
            return Err(ServerMutationPlanError::NonCanonicalFormatVersion { expected, actual: version });
        }
        Ok(plan)
    }
}

} // verus!
