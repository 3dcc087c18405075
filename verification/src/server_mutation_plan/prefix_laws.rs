//! Artefacts end where their content ends.
//!
//! Of an artefact that decodes, every strict prefix is refused as truncated, and
//! anything behind it is refused as trailing bytes.

use vstd::prelude::*;

use crate::artifact_codec::{group_reads_extend, read_identity, read_u8};
use crate::server_mutation_plan::codec::{
    declared_version, decoded_mutation_plan, parsed_assignment, parsed_assignments, parsed_body, parsed_count,
    parsed_field_expression, parsed_field_kind, parsed_kind, parsed_operation, parsed_parameter, parsed_plan,
    parsed_record_field, parsed_record_fields, parsed_truth, parsed_type, parsed_value, size_error, Parsed,
};
use crate::server_mutation_plan::delete::{decoded_delete_plan, ServerDeletePlan};
use crate::server_mutation_plan::error::ServerMutationPlanError;
use crate::server_mutation_plan::model::{Assignment, MutationPlan, RecordFieldExpression};
use crate::server_mutation_plan::{
    MAX_ARTIFACT_BYTES, MAX_ASSIGNMENTS, MAX_RECORD_FIELDS, PARAMETER_EXPRESSION_TAG, RECORD_CONSTRUCTOR_EXPRESSION_TAG,
    RECORD_INSERT_FORMAT_VERSION,
};

verus! {

broadcast use group_reads_extend;

/// Tells whether `longer`, read from an input that goes on with `more`, agrees
/// with what was read from the input, unless the input ended too early.
pub open spec fn extends<T>(parsed: Parsed<T>, longer: Parsed<T>, more: Seq<u8>) -> bool {
    match parsed {
        Err(ServerMutationPlanError::Truncated) => true,
        Err(error) => longer == Err::<(T, Seq<u8>), ServerMutationPlanError>(error),
        Ok((value, rest)) => longer == Ok::<(T, Seq<u8>), ServerMutationPlanError>((value, rest + more)),
    }
}

/// Tells whether an artefact that decodes ends where its content ends: what is
/// decoded from the front of a longer input fails as truncated, and what is
/// decoded from the longer input fails for its trailing bytes.
pub open spec fn ends_exactly<T>(
    front: Result<T, ServerMutationPlanError>,
    longer: Result<T, ServerMutationPlanError>,
) -> bool {
    &&& front is Ok ==> longer == Err::<T, ServerMutationPlanError>(ServerMutationPlanError::TrailingBytes)
    &&& longer is Ok ==> front == Err::<T, ServerMutationPlanError>(ServerMutationPlanError::Truncated)
}

/// A resolved type.
proof fn lemma_type_extends(input: Seq<u8>, allow_named: bool, more: Seq<u8>)
    ensures
        extends(parsed_type(input, allow_named), parsed_type(input + more, allow_named), more),
{
}

/// A Boolean.
proof fn lemma_truth_extends(input: Seq<u8>, context: &'static str, more: Seq<u8>)
    ensures
        extends(parsed_truth(input, context), parsed_truth(input + more, context), more),
{
}

/// A count.
proof fn lemma_count_extends(input: Seq<u8>, kind: &'static str, maximum: u32, more: Seq<u8>)
    ensures
        extends(parsed_count(input, kind, maximum), parsed_count(input + more, kind, maximum), more),
{
}

/// A parameter.
proof fn lemma_parameter_extends(input: Seq<u8>, more: Seq<u8>)
    ensures
        extends(parsed_parameter(input), parsed_parameter(input + more), more),
{
}

/// What a record field holds.
proof fn lemma_field_kind_extends(input: Seq<u8>, tag: u8, more: Seq<u8>)
    ensures
        extends(parsed_field_kind(input, tag), parsed_field_kind(input + more, tag), more),
{
    lemma_parameter_extends(input, more);
    lemma_truth_extends(input, "record literal", more);
}

/// The expression of a record field.
proof fn lemma_field_expression_extends(input: Seq<u8>, more: Seq<u8>)
    ensures
        extends(parsed_field_expression(input), parsed_field_expression(input + more), more),
{
    if let Some((tag, rest)) = read_u8(input) {
        let allow_named = tag == PARAMETER_EXPRESSION_TAG;
        lemma_type_extends(rest, allow_named, more);
        if let Ok((_, rest)) = parsed_type(rest, allow_named) {
            lemma_truth_extends(rest, "record field nullability", more);
            if let Ok((_, rest)) = parsed_truth(rest, "record field nullability") {
                lemma_field_kind_extends(rest, tag, more);
            }
        }
    }
}

/// A record field.
proof fn lemma_record_field_extends(input: Seq<u8>, more: Seq<u8>)
    ensures
        extends(parsed_record_field(input), parsed_record_field(input + more), more),
{
    reveal(parsed_record_field);
    if let Some((_, rest)) = read_identity(input) {
        if let Some((_, rest)) = read_identity(rest) {
            lemma_field_expression_extends(rest, more);
        }
    }
}

/// Record fields.
proof fn lemma_record_fields_extend(input: Seq<u8>, done: Seq<RecordFieldExpression>, total: nat, more: Seq<u8>)
    ensures
        extends(parsed_record_fields(input, done, total), parsed_record_fields(input + more, done, total), more),
    decreases total - done.len(),
{
    if done.len() < total {
        lemma_record_field_extends(input, more);
        if let Ok((field, rest)) = parsed_record_field(input) {
            lemma_record_fields_extend(rest, done.push(field), total, more);
        }
    }
}

/// What a mutation expression holds.
proof fn lemma_kind_extends(input: Seq<u8>, tag: u8, allow_record: bool, more: Seq<u8>)
    ensures
        extends(parsed_kind(input, tag, allow_record), parsed_kind(input + more, tag, allow_record), more),
{
    lemma_parameter_extends(input, more);
    lemma_truth_extends(input, "literal", more);
    lemma_count_extends(input, "record fields", MAX_RECORD_FIELDS, more);
    if let Ok((count, rest)) = parsed_count(input, "record fields", MAX_RECORD_FIELDS) {
        lemma_record_fields_extend(rest, Seq::empty(), count, more);
    }
}

/// A mutation expression.
proof fn lemma_value_extends(input: Seq<u8>, allow_record: bool, more: Seq<u8>)
    ensures
        extends(parsed_value(input, allow_record), parsed_value(input + more, allow_record), more),
{
    reveal(parsed_value);
    if let Some((tag, rest)) = read_u8(input) {
        let allow_named = allow_record && tag == RECORD_CONSTRUCTOR_EXPRESSION_TAG;
        lemma_type_extends(rest, allow_named, more);
        if let Ok((_, rest)) = parsed_type(rest, allow_named) {
            lemma_truth_extends(rest, "expression nullability", more);
            if let Ok((_, rest)) = parsed_truth(rest, "expression nullability") {
                lemma_kind_extends(rest, tag, allow_record, more);
            }
        }
    }
}

/// Assignments.
proof fn lemma_assignments_extend(
    input: Seq<u8>,
    done: Seq<Assignment>,
    total: nat,
    allow_record: bool,
    more: Seq<u8>,
)
    ensures
        extends(
            parsed_assignments(input, done, total, allow_record),
            parsed_assignments(input + more, done, total, allow_record),
            more,
        ),
    decreases total - done.len(),
{
    if done.len() < total {
        if let Some((_, rest)) = read_identity(input) {
            if let Some((_, rest)) = read_identity(rest) {
                lemma_value_extends(rest, allow_record, more);
            }
        }
        assert(extends(parsed_assignment(input, allow_record), parsed_assignment(input + more, allow_record), more));
        if let Ok((assignment, rest)) = parsed_assignment(input, allow_record) {
            lemma_assignments_extend(rest, done.push(assignment), total, allow_record, more);
        }
    }
}

/// The assignments and the returned object of a plan.
proof fn lemma_body_extends(input: Seq<u8>, allow_record: bool, more: Seq<u8>)
    ensures
        extends(parsed_body(input, allow_record), parsed_body(input + more, allow_record), more),
{
    lemma_count_extends(input, "assignments", MAX_ASSIGNMENTS, more);
    if let Ok((count, rest)) = parsed_count(input, "assignments", MAX_ASSIGNMENTS) {
        lemma_assignments_extend(rest, Seq::empty(), count, allow_record, more);
    }
}

/// A plan behind its operation tag.
proof fn lemma_plan_extends(input: Seq<u8>, version: u32, more: Seq<u8>)
    ensures
        extends(parsed_plan(input, version), parsed_plan(input + more, version), more),
{
    if let Some((_, rest)) = read_identity(input) {
        lemma_parameter_extends(rest, more);
        assert(extends(parsed_operation(rest, version), parsed_operation(rest + more, version), more));
        if let Ok((_, rest)) = parsed_operation(rest, version) {
            lemma_body_extends(rest, version == RECORD_INSERT_FORMAT_VERSION, more);
        }
    }
}

/// A mutation plan ends where its content ends.
proof fn lemma_mutation_plan_ends(bytes: Seq<u8>, more: Seq<u8>)
    requires
        more.len() > 0,
    ensures
        if bytes.len() + more.len() > MAX_ARTIFACT_BYTES {
            decoded_mutation_plan(bytes + more) == Err::<MutationPlan, ServerMutationPlanError>(
                size_error(bytes.len() + more.len()),
            )
        } else {
            ends_exactly(decoded_mutation_plan(bytes), decoded_mutation_plan(bytes + more))
        },
{
    assert(extends(declared_version(bytes), declared_version(bytes + more), more));
    if let Ok((version, rest)) = declared_version(bytes) {
        if let Some((_, rest)) = read_u8(rest) {
            lemma_plan_extends(rest, version, more);
        }
    }
}

/// Every strict prefix of an `INSERT` or `UPDATE` plan is refused as truncated.
pub proof fn law_mutation_plan_prefix_truncated(bytes: Seq<u8>, length: nat)
    requires
        decoded_mutation_plan(bytes) is Ok,
        length < bytes.len(),
    ensures
        decoded_mutation_plan(bytes.take(length as int)) == Err::<MutationPlan, ServerMutationPlanError>(
            ServerMutationPlanError::Truncated,
        ),
{
    let front = bytes.take(length as int);
    let more = bytes.skip(length as int);
    assert(front + more =~= bytes);
    assert(bytes.len() == front.len() + more.len());
    lemma_mutation_plan_ends(front, more);
}

/// An `INSERT` or `UPDATE` plan is refused with anything behind it: as too long
/// beyond the size limit, and for its trailing bytes within it.
pub proof fn law_mutation_plan_trailing_refused(bytes: Seq<u8>, more: Seq<u8>)
    requires
        decoded_mutation_plan(bytes) is Ok,
        more.len() > 0,
    ensures
        decoded_mutation_plan(bytes + more) == if bytes.len() + more.len() > MAX_ARTIFACT_BYTES {
            Err::<MutationPlan, ServerMutationPlanError>(size_error(bytes.len() + more.len()))
        } else {
            Err::<MutationPlan, ServerMutationPlanError>(ServerMutationPlanError::TrailingBytes)
        },
{
    lemma_mutation_plan_ends(bytes, more);
}

/// A `DELETE` plan ends where its content ends.
proof fn lemma_delete_plan_ends(bytes: Seq<u8>, more: Seq<u8>)
    requires
        more.len() > 0,
    ensures
        if bytes.len() + more.len() > MAX_ARTIFACT_BYTES {
            decoded_delete_plan(bytes + more) == Err::<ServerDeletePlan, ServerMutationPlanError>(
                size_error(bytes.len() + more.len()),
            )
        } else {
            ends_exactly(decoded_delete_plan(bytes), decoded_delete_plan(bytes + more))
        },
{
    assert(extends(declared_version(bytes), declared_version(bytes + more), more));
}

/// Every strict prefix of a `DELETE` plan is refused as truncated.
pub proof fn law_delete_plan_prefix_truncated(bytes: Seq<u8>, length: nat)
    requires
        decoded_delete_plan(bytes) is Ok,
        length < bytes.len(),
    ensures
        decoded_delete_plan(bytes.take(length as int)) == Err::<ServerDeletePlan, ServerMutationPlanError>(
            ServerMutationPlanError::Truncated,
        ),
{
    let front = bytes.take(length as int);
    let more = bytes.skip(length as int);
    assert(front + more =~= bytes);
    assert(bytes.len() == front.len() + more.len());
    lemma_delete_plan_ends(front, more);
}

/// A `DELETE` plan is refused with anything behind it: as too long beyond the
/// size limit, and for its trailing bytes within it.
pub proof fn law_delete_plan_trailing_refused(bytes: Seq<u8>, more: Seq<u8>)
    requires
        decoded_delete_plan(bytes) is Ok,
        more.len() > 0,
    ensures
        decoded_delete_plan(bytes + more) == if bytes.len() + more.len() > MAX_ARTIFACT_BYTES {
            Err::<ServerDeletePlan, ServerMutationPlanError>(size_error(bytes.len() + more.len()))
        } else {
            Err::<ServerDeletePlan, ServerMutationPlanError>(ServerMutationPlanError::TrailingBytes)
        },
{
    lemma_delete_plan_ends(bytes, more);
}

} // verus!
