//! Where the parts of a mutation plan's artefact stand.
//!
//! The laws give the bytes by their places, counted from the first byte of each
//! part. Numbers are unsigned, most significant byte first.

use vstd::prelude::*;

use crate::artifact_codec::u32_bytes;
use crate::codec_laws::{lemma_identity_number, lemma_short_number, number_at};
use crate::identity::identity_bytes;
use crate::resolved_type::ResolvedType;
use crate::server_mutation_plan::codec::{
    assignment_then, assignments_then, kind_then, mutation_plan_bytes, plan_body, record_field_then,
    record_fields_then, type_then, value_then,
};
use crate::server_mutation_plan::model::{
    plan_version, Assignment, MutationPlan, RecordFieldExpression, RecordFieldExpressionKind, ServerMutationOperation,
    Value, ValueKind,
};

verus! {

/// An artefact holds the magic, the version, the operation, the target, for an
/// update the parameter that selects the object, the assignments and the returned
/// object.
pub proof fn law_plan_layout(plan: MutationPlan)
    requires
        plan.assignments.len() <= 0xffff_ffff,
    ensures
        mutation_plan_bytes(plan).take(8) == seq![79u8, 82u8, 78u8, 65u8, 77u8, 80u8, 0u8, 0u8],
        number_at(mutation_plan_bytes(plan), 8, 12) == plan_version(plan),
        mutation_plan_bytes(plan)[12] == (if plan.operation is Insert {
            1u8
        } else {
            2u8
        }),
        number_at(mutation_plan_bytes(plan), 13, 29) == plan.target.0,
        match plan.operation {
            ServerMutationOperation::Insert => mutation_plan_bytes(plan).skip(29) == plan_body(plan),
            ServerMutationOperation::Update { selector } => {
                &&& number_at(mutation_plan_bytes(plan), 29, 45) == selector.owner.0
                &&& number_at(mutation_plan_bytes(plan), 45, 61) == selector.parameter.0
                &&& mutation_plan_bytes(plan).skip(61) == plan_body(plan)
            },
        },
        number_at(plan_body(plan), 0, 4) == plan.assignments.len(),
        plan_body(plan).skip(4) == assignments_then(plan.assignments, 0, identity_bytes(plan.returned_object.0)),
{
    let whole = mutation_plan_bytes(plan);
    let body = plan_body(plan);
    lemma_short_number(plan_version(plan));
    lemma_short_number(plan.assignments.len() as u32);
    lemma_identity_number(plan.target.0);
    assert(whole.take(8) =~= seq![79u8, 82u8, 78u8, 65u8, 77u8, 80u8, 0u8, 0u8]);
    assert(whole.subrange(8, 12) =~= u32_bytes(plan_version(plan)));
    assert(whole.subrange(13, 29) =~= identity_bytes(plan.target.0));
    assert(body.subrange(0, 4) =~= u32_bytes(plan.assignments.len() as u32));
    assert(body.skip(4) =~= assignments_then(plan.assignments, 0, identity_bytes(plan.returned_object.0)));
    match plan.operation {
        ServerMutationOperation::Insert => {
            assert(whole.skip(29) =~= body);
        },
        ServerMutationOperation::Update { selector } => {
            lemma_identity_number(selector.owner.0);
            lemma_identity_number(selector.parameter.0);
            assert(whole.subrange(29, 45) =~= identity_bytes(selector.owner.0));
            assert(whole.subrange(45, 61) =~= identity_bytes(selector.parameter.0));
            assert(whole.skip(61) =~= body);
        },
    }
}

/// Assignments stand in order, each an owner, a field and a value.
pub proof fn law_assignment_layout(assignments: Seq<Assignment>, place: nat, rest: Seq<u8>)
    ensures
        place < assignments.len() ==> {
            &&& number_at(assignments_then(assignments, place, rest), 0, 16) == assignments[place as int].owner.0
            &&& number_at(assignments_then(assignments, place, rest), 16, 32) == assignments[place as int].field.0
            &&& assignments_then(assignments, place, rest).skip(32) == value_then(
                assignments[place as int].value,
                assignments_then(assignments, place + 1, rest),
            )
        },
        place >= assignments.len() ==> assignments_then(assignments, place, rest) == rest,
{
    if place < assignments.len() {
        let whole = assignments_then(assignments, place, rest);
        let assignment = assignments[place as int];
        let later = assignments_then(assignments, place + 1, rest);
        lemma_identity_number(assignment.owner.0);
        lemma_identity_number(assignment.field.0);
        assert(whole == assignment_then(assignment, later));
        assert(whole.subrange(0, 16) =~= identity_bytes(assignment.owner.0));
        assert(whole.subrange(16, 32) =~= identity_bytes(assignment.field.0));
        assert(whole.skip(32) =~= value_then(assignment.value, later));
    }
}

/// A value holds its sort, its type, whether it may be null, and what it is.
pub proof fn law_value_layout(value: Value, rest: Seq<u8>)
    ensures
        value_then(value, rest)[0] == (match value.kind {
            ValueKind::Parameter { .. } => 1u8,
            ValueKind::BooleanLiteral { .. } => 2u8,
            ValueKind::TypedNull => 3u8,
            ValueKind::RecordConstructor { .. } => 4u8,
        }),
        value_then(value, rest).skip(1) == type_then(
            value.resolved_type,
            seq![if value.nullable {
                1u8
            } else {
                0u8
            }] + kind_then(value.kind, rest),
        ),
{
    reveal(value_then);
    assert(value_then(value, rest).skip(1) =~= type_then(
        value.resolved_type,
        seq![if value.nullable {
            1u8
        } else {
            0u8
        }] + kind_then(value.kind, rest),
    ));
}

/// What a value is: the owner and the parameter that it reads, the literal,
/// nothing, or the fields of a record.
pub proof fn law_kind_layout(kind: ValueKind, rest: Seq<u8>)
    ensures
        match kind {
            ValueKind::Parameter { owner, parameter } => {
                &&& number_at(kind_then(kind, rest), 0, 16) == owner.0
                &&& number_at(kind_then(kind, rest), 16, 32) == parameter.0
                &&& kind_then(kind, rest).skip(32) == rest
            },
            ValueKind::BooleanLiteral { value } => {
                &&& kind_then(kind, rest)[0] == (if value {
                    1u8
                } else {
                    0u8
                })
                &&& kind_then(kind, rest).skip(1) == rest
            },
            ValueKind::TypedNull => kind_then(kind, rest) == rest,
            ValueKind::RecordConstructor { fields } => fields.len() <= 0xffff_ffff ==> {
                &&& number_at(kind_then(kind, rest), 0, 4) == fields.len()
                &&& kind_then(kind, rest).skip(4) == record_fields_then(fields, 0, rest)
            },
        },
{
    let whole = kind_then(kind, rest);
    match kind {
        ValueKind::Parameter { owner, parameter } => {
            lemma_identity_number(owner.0);
            lemma_identity_number(parameter.0);
            assert(whole.subrange(0, 16) =~= identity_bytes(owner.0));
            assert(whole.subrange(16, 32) =~= identity_bytes(parameter.0));
            assert(whole.skip(32) =~= rest);
        },
        ValueKind::BooleanLiteral { .. } => {
            assert(whole.skip(1) =~= rest);
        },
        ValueKind::TypedNull => {},
        ValueKind::RecordConstructor { fields } => {
            lemma_short_number(fields.len() as u32);
            assert(whole.subrange(0, 4) =~= u32_bytes(fields.len() as u32));
            assert(whole.skip(4) =~= record_fields_then(fields, 0, rest));
        },
    }
}

/// A type holds its sort, and behind it the scalar or the identity of the type.
pub proof fn law_type_layout(resolved_type: ResolvedType, rest: Seq<u8>)
    ensures
        match resolved_type {
            ResolvedType::Scalar(scalar) => {
                &&& type_then(resolved_type, rest)[0] == 1
                &&& type_then(resolved_type, rest).skip(2) == rest
                &&& scalar is Boolean ==> type_then(resolved_type, rest)[1] == 1
                &&& scalar is Integer ==> type_then(resolved_type, rest)[1] == 2
                &&& scalar is BigInt ==> type_then(resolved_type, rest)[1] == 3
                &&& scalar is Float ==> type_then(resolved_type, rest)[1] == 4
                &&& scalar is CharacterLargeObject ==> type_then(resolved_type, rest)[1] == 6
                &&& scalar is BinaryLargeObject ==> type_then(resolved_type, rest)[1] == 7
            },
            ResolvedType::Named(type_id) => {
                &&& type_then(resolved_type, rest)[0] == 2
                &&& number_at(type_then(resolved_type, rest), 1, 17) == type_id.0
                &&& type_then(resolved_type, rest).skip(17) == rest
            },
            ResolvedType::Reference(type_id) => {
                &&& type_then(resolved_type, rest)[0] == 3
                &&& number_at(type_then(resolved_type, rest), 1, 17) == type_id.0
                &&& type_then(resolved_type, rest).skip(17) == rest
            },
            ResolvedType::Value(_) => true,
        },
{
    let whole = type_then(resolved_type, rest);
    match resolved_type {
        ResolvedType::Scalar(_) => {
            assert(whole.skip(2) =~= rest);
        },
        ResolvedType::Named(type_id) => {
            lemma_identity_number(type_id.0);
            assert(whole.subrange(1, 17) =~= identity_bytes(type_id.0));
            assert(whole.skip(17) =~= rest);
        },
        ResolvedType::Reference(type_id) => {
            lemma_identity_number(type_id.0);
            assert(whole.subrange(1, 17) =~= identity_bytes(type_id.0));
            assert(whole.skip(17) =~= rest);
        },
        ResolvedType::Value(_) => {},
    }
}

/// Record fields stand in order, each an owner, a field, the sort and type of its
/// value, that it may not be null, and what it is.
pub proof fn law_record_field_layout(fields: Seq<RecordFieldExpression>, place: nat, rest: Seq<u8>)
    requires
        place < fields.len(),
    ensures
        number_at(record_fields_then(fields, place, rest), 0, 16) == fields[place as int].owner.0,
        number_at(record_fields_then(fields, place, rest), 16, 32) == fields[place as int].field.0,
        record_fields_then(fields, place, rest)[32] == (match fields[place as int].kind {
            RecordFieldExpressionKind::Parameter { .. } => 1u8,
            RecordFieldExpressionKind::BooleanLiteral { .. } => 2u8,
        }),
        record_fields_then(fields, place, rest).skip(33) == type_then(
            fields[place as int].resolved_type,
            seq![0u8] + kind_then(field_kind(fields[place as int]), record_fields_then(fields, place + 1, rest)),
        ),
{
    let field = fields[place as int];
    let later = record_fields_then(fields, place + 1, rest);
    let whole = record_fields_then(fields, place, rest);
    reveal(record_field_then);
    lemma_identity_number(field.owner.0);
    lemma_identity_number(field.field.0);
    assert(whole == record_field_then(field, later));
    assert(whole.subrange(0, 16) =~= identity_bytes(field.owner.0));
    assert(whole.subrange(16, 32) =~= identity_bytes(field.field.0));
    assert(whole.skip(33) =~= type_then(field.resolved_type, seq![0u8] + kind_then(field_kind(field), later)));
}

/// What the value of a record field is.
pub open spec fn field_kind(field: RecordFieldExpression) -> ValueKind {
    match field.kind {
        RecordFieldExpressionKind::Parameter { owner, parameter } => ValueKind::Parameter { owner, parameter },
        RecordFieldExpressionKind::BooleanLiteral { value } => ValueKind::BooleanLiteral { value },
    }
}

} // verus!
