//! INSERT and UPDATE artefacts have exactly one encoding.

use vstd::prelude::*;

use crate::artifact_codec::{boolean_byte, read_identity, read_u32, read_u8};
use crate::artifact_codec::{lemma_identity_read, lemma_u32_read, lemma_u8_read};
use crate::artifact_codec::{lemma_read_identity, lemma_read_u32, lemma_read_u8};
use crate::identity::{identity_bytes, FunctionId, ParameterId, TypeId};
use crate::resolved_type::ResolvedType;
use crate::server_mutation_plan::codec::{
    after_target, assignments_then, declared_version, decoded_mutation_plan, decoded_versioned_plan,
    encoded_mutation_plan, kind_then, lemma_version, lemma_version_read, mutation_plan_bytes, operation_wire,
    parsed_assignment, parsed_assignments, parsed_body, parsed_field_expression, parsed_field_kind, parsed_kind,
    parsed_operation, parsed_parameter, parsed_plan, parsed_record_field, parsed_record_fields, parsed_truth,
    parsed_type, parsed_value, plan_body, record_field_then, record_fields_then, type_then, value_then, value_wire,
};
use crate::server_mutation_plan::error::ServerMutationPlanError;
use crate::server_mutation_plan::model::{
    plan_version, Assignment, MutationPlan, RecordFieldExpression, RecordFieldExpressionKind,
    ServerMutationOperation, Value, ValueKind,
};
use crate::server_mutation_plan::rules::{
    contains_record, lemma_assignments_keep, plan_valid, record_field_valid, record_fields_valid, scalar_supported,
    value_valid,
};
use crate::server_mutation_plan::{
    BOOLEAN_EXPRESSION_TAG, NAMED_TYPE_TAG, PARAMETER_EXPRESSION_TAG, RECORD_CONSTRUCTOR_EXPRESSION_TAG,
    RECORD_INSERT_FORMAT_VERSION, REFERENCE_TYPE_TAG, SCALAR_TYPE_TAG,
};

verus! {

/// Tells whether a type has an encoding where `allow_named` says whether it may
/// be nominal.
spec fn encodable(resolved_type: ResolvedType, allow_named: bool) -> bool {
    match resolved_type {
        ResolvedType::Scalar(scalar) => scalar_supported(scalar),
        ResolvedType::Named(_) => allow_named,
        ResolvedType::Reference(_) => true,
        ResolvedType::Value(_) => false,
    }
}

/// A type is read back.
proof fn lemma_type_round_trip(resolved_type: ResolvedType, allow_named: bool, rest: Seq<u8>)
    requires
        encodable(resolved_type, allow_named),
    ensures
        parsed_type(type_then(resolved_type, rest), allow_named) == Ok::<
            (ResolvedType, Seq<u8>),
            ServerMutationPlanError,
        >((resolved_type, rest)),
{
    match resolved_type {
        ResolvedType::Scalar(scalar) => {
            let tag = crate::server_mutation_plan::codec::scalar_wire(scalar);
            lemma_read_u8(SCALAR_TYPE_TAG, seq![tag] + rest);
            lemma_read_u8(tag, rest);
        },
        ResolvedType::Named(type_id) => {
            lemma_read_u8(NAMED_TYPE_TAG, identity_bytes(type_id.0) + rest);
            lemma_read_identity(type_id.0, rest);
        },
        ResolvedType::Reference(type_id) => {
            lemma_read_u8(REFERENCE_TYPE_TAG, identity_bytes(type_id.0) + rest);
            lemma_read_identity(type_id.0, rest);
        },
        ResolvedType::Value(_) => {},
    }
}

/// What a type was read from.
proof fn lemma_type_canonical(input: Seq<u8>, allow_named: bool)
    ensures
        parsed_type(input, allow_named) matches Ok((resolved_type, rest)) ==> {
            &&& input == type_then(resolved_type, rest)
            &&& encodable(resolved_type, allow_named)
        },
{
    if parsed_type(input, allow_named) is Ok {
        lemma_u8_read(input);
        let (tag, payload) = read_u8(input)->Some_0;
        if tag == SCALAR_TYPE_TAG {
            lemma_u8_read(payload);
        } else {
            lemma_identity_read(payload);
        }
    }
}

/// A truth value is read back.
proof fn lemma_truth_round_trip(value: bool, context: &'static str, rest: Seq<u8>)
    ensures
        parsed_truth(seq![boolean_byte(value)] + rest, context) == Ok::<(bool, Seq<u8>), ServerMutationPlanError>(
            (value, rest),
        ),
{
    lemma_read_u8(boolean_byte(value), rest);
}

/// What a truth value was read from.
proof fn lemma_truth_canonical(input: Seq<u8>, context: &'static str)
    ensures
        parsed_truth(input, context) matches Ok((value, rest)) ==> input == seq![boolean_byte(value)] + rest,
{
    lemma_u8_read(input);
}

/// A parameter is read back.
proof fn lemma_parameter_round_trip(owner: FunctionId, parameter: ParameterId, rest: Seq<u8>)
    ensures
        parsed_parameter(identity_bytes(owner.0) + (identity_bytes(parameter.0) + rest)) == Ok::<
            ((FunctionId, ParameterId), Seq<u8>),
            ServerMutationPlanError,
        >(((owner, parameter), rest)),
{
    lemma_read_identity(owner.0, identity_bytes(parameter.0) + rest);
    lemma_read_identity(parameter.0, rest);
}

/// What a parameter was read from.
proof fn lemma_parameter_canonical(input: Seq<u8>)
    ensures
        parsed_parameter(input) matches Ok(((owner, parameter), rest)) ==> input == identity_bytes(owner.0) + (
        identity_bytes(parameter.0) + rest),
{
    if parsed_parameter(input) is Ok {
        lemma_identity_read(input);
        lemma_identity_read(read_identity(input)->Some_0.1);
    }
}

/// A valid record field is read back.
proof fn lemma_record_field_round_trip(field: RecordFieldExpression, rest: Seq<u8>)
    requires
        record_field_valid(field) is Ok,
    ensures
        parsed_record_field(record_field_then(field, rest)) == Ok::<
            (RecordFieldExpression, Seq<u8>),
            ServerMutationPlanError,
        >((field, rest)),
{
    reveal(record_field_then);
    reveal(parsed_record_field);
    let (tag, payload) = match field.kind {
        RecordFieldExpressionKind::Parameter { owner, parameter } => (
            PARAMETER_EXPRESSION_TAG,
            identity_bytes(owner.0) + (identity_bytes(parameter.0) + rest),
        ),
        RecordFieldExpressionKind::BooleanLiteral { value } => (
            BOOLEAN_EXPRESSION_TAG,
            seq![boolean_byte(value)] + rest,
        ),
    };
    let after_type = seq![boolean_byte(false)] + payload;
    let after_tag = type_then(field.resolved_type, after_type);
    let after_field = seq![tag] + after_tag;
    lemma_read_identity(field.owner.0, identity_bytes(field.field.0) + after_field);
    lemma_read_identity(field.field.0, after_field);
    lemma_read_u8(tag, after_tag);
    lemma_type_round_trip(field.resolved_type, tag == PARAMETER_EXPRESSION_TAG, after_type);
    lemma_truth_round_trip(false, "record field nullability", payload);
    match field.kind {
        RecordFieldExpressionKind::Parameter { owner, parameter } => {
            lemma_parameter_round_trip(owner, parameter, rest);
        },
        RecordFieldExpressionKind::BooleanLiteral { value } => {
            lemma_truth_round_trip(value, "record literal", rest);
        },
    }
    assert(parsed_field_kind(payload, tag) == Ok::<(RecordFieldExpressionKind, Seq<u8>), ServerMutationPlanError>(
        (field.kind, rest),
    ));
    assert(parsed_field_expression(after_field) is Ok);
}

/// What a record field was read from.
proof fn lemma_record_field_canonical(input: Seq<u8>)
    ensures
        parsed_record_field(input) matches Ok((field, rest)) ==> {
            &&& input == record_field_then(field, rest)
            &&& record_field_valid(field) is Ok
        },
{
    reveal(record_field_then);
    reveal(parsed_record_field);
    if parsed_record_field(input) is Ok {
        lemma_identity_read(input);
        let after_owner = read_identity(input)->Some_0.1;
        lemma_identity_read(after_owner);
        let after_field = read_identity(after_owner)->Some_0.1;
        assert(parsed_field_expression(after_field) is Ok);
        lemma_u8_read(after_field);
        let (tag, after_tag) = read_u8(after_field)->Some_0;
        lemma_type_canonical(after_tag, tag == PARAMETER_EXPRESSION_TAG);
        let after_type = parsed_type(after_tag, tag == PARAMETER_EXPRESSION_TAG)->Ok_0.1;
        lemma_truth_canonical(after_type, "record field nullability");
        let payload = parsed_truth(after_type, "record field nullability")->Ok_0.1;
        if tag == PARAMETER_EXPRESSION_TAG {
            lemma_parameter_canonical(payload);
        } else {
            lemma_truth_canonical(payload, "record literal");
        }
    }
}

/// Valid record fields are read back.
proof fn lemma_record_fields_round_trip(
    fields: Seq<RecordFieldExpression>,
    record_type: TypeId,
    index: nat,
    rest: Seq<u8>,
)
    requires
        index <= fields.len(),
        record_fields_valid(fields, record_type, index) is Ok,
    ensures
        parsed_record_fields(record_fields_then(fields, index, rest), fields.take(index as int), fields.len()) == Ok::<
            (Seq<RecordFieldExpression>, Seq<u8>),
            ServerMutationPlanError,
        >((fields, rest)),
    decreases fields.len() - index,
{
    let done = fields.take(index as int);
    if index < fields.len() {
        lemma_record_field_round_trip(fields[index as int], record_fields_then(fields, index + 1, rest));
        lemma_record_fields_round_trip(fields, record_type, index + 1, rest);
        assert(done.push(fields[index as int]) =~= fields.take((index + 1) as int));
    } else {
        assert(done =~= fields);
    }
}

/// What record fields were read from.
proof fn lemma_record_fields_canonical(input: Seq<u8>, done: Seq<RecordFieldExpression>, total: nat)
    requires
        done.len() <= total,
    ensures
        parsed_record_fields(input, done, total) matches Ok((fields, rest)) ==> {
            &&& fields.len() == total
            &&& fields.take(done.len() as int) == done
            &&& input == record_fields_then(fields, done.len(), rest)
        },
    decreases total - done.len(),
{
    if done.len() < total {
        if parsed_record_fields(input, done, total) is Ok {
            lemma_record_field_canonical(input);
            let (field, later) = parsed_record_field(input)->Ok_0;
            let next = done.push(field);
            lemma_record_fields_canonical(later, next, total);
            let fields = parsed_record_fields(later, next, total)->Ok_0.0;
            let position = done.len() as int;
            assert(fields[position] == fields.take(next.len() as int)[position]);
            assert(fields.take(position) =~= fields.take(next.len() as int).take(position));
            assert(next.take(position) =~= done);
        }
    } else {
        assert(done.take(done.len() as int) =~= done);
    }
}

/// A valid value is read back.
proof fn lemma_value_round_trip(value: Value, allow_record: bool, rest: Seq<u8>)
    requires
        value_valid(value, allow_record) is Ok,
    ensures
        parsed_value(value_then(value, rest), allow_record) == Ok::<(Value, Seq<u8>), ServerMutationPlanError>(
            (value, rest),
        ),
{
    reveal(value_then);
    reveal(parsed_value);
    let tag = value_wire(value);
    let allow_named = allow_record && tag == RECORD_CONSTRUCTOR_EXPRESSION_TAG;
    let payload = kind_then(value.kind, rest);
    let after_type = seq![boolean_byte(value.nullable)] + payload;
    lemma_read_u8(tag, type_then(value.resolved_type, after_type));
    lemma_type_round_trip(value.resolved_type, allow_named, after_type);
    lemma_truth_round_trip(value.nullable, "expression nullability", payload);
    match value.kind {
        ValueKind::Parameter { owner, parameter } => lemma_parameter_round_trip(owner, parameter, rest),
        ValueKind::BooleanLiteral { value } => lemma_truth_round_trip(value, "literal", rest),
        ValueKind::TypedNull => {},
        ValueKind::RecordConstructor { fields } => {
            let record_type = value.resolved_type->Named_0;
            lemma_read_u32(fields.len() as u32, record_fields_then(fields, 0, rest));
            lemma_record_fields_round_trip(fields, record_type, 0, rest);
            assert(fields.take(0) =~= Seq::empty());
        },
    }
    assert(parsed_kind(payload, tag, allow_record) == Ok::<(ValueKind, Seq<u8>), ServerMutationPlanError>(
        (value.kind, rest),
    ));
}

/// What a value was read from.
proof fn lemma_value_canonical(input: Seq<u8>, allow_record: bool)
    ensures
        parsed_value(input, allow_record) matches Ok((value, rest)) ==> {
            &&& input == value_then(value, rest)
            &&& value_valid(value, allow_record) is Ok
        },
{
    reveal(value_then);
    reveal(parsed_value);
    if parsed_value(input, allow_record) is Ok {
        lemma_u8_read(input);
        let (tag, after_tag) = read_u8(input)->Some_0;
        let allow_named = allow_record && tag == RECORD_CONSTRUCTOR_EXPRESSION_TAG;
        lemma_type_canonical(after_tag, allow_named);
        let after_type = parsed_type(after_tag, allow_named)->Ok_0.1;
        lemma_truth_canonical(after_type, "expression nullability");
        let payload = parsed_truth(after_type, "expression nullability")->Ok_0.1;
        assert(parsed_kind(payload, tag, allow_record) is Ok);
        if tag == PARAMETER_EXPRESSION_TAG {
            lemma_parameter_canonical(payload);
        } else if tag == BOOLEAN_EXPRESSION_TAG {
            lemma_truth_canonical(payload, "literal");
        } else if tag == RECORD_CONSTRUCTOR_EXPRESSION_TAG {
            lemma_u32_read(payload);
            let (count, list) = read_u32(payload)->Some_0;
            lemma_record_fields_canonical(list, Seq::empty(), count as nat);
        }
    }
}

/// Valid assignments are read back.
proof fn lemma_assignments_round_trip(
    assignments: Seq<Assignment>,
    index: nat,
    allow_record: bool,
    rest: Seq<u8>,
)
    requires
        index <= assignments.len(),
        forall|i: int|
            index <= i < assignments.len() ==> value_valid((#[trigger] assignments[i]).value, allow_record) is Ok,
    ensures
        parsed_assignments(
            assignments_then(assignments, index, rest),
            assignments.take(index as int),
            assignments.len(),
            allow_record,
        ) == Ok::<(Seq<Assignment>, Seq<u8>), ServerMutationPlanError>((assignments, rest)),
    decreases assignments.len() - index,
{
    let done = assignments.take(index as int);
    if index < assignments.len() {
        let assignment = assignments[index as int];
        let later = assignments_then(assignments, index + 1, rest);
        let encoded = value_then(assignment.value, later);
        lemma_read_identity(assignment.owner.0, identity_bytes(assignment.field.0) + encoded);
        lemma_read_identity(assignment.field.0, encoded);
        lemma_value_round_trip(assignment.value, allow_record, later);
        lemma_assignments_round_trip(assignments, index + 1, allow_record, rest);
        assert(done.push(assignment) =~= assignments.take((index + 1) as int));
    } else {
        assert(done =~= assignments);
    }
}

/// What assignments were read from.
proof fn lemma_assignments_canonical(input: Seq<u8>, done: Seq<Assignment>, total: nat, allow_record: bool)
    requires
        done.len() <= total,
    ensures
        parsed_assignments(input, done, total, allow_record) matches Ok((assignments, rest)) ==> {
            &&& assignments.len() == total
            &&& assignments.take(done.len() as int) == done
            &&& input == assignments_then(assignments, done.len(), rest)
        },
    decreases total - done.len(),
{
    if done.len() < total {
        if parsed_assignments(input, done, total, allow_record) is Ok {
            lemma_identity_read(input);
            let after_owner = read_identity(input)->Some_0.1;
            lemma_identity_read(after_owner);
            let encoded = read_identity(after_owner)->Some_0.1;
            lemma_value_canonical(encoded, allow_record);
            let (assignment, later) = parsed_assignment(input, allow_record)->Ok_0;
            let next = done.push(assignment);
            lemma_assignments_canonical(later, next, total, allow_record);
            let assignments = parsed_assignments(later, next, total, allow_record)->Ok_0.0;
            let position = done.len() as int;
            assert(assignments[position] == assignments.take(next.len() as int)[position]);
            assert(assignments.take(position) =~= assignments.take(next.len() as int).take(position));
            assert(next.take(position) =~= done);
        }
    } else {
        assert(done.take(done.len() as int) =~= done);
    }
}

/// Every value of a valid plan is valid for the version of the plan.
proof fn lemma_values_fit_version(plan: MutationPlan)
    requires
        plan_valid(plan) is Ok,
    ensures
        forall|i: int|
            0 <= i < plan.assignments.len() ==> value_valid(
                (#[trigger] plan.assignments[i]).value,
                plan_version(plan) == RECORD_INSERT_FORMAT_VERSION,
            ) is Ok,
{
    lemma_assignments_keep(plan, 0, None);
    assert forall|i: int| 0 <= i < plan.assignments.len() implies value_valid(
        (#[trigger] plan.assignments[i]).value,
        plan_version(plan) == RECORD_INSERT_FORMAT_VERSION,
    ) is Ok by {
        assert(value_valid(plan.assignments[i].value, plan.operation is Insert) is Ok);
        if plan.assignments[i].value.kind is RecordConstructor {
            assert(contains_record(plan.assignments));
        }
    }
}

/// The body of a valid plan is read back.
proof fn lemma_body_round_trip(plan: MutationPlan)
    requires
        plan_valid(plan) is Ok,
    ensures
        parsed_body(plan_body(plan), plan_version(plan) == RECORD_INSERT_FORMAT_VERSION) == Ok::<
            ((Seq<Assignment>, TypeId), Seq<u8>),
            ServerMutationPlanError,
        >(((plan.assignments, plan.returned_object), Seq::empty())),
{
    let allow_record = plan_version(plan) == RECORD_INSERT_FORMAT_VERSION;
    let last = identity_bytes(plan.returned_object.0);
    lemma_values_fit_version(plan);
    lemma_read_u32(plan.assignments.len() as u32, assignments_then(plan.assignments, 0, last));
    lemma_assignments_round_trip(plan.assignments, 0, allow_record, last);
    assert(plan.assignments.take(0) =~= Seq::empty());
    assert(last =~= last + Seq::<u8>::empty());
    lemma_read_identity(plan.returned_object.0, Seq::empty());
}

/// Decoding an encoded plan gives that plan back.
pub proof fn law_mutation_plan_round_trip(plan: MutationPlan)
    ensures
        encoded_mutation_plan(plan) matches Ok(bytes) ==> decoded_mutation_plan(bytes) == Ok::<
            MutationPlan,
            ServerMutationPlanError,
        >(plan),
{
    if encoded_mutation_plan(plan) is Ok {
        let version = plan_version(plan);
        let tag = operation_wire(plan.operation);
        let payload = identity_bytes(plan.target.0) + after_target(plan);
        lemma_version(version, seq![tag] + payload);
        lemma_read_u8(tag, payload);
        lemma_read_identity(plan.target.0, after_target(plan));
        if let ServerMutationOperation::Update { selector } = plan.operation {
            lemma_parameter_round_trip(selector.owner, selector.parameter, plan_body(plan));
        }
        assert(parsed_operation(after_target(plan), version) == Ok::<
            (ServerMutationOperation, Seq<u8>),
            ServerMutationPlanError,
        >((plan.operation, plan_body(plan))));
        lemma_body_round_trip(plan);
        assert(parsed_plan(payload, version) == Ok::<(MutationPlan, Seq<u8>), ServerMutationPlanError>(
            (plan, Seq::empty()),
        ));
        assert(decoded_versioned_plan(seq![tag] + payload, version) is Ok);
    }
}

/// An artefact that decodes is the encoding of what it decodes to.
pub proof fn law_mutation_plan_canonical(bytes: Seq<u8>)
    ensures
        decoded_mutation_plan(bytes) matches Ok(plan) ==> encoded_mutation_plan(plan) == Ok::<
            Seq<u8>,
            ServerMutationPlanError,
        >(bytes),
{
    if decoded_mutation_plan(bytes) is Ok {
        let plan = decoded_mutation_plan(bytes)->Ok_0;
        lemma_version_read(bytes);
        let (version, after_version) = declared_version(bytes)->Ok_0;
        let allow_record = version == RECORD_INSERT_FORMAT_VERSION;
        lemma_u8_read(after_version);
        let payload = read_u8(after_version)->Some_0.1;
        lemma_identity_read(payload);
        let after_target_bytes = read_identity(payload)->Some_0.1;
        lemma_parameter_canonical(after_target_bytes);
        let body = parsed_operation(after_target_bytes, version)->Ok_0.1;
        lemma_u32_read(body);
        let (count, list) = read_u32(body)->Some_0;
        lemma_assignments_canonical(list, Seq::empty(), count as nat, allow_record);
        let last = parsed_assignments(list, Seq::empty(), count as nat, allow_record)->Ok_0.1;
        lemma_identity_read(last);
        let rest = read_identity(last)->Some_0.1;
        assert(last =~= identity_bytes(plan.returned_object.0));
        assert(body =~= plan_body(plan));
        assert(after_target_bytes =~= after_target(plan));
        assert(bytes =~= mutation_plan_bytes(plan));
    }
}

/// A plan that decodes declares the one version of its operation and its
/// expressions.
pub proof fn law_mutation_plan_version(bytes: Seq<u8>)
    ensures
        decoded_mutation_plan(bytes) matches Ok(plan) ==> declared_version(bytes) is Ok && declared_version(
            bytes,
        )->Ok_0.0 == plan_version(plan),
{
}

} // verus!
