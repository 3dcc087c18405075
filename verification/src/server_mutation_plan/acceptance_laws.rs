//! Which INSERT and UPDATE plans are accepted, and why others are not.
//!
//! The conditions are written out over the assignments and fields of a plan, so
//! that they can be read without the functions that check them.

use vstd::prelude::*;

use crate::identity::{FieldId, FunctionId, TypeId};
use crate::resolved_type::{ResolvedType, StandardScalar};
use crate::server_mutation_plan::codec::{
    declared_version, decoded_mutation_plan, encoded_mutation_plan, mutation_plan_bytes,
};
use crate::server_mutation_plan::error::ServerMutationPlanError;
use crate::server_mutation_plan::laws::{law_mutation_plan_canonical, law_mutation_plan_version};
use crate::server_mutation_plan::model::{
    built_plan, built_record, Assignment, MutationPlan, RecordFieldExpression, RecordFieldExpressionKind,
    ServerMutationOperation, Value, ValueKind,
};
use crate::server_mutation_plan::rules::{
    assignment_position, assignments_valid, contains_record, field_parameter_owners, owner_accepted, owners_accepted,
    parameter_owners, plan_valid, record_field_position, record_field_valid, record_fields_valid, selector_owner_of,
    value_valid, FirstOwner,
};

verus! {

/// Tells whether a scalar type is one of those that the formats carry.
pub open spec fn carried_scalar(scalar: StandardScalar) -> bool {
    ||| scalar is Boolean
    ||| scalar is Integer
    ||| scalar is BigInt
    ||| scalar is Float
    ||| scalar is CharacterLargeObject
    ||| scalar is BinaryLargeObject
}

/// Tells whether the expression of a record field has a type that it may have.
pub open spec fn field_typed(field: RecordFieldExpression) -> bool {
    match field.kind {
        RecordFieldExpressionKind::Parameter { .. } => match field.resolved_type {
            ResolvedType::Scalar(scalar) => carried_scalar(scalar),
            ResolvedType::Named(_) => true,
            ResolvedType::Reference(_) => false,
            ResolvedType::Value(_) => false,
        },
        RecordFieldExpressionKind::BooleanLiteral { .. } => field.resolved_type matches ResolvedType::Scalar(scalar)
            && scalar is Boolean,
    }
}

/// Tells whether fields make up a record of a type: there is one at least, all
/// belong to the type, no two are the same, and each has a type that it may have.
pub open spec fn makes_record(fields: Seq<RecordFieldExpression>, record_type: TypeId) -> bool {
    &&& 1 <= fields.len() <= 1024
    &&& forall|place: int|
        0 <= place < fields.len() ==> (#[trigger] fields[place]).owner == record_type && field_typed(fields[place])
    &&& forall|first: int, second: int|
        0 <= first < second < fields.len() ==> (#[trigger] fields[first]).field != (#[trigger] fields[second]).field
}

/// Tells whether a value of a plan has the type and nullability of its kind.
pub open spec fn value_typed(value: Value, insert: bool) -> bool {
    match value.kind {
        ValueKind::Parameter { .. } => !value.nullable && match value.resolved_type {
            ResolvedType::Scalar(scalar) => carried_scalar(scalar),
            ResolvedType::Reference(_) => true,
            ResolvedType::Named(_) => false,
            ResolvedType::Value(_) => false,
        },
        ValueKind::BooleanLiteral { .. } => !value.nullable && (value.resolved_type matches ResolvedType::Scalar(
            scalar,
        ) && scalar is Boolean),
        ValueKind::TypedNull => value.nullable && match value.resolved_type {
            ResolvedType::Scalar(scalar) => carried_scalar(scalar),
            ResolvedType::Reference(_) => true,
            ResolvedType::Named(_) => false,
            ResolvedType::Value(_) => false,
        },
        ValueKind::RecordConstructor { fields } => insert && !value.nullable && (
        value.resolved_type matches ResolvedType::Named(record_type) && makes_record(fields, record_type)),
    }
}

/// Tells whether a value is a record constructor with too many fields.
pub open spec fn oversized_record(value: Value) -> bool {
    value.kind matches ValueKind::RecordConstructor { fields } && fields.len() > 1024
}

/// Tells whether a record field reads a parameter of a function.
pub open spec fn field_reads(field: RecordFieldExpression, function: FunctionId) -> bool {
    field.kind matches RecordFieldExpressionKind::Parameter { owner, .. } && owner == function
}

/// Tells whether a value reads a parameter of a function.
pub open spec fn value_reads(value: Value, function: FunctionId) -> bool {
    match value.kind {
        ValueKind::Parameter { owner, .. } => owner == function,
        ValueKind::RecordConstructor { fields } => exists|place: int|
            0 <= place < fields.len() && field_reads(#[trigger] fields[place], function),
        _ => false,
    }
}

/// Tells whether the assignments of a plan address distinct fields of its
/// target, with values of their kinds.
pub open spec fn assignments_stand(plan: MutationPlan) -> bool {
    &&& forall|place: int|
        0 <= place < plan.assignments.len() ==> (#[trigger] plan.assignments[place]).owner == plan.target
            && value_typed(plan.assignments[place].value, plan.operation is Insert)
    &&& forall|first: int, second: int|
        0 <= first < second < plan.assignments.len() ==> (#[trigger] plan.assignments[first]).field != (
        #[trigger] plan.assignments[second]).field
}

/// Tells whether one function owns every parameter that a plan reads, for UPDATE
/// the function that owns its selector.
pub open spec fn one_function_read(plan: MutationPlan) -> bool {
    &&& forall|first: int, second: int, function: FunctionId, other: FunctionId|
        0 <= first < plan.assignments.len() && 0 <= second < plan.assignments.len() && #[trigger] value_reads(
            plan.assignments[first].value,
            function,
        ) && #[trigger] value_reads(plan.assignments[second].value, other) ==> function == other
    &&& plan.operation matches ServerMutationOperation::Update { selector } ==> forall|
        place: int,
        function: FunctionId,
    |
        0 <= place < plan.assignments.len() && #[trigger] value_reads(plan.assignments[place].value, function)
            ==> function == selector.owner
}

/// Tells whether a plan is one that the formats carry.
pub open spec fn plan_stands(plan: MutationPlan) -> bool {
    &&& 1 <= plan.assignments.len() <= 1024
    &&& plan.returned_object == plan.target
    &&& assignments_stand(plan)
    &&& one_function_read(plan)
}

/// The position of a field is that of the first field with its identity.
proof fn lemma_field_position(fields: Seq<RecordFieldExpression>, field: FieldId, from: nat, count: nat)
    requires
        count <= fields.len(),
    ensures
        match record_field_position(fields, field, from, count) {
            Some(place) => from <= place < count && fields[place as int].field == field && forall|earlier: int|
                from <= earlier < place ==> (#[trigger] fields[earlier]).field != field,
            None => forall|place: int| from <= place < count ==> (#[trigger] fields[place]).field != field,
        },
    decreases count - from,
{
    if from < count && fields[from as int].field != field {
        lemma_field_position(fields, field, from + 1, count);
    }
}

/// The fields of a record from `position` on are accepted exactly where each
/// belongs to the type, is typed and repeats no earlier one.
proof fn lemma_record_fields(fields: Seq<RecordFieldExpression>, record_type: TypeId, position: nat)
    ensures
        record_fields_valid(fields, record_type, position) is Ok <==> forall|place: int|
            position <= place < fields.len() ==> {
                &&& (#[trigger] fields[place]).owner == record_type
                &&& field_typed(fields[place])
                &&& forall|earlier: int| 0 <= earlier < place ==> (#[trigger] fields[earlier]).field != fields[place].field
            },
    decreases fields.len() - position,
{
    if position < fields.len() {
        let field = fields[position as int];
        lemma_record_fields(fields, record_type, position + 1);
        lemma_field_position(fields, field.field, 0, position);
        assert(record_field_valid(field) is Ok <==> field_typed(field));
        let accepted = |place: int|
            {
                &&& fields[place].owner == record_type
                &&& field_typed(fields[place])
                &&& forall|earlier: int| 0 <= earlier < place ==> (#[trigger] fields[earlier]).field != fields[place].field
            };
        assert(record_fields_valid(fields, record_type, position) is Ok <==> accepted(position as int)
            && record_fields_valid(fields, record_type, position + 1) is Ok);
    }
}

/// Fields are accepted as a record exactly where they make up one.
proof fn lemma_record(fields: Seq<RecordFieldExpression>, record_type: TypeId)
    ensures
        1 <= fields.len() <= 1024 ==> (record_fields_valid(fields, record_type, 0) is Ok <==> makes_record(
            fields,
            record_type,
        )),
{
    lemma_record_fields(fields, record_type, 0);
    if record_fields_valid(fields, record_type, 0) is Ok {
        assert forall|first: int, second: int| 0 <= first < second < fields.len() implies (
        #[trigger] fields[first]).field != (#[trigger] fields[second]).field by {
            assert(fields[second].owner == record_type);
        }
    }
}

/// A value is accepted exactly where it has the type and nullability of its
/// kind; a record constructor only in an INSERT, and only where its fields are
/// distinct fields of the record type.
pub proof fn law_value_accepted_exactly(value: Value, insert: bool)
    ensures
        value_valid(value, insert) is Ok <==> value_typed(value, insert),
{
    if let ValueKind::RecordConstructor { fields } = value.kind {
        if let ResolvedType::Named(record_type) = value.resolved_type {
            lemma_record(fields, record_type);
        }
    }
}

/// A record constructor is built exactly where its fields are distinct fields of
/// the record type, and holds them unchanged and in order.
pub proof fn law_record_built_exactly(record_type: TypeId, fields: Seq<RecordFieldExpression>)
    ensures
        built_record(record_type, fields) is Ok <==> makes_record(fields, record_type),
        built_record(record_type, fields) matches Ok(value) ==> {
            &&& value.kind == (ValueKind::RecordConstructor { fields })
            &&& value.resolved_type == ResolvedType::Named(record_type)
            &&& !value.nullable
        },
        fields.len() == 0 ==> built_record(record_type, fields) == Err::<Value, ServerMutationPlanError>(
            ServerMutationPlanError::EmptyRecordFields,
        ),
        fields.len() > 1024 ==> built_record(record_type, fields) matches Err(
            ServerMutationPlanError::CollectionLimit { .. },
        ),
        built_record(record_type, fields) matches Err(
            ServerMutationPlanError::DuplicateRecordField { first, duplicate, owner, field },
        ) ==> {
            &&& 0 <= first < duplicate < fields.len()
            &&& fields[first as int].field == field
            &&& fields[duplicate as int].field == field
            &&& owner == record_type
            &&& forall|earlier: int| 0 <= earlier < first ==> (#[trigger] fields[earlier]).field != field
        },
        built_record(record_type, fields) matches Err(
            ServerMutationPlanError::RecordFieldOwnerMismatch { position, expected, actual },
        ) ==> {
            &&& 0 <= position < fields.len()
            &&& fields[position as int].owner == actual
            &&& expected == record_type
            &&& actual != expected
        },
{
    let value = Value {
        kind: ValueKind::RecordConstructor { fields },
        resolved_type: ResolvedType::Named(record_type),
        nullable: false,
    };
    law_value_accepted_exactly(value, true);
    if fields.len() <= 1024 {
        lemma_record_refusal(fields, record_type, 0);
    }
}

/// What a refused record field points at.
proof fn lemma_record_refusal(fields: Seq<RecordFieldExpression>, record_type: TypeId, position: nat)
    requires
        fields.len() <= 1024,
    ensures
        record_fields_valid(fields, record_type, position) matches Err(error) ==> match error {
            ServerMutationPlanError::DuplicateRecordField { first, duplicate, owner, field } => {
                &&& 0 <= first < duplicate < fields.len()
                &&& fields[first as int].field == field
                &&& fields[duplicate as int].field == field
                &&& owner == record_type
                &&& forall|earlier: int| 0 <= earlier < first ==> (#[trigger] fields[earlier]).field != field
            },
            ServerMutationPlanError::RecordFieldOwnerMismatch { position, expected, actual } => {
                &&& 0 <= position < fields.len()
                &&& fields[position as int].owner == actual
                &&& expected == record_type
                &&& actual != expected
            },
            ServerMutationPlanError::UnsupportedValueType { resolved_type } => exists|place: int|
                0 <= place < fields.len() && (#[trigger] fields[place]).resolved_type == resolved_type && !field_typed(
                    fields[place],
                ),
            ServerMutationPlanError::ExpressionTypeMismatch { actual, .. } => exists|place: int|
                0 <= place < fields.len() && (#[trigger] fields[place]).resolved_type == actual && !field_typed(
                    fields[place],
                ),
            _ => false,
        },
    decreases fields.len() - position,
{
    if position < fields.len() {
        let field = fields[position as int];
        lemma_record_refusal(fields, record_type, position + 1);
        lemma_field_position(fields, field.field, 0, position);
    }
}

/// A field list holds the owners of the parameters that it reads, and no other.
proof fn lemma_field_owners(fields: Seq<RecordFieldExpression>, position: nat, function: FunctionId)
    ensures
        field_parameter_owners(fields, position).contains(function) <==> exists|place: int|
            position <= place < fields.len() && field_reads(#[trigger] fields[place], function),
    decreases fields.len() - position,
{
    if position < fields.len() {
        lemma_field_owners(fields, position + 1, function);
        let owners = field_parameter_owners(fields, position);
        let later = field_parameter_owners(fields, position + 1);
        match fields[position as int].kind {
            RecordFieldExpressionKind::Parameter { owner, .. } => {
                assert(owners =~= seq![owner] + later);
                if owners.contains(function) {
                    let index = choose|index: int| 0 <= index < owners.len() && owners[index] == function;
                    if index == 0 {
                        assert(field_reads(fields[position as int], function));
                    } else {
                        assert(later[index - 1] == function);
                    }
                }
                if owner == function {
                    assert(owners[0] == function);
                }
                if later.contains(function) {
                    let index = choose|index: int| 0 <= index < later.len() && later[index] == function;
                    assert(owners[index + 1] == function);
                }
            },
            RecordFieldExpressionKind::BooleanLiteral { .. } => {},
        }
        if exists|place: int| position <= place < fields.len() && field_reads(#[trigger] fields[place], function) {
            let place = choose|place: int|
                position <= place < fields.len() && field_reads(#[trigger] fields[place], function);
            if place > position {
                assert(position + 1 <= place && field_reads(fields[place], function));
            }
        }
    } else {
        assert(!field_parameter_owners(fields, position).contains(function));
    }
}

/// The owners of a value are the functions whose parameters it reads.
pub proof fn law_parameter_owners(value: Value, function: FunctionId)
    ensures
        parameter_owners(value).contains(function) <==> value_reads(value, function),
{
    match value.kind {
        ValueKind::Parameter { owner, .. } => {
            assert(parameter_owners(value)[0] == owner);
        },
        ValueKind::RecordConstructor { fields } => {
            lemma_field_owners(fields, 0, function);
        },
        _ => {},
    }
}

/// Tells whether an owner is the selector's and the one that was found first,
/// where there is one.
spec fn owner_agrees(owner: FunctionId, selector_owner: Option<FunctionId>, first: FirstOwner) -> bool {
    &&& selector_owner matches Some(expected) ==> owner == expected
    &&& first matches Some((expected, _)) ==> owner == expected
}

/// Owners are accepted exactly where they agree with what was found before and
/// with each other.
proof fn lemma_owners(
    owners: Seq<FunctionId>,
    index: nat,
    assignment: usize,
    selector_owner: Option<FunctionId>,
    first: FirstOwner,
)
    ensures
        owners_accepted(owners, index, assignment, selector_owner, first) is Ok <==> {
            &&& forall|place: int|
                index <= place < owners.len() ==> owner_agrees(#[trigger] owners[place], selector_owner, first)
            &&& forall|place: int, other: int|
                index <= place < owners.len() && index <= other < owners.len() ==> #[trigger] owners[place]
                    == #[trigger] owners[other]
        },
        owners_accepted(owners, index, assignment, selector_owner, first) matches Ok(next) ==> next == if first is Some
            || index >= owners.len() {
            first
        } else {
            Some((owners[index as int], assignment))
        },
    decreases owners.len() - index,
{
    if index < owners.len() {
        let owner = owners[index as int];
        match owner_accepted(owner, assignment, selector_owner, first) {
            Ok(next) => {
                lemma_owners(owners, index + 1, assignment, selector_owner, next);
                assert(owner_agrees(owner, selector_owner, first));
                let accepted = owners_accepted(owners, index, assignment, selector_owner, first) is Ok;
                if accepted {
                    assert forall|place: int| index <= place < owners.len() implies #[trigger] owners[place]
                        == owner by {
                        if place > index {
                            assert(owner_agrees(owners[place], selector_owner, next));
                        }
                    }
                }
                if forall|place: int|
                    index <= place < owners.len() ==> owner_agrees(#[trigger] owners[place], selector_owner, first) {
                    if forall|place: int, other: int|
                        index <= place < owners.len() && index <= other < owners.len() ==> #[trigger] owners[place]
                            == #[trigger] owners[other] {
                        assert forall|place: int| index + 1 <= place < owners.len() implies owner_agrees(
                            #[trigger] owners[place],
                            selector_owner,
                            next,
                        ) by {
                            assert(owners[place] == owners[index as int]);
                        }
                    }
                }
            },
            Err(_) => {
                assert(!owner_agrees(owners[index as int], selector_owner, first));
            },
        }
    }
}

/// The position of an assignment is that of the first one to its field.
proof fn lemma_assignment_place(assignments: Seq<Assignment>, owner: TypeId, field: FieldId, from: nat, count: nat)
    requires
        count <= assignments.len(),
    ensures
        match assignment_position(assignments, owner, field, from, count) {
            Some(place) => {
                &&& from <= place < count
                &&& assignments[place as int].owner == owner
                &&& assignments[place as int].field == field
                &&& forall|earlier: int|
                    from <= earlier < place ==> (#[trigger] assignments[earlier]).owner != owner
                        || assignments[earlier].field != field
            },
            None => forall|place: int|
                from <= place < count ==> (#[trigger] assignments[place]).owner != owner || assignments[place].field
                    != field,
        },
    decreases count - from,
{
    if from < count && !(assignments[from as int].owner == owner && assignments[from as int].field == field) {
        lemma_assignment_place(assignments, owner, field, from + 1, count);
    }
}

/// Tells whether the assignments before `index` address the target.
spec fn earlier_owned(plan: MutationPlan, index: nat) -> bool {
    forall|place: int| 0 <= place < index ==> (#[trigger] plan.assignments[place]).owner == plan.target
}

/// Tells whether an assignment stands behind those before it.
spec fn assignment_stands(plan: MutationPlan, place: int) -> bool {
    &&& plan.assignments[place].owner == plan.target
    &&& value_typed(plan.assignments[place].value, plan.operation is Insert)
    &&& forall|earlier: int|
        0 <= earlier < place ==> (#[trigger] plan.assignments[earlier]).field != plan.assignments[place].field
}

/// Tells whether the parameters from an assignment on agree with what was found
/// before it and with each other.
spec fn reads_agree(plan: MutationPlan, index: nat, first: FirstOwner) -> bool {
    &&& forall|place: int, function: FunctionId|
        index <= place < plan.assignments.len() && #[trigger] value_reads(plan.assignments[place].value, function)
            ==> owner_agrees(function, selector_owner_of(plan.operation), first)
    &&& forall|place: int, other: int, function: FunctionId, another: FunctionId|
        index <= place < plan.assignments.len() && index <= other < plan.assignments.len() && #[trigger] value_reads(
            plan.assignments[place].value,
            function,
        ) && #[trigger] value_reads(plan.assignments[other].value, another) ==> function == another
}

/// The assignments from `index` on are accepted exactly where each stands behind
/// those before it and their parameters agree.
#[verifier::rlimit(40)]
proof fn lemma_assignments(plan: MutationPlan, index: nat, first: FirstOwner)
    requires
        index <= plan.assignments.len(),
        earlier_owned(plan, index),
    ensures
        assignments_valid(plan, index, first) is Ok <==> (forall|place: int|
            index <= place < plan.assignments.len() ==> #[trigger] assignment_stands(plan, place)) && reads_agree(
            plan,
            index,
            first,
        ),
    decreases plan.assignments.len() - index,
{
    if index < plan.assignments.len() {
        let assignment = plan.assignments[index as int];
        let owners = parameter_owners(assignment.value);
        let selector_owner = selector_owner_of(plan.operation);
        law_value_accepted_exactly(assignment.value, plan.operation is Insert);
        lemma_assignment_place(plan.assignments, assignment.owner, assignment.field, 0, index);
        lemma_owners(owners, 0, index as usize, selector_owner, first);
        assert forall|function: FunctionId| owners.contains(function) <==> #[trigger] value_reads(
            assignment.value,
            function,
        ) by {
            law_parameter_owners(assignment.value, function);
        }
        let stands = assignment_stands(plan, index as int);
        let accepted = owners_accepted(owners, 0, index as usize, selector_owner, first);
        if assignment.owner == plan.target {
            assert(stands <==> assignment_position(plan.assignments, assignment.owner, assignment.field, 0, index)
                is None && value_valid(assignment.value, plan.operation is Insert) is Ok);
            if accepted is Ok {
                let next = accepted->Ok_0;
                lemma_assignments(plan, index + 1, next);
                if assignments_valid(plan, index + 1, next) is Ok {
                    assert(reads_agree(plan, index + 1, next));
                    assert forall|place: int, function: FunctionId|
                        index <= place < plan.assignments.len() && #[trigger] value_reads(
                            plan.assignments[place].value,
                            function,
                        ) implies owner_agrees(function, selector_owner, first) && (next matches Some((agreed, _))
                        ==> function == agreed) && (next is None ==> place > index) by {
                        if place == index {
                            assert(owners.contains(function));
                            let spot = choose|spot: int| 0 <= spot < owners.len() && owners[spot] == function;
                            assert(owner_agrees(owners[spot], selector_owner, first));
                            assert(owners[spot] == owners[0]);
                        }
                    }
                    assert(reads_agree(plan, index, first));
                }
                if reads_agree(plan, index, first) {
                    assert(reads_agree(plan, index + 1, next)) by {
                        assert forall|place: int, function: FunctionId|
                            index + 1 <= place < plan.assignments.len() && #[trigger] value_reads(
                                plan.assignments[place].value,
                                function,
                            ) implies owner_agrees(function, selector_owner, next) by {
                            if first is None && owners.len() > 0 {
                                assert(owners.contains(owners[0]));
                                assert(value_reads(plan.assignments[index as int].value, owners[0]));
                            }
                        }
                    }
                }
            } else if reads_agree(plan, index, first) {
                assert forall|place: int| 0 <= place < owners.len() implies owner_agrees(
                    #[trigger] owners[place],
                    selector_owner,
                    first,
                ) by {
                    assert(owners.contains(owners[place]));
                    assert(value_reads(plan.assignments[index as int].value, owners[place]));
                }
                assert forall|place: int, other: int|
                    0 <= place < owners.len() && 0 <= other < owners.len() implies #[trigger] owners[place]
                    == #[trigger] owners[other] by {
                    assert(owners.contains(owners[place]) && owners.contains(owners[other]));
                    assert(value_reads(plan.assignments[index as int].value, owners[place]));
                    assert(value_reads(plan.assignments[index as int].value, owners[other]));
                }
            }
        } else {
            assert(!assignment_stands(plan, index as int));
        }
    }
}

/// A plan is accepted exactly where it has assignments within the limit, returns
/// its target, assigns distinct fields of that target with values of their
/// kinds, and reads the parameters of one function.
pub proof fn law_plan_accepted_exactly(plan: MutationPlan)
    ensures
        plan_valid(plan) is Ok <==> plan_stands(plan),
        built_plan(plan) is Ok <==> plan_stands(plan),
        built_plan(plan) matches Ok(built) ==> built == plan,
        encoded_mutation_plan(plan) is Ok <==> plan_stands(plan) && mutation_plan_bytes(plan).len() <= 0x100_0000,
{
    lemma_assignments(plan, 0, None);
    let all = forall|place: int| 0 <= place < plan.assignments.len() ==> #[trigger] assignment_stands(plan, place);
    if all {
        assert forall|place: int| 0 <= place < plan.assignments.len() implies (
        #[trigger] plan.assignments[place]).owner == plan.target && value_typed(
            plan.assignments[place].value,
            plan.operation is Insert,
        ) by {
            assert(assignment_stands(plan, place));
        }
        assert forall|first: int, second: int| 0 <= first < second < plan.assignments.len() implies (
        #[trigger] plan.assignments[first]).field != (#[trigger] plan.assignments[second]).field by {
            assert(assignment_stands(plan, second));
        }
    }
    if assignments_stand(plan) {
        assert forall|place: int| 0 <= place < plan.assignments.len() implies #[trigger] assignment_stands(
            plan,
            place,
        ) by {
            assert(plan.assignments[place].owner == plan.target);
        }
    }
    assert(all <==> assignments_stand(plan));
    assert(reads_agree(plan, 0, None) <==> one_function_read(plan));
    if plan.operation is Update && contains_record(plan.assignments) {
        let index = choose|index: int|
            0 <= index < plan.assignments.len() && (#[trigger] plan.assignments[index]).value.kind
                is RecordConstructor;
        assert(!value_typed(plan.assignments[index].value, false));
    }
}

/// A decoded plan is one that the formats carry, and its version tells its
/// operation: 4 is an INSERT with a record constructor, 2 an UPDATE, and 1 any
/// other INSERT.
pub proof fn law_decoded_plan_stands(bytes: Seq<u8>)
    requires
        decoded_mutation_plan(bytes) is Ok,
    ensures
        plan_stands(decoded_mutation_plan(bytes)->Ok_0),
        declared_version(bytes) is Ok,
        ({
            let plan = decoded_mutation_plan(bytes)->Ok_0;
            let record = exists|place: int|
                0 <= place < plan.assignments.len() && (#[trigger] plan.assignments[place]).value.kind
                    is RecordConstructor;
            declared_version(bytes)->Ok_0.0 == if plan.operation is Update {
                2u32
            } else if record {
                4u32
            } else {
                1u32
            }
        }),
{
    law_mutation_plan_canonical(bytes);
    law_mutation_plan_version(bytes);
    law_plan_accepted_exactly(decoded_mutation_plan(bytes)->Ok_0);
}

/// What a refused plan is told points at what is wrong with it.
pub proof fn law_plan_refusals(plan: MutationPlan)
    ensures
        plan_valid(plan) matches Err(error) ==> match error {
            ServerMutationPlanError::EmptyAssignments => plan.assignments.len() == 0,
            ServerMutationPlanError::ReturnedObjectMismatch { target, returned } => {
                &&& target == plan.target
                &&& returned == plan.returned_object
                &&& target != returned
            },
            ServerMutationPlanError::AssignmentOwnerMismatch { assignment, target, owner } => {
                &&& 0 <= assignment < plan.assignments.len()
                &&& plan.assignments[assignment as int].owner == owner
                &&& target == plan.target
                &&& owner != target
            },
            ServerMutationPlanError::DuplicateFieldAssignment { first, duplicate, owner, field } => {
                &&& 0 <= first < duplicate < plan.assignments.len()
                &&& plan.assignments[first as int].field == field
                &&& plan.assignments[duplicate as int].field == field
                &&& plan.assignments[first as int].owner == owner
                &&& plan.assignments[duplicate as int].owner == owner
                &&& owner == plan.target
            },
            ServerMutationPlanError::MixedParameterOwners { first, assignment, expected, actual } => {
                &&& 0 <= first <= assignment < plan.assignments.len()
                &&& value_reads(plan.assignments[first as int].value, expected)
                &&& value_reads(plan.assignments[assignment as int].value, actual)
                &&& expected != actual
            },
            ServerMutationPlanError::SelectorParameterOwnerMismatch {
                assignment,
                selector_owner,
                assignment_owner,
            } => {
                &&& 0 <= assignment < plan.assignments.len()
                &&& plan.operation matches ServerMutationOperation::Update { selector } && selector.owner
                    == selector_owner
                &&& value_reads(plan.assignments[assignment as int].value, assignment_owner)
                &&& selector_owner != assignment_owner
            },
            ServerMutationPlanError::RecordConstructorRequiresInsert => {
                &&& plan.operation is Update
                &&& exists|place: int|
                    0 <= place < plan.assignments.len() && (#[trigger] plan.assignments[place]).value.kind
                        is RecordConstructor
            },
            ServerMutationPlanError::CollectionLimit { .. } => plan.assignments.len() > 1024 || exists|place: int|
                0 <= place < plan.assignments.len() && oversized_record((#[trigger] plan.assignments[place]).value),
            _ => exists|place: int|
                0 <= place < plan.assignments.len() && !value_typed(
                    (#[trigger] plan.assignments[place]).value,
                    plan.operation is Insert,
                ),
        },
{
    if plan.assignments.len() <= 1024 {
        lemma_assignment_refusals(plan, 0, None);
    }
}

/// Tells whether the first owner that was found is read by an assignment before
/// `index`.
spec fn found_earlier(plan: MutationPlan, index: nat, first: FirstOwner) -> bool {
    first matches Some((owner, place)) ==> place < index && value_reads(plan.assignments[place as int].value, owner)
}

/// What a refused owner points at.
proof fn lemma_owner_refusals(
    owners: Seq<FunctionId>,
    index: nat,
    assignment: usize,
    selector_owner: Option<FunctionId>,
    first: FirstOwner,
)
    ensures
        owners_accepted(owners, index, assignment, selector_owner, first) matches Err(error) ==> match error {
            ServerMutationPlanError::MixedParameterOwners { first: place, assignment: at, expected, actual } => {
                &&& at == assignment
                &&& owners.contains(actual)
                &&& expected != actual
                &&& first == Some((expected, place)) || (place == assignment && owners.contains(expected))
            },
            ServerMutationPlanError::SelectorParameterOwnerMismatch {
                assignment: at,
                selector_owner: selected,
                assignment_owner,
            } => {
                &&& at == assignment
                &&& owners.contains(assignment_owner)
                &&& selector_owner == Some(selected)
                &&& selected != assignment_owner
            },
            _ => false,
        },
    decreases owners.len() - index,
{
    if index < owners.len() {
        assert(owners.contains(owners[index as int]));
        if let Ok(next) = owner_accepted(owners[index as int], assignment, selector_owner, first) {
            lemma_owner_refusals(owners, index + 1, assignment, selector_owner, next);
        }
    }
}

/// What a refused assignment from `index` on points at.
#[verifier::rlimit(40)]
proof fn lemma_assignment_refusals(plan: MutationPlan, index: nat, first: FirstOwner)
    requires
        plan.assignments.len() <= 1024,
        index <= plan.assignments.len(),
        found_earlier(plan, index, first),
    ensures
        assignments_valid(plan, index, first) matches Err(error) ==> match error {
            ServerMutationPlanError::AssignmentOwnerMismatch { assignment, target, owner } => {
                &&& 0 <= assignment < plan.assignments.len()
                &&& plan.assignments[assignment as int].owner == owner
                &&& target == plan.target
                &&& owner != target
            },
            ServerMutationPlanError::DuplicateFieldAssignment { first, duplicate, owner, field } => {
                &&& 0 <= first < duplicate < plan.assignments.len()
                &&& plan.assignments[first as int].field == field
                &&& plan.assignments[duplicate as int].field == field
                &&& plan.assignments[first as int].owner == owner
                &&& plan.assignments[duplicate as int].owner == owner
                &&& owner == plan.target
            },
            ServerMutationPlanError::MixedParameterOwners { first, assignment, expected, actual } => {
                &&& 0 <= first <= assignment < plan.assignments.len()
                &&& value_reads(plan.assignments[first as int].value, expected)
                &&& value_reads(plan.assignments[assignment as int].value, actual)
                &&& expected != actual
            },
            ServerMutationPlanError::SelectorParameterOwnerMismatch {
                assignment,
                selector_owner,
                assignment_owner,
            } => {
                &&& 0 <= assignment < plan.assignments.len()
                &&& plan.operation matches ServerMutationOperation::Update { selector } && selector.owner
                    == selector_owner
                &&& value_reads(plan.assignments[assignment as int].value, assignment_owner)
                &&& selector_owner != assignment_owner
            },
            ServerMutationPlanError::RecordConstructorRequiresInsert => {
                &&& plan.operation is Update
                &&& exists|place: int|
                    0 <= place < plan.assignments.len() && (#[trigger] plan.assignments[place]).value.kind
                        is RecordConstructor
            },
            ServerMutationPlanError::CollectionLimit { .. } => exists|place: int|
                0 <= place < plan.assignments.len() && oversized_record((#[trigger] plan.assignments[place]).value),
            ServerMutationPlanError::EmptyAssignments => false,
            ServerMutationPlanError::ReturnedObjectMismatch { .. } => false,
            _ => exists|place: int|
                0 <= place < plan.assignments.len() && !value_typed(
                    (#[trigger] plan.assignments[place]).value,
                    plan.operation is Insert,
                ),
        },
    decreases plan.assignments.len() - index,
{
    if index < plan.assignments.len() {
        let assignment = plan.assignments[index as int];
        let owners = parameter_owners(assignment.value);
        let selector_owner = selector_owner_of(plan.operation);
        law_value_accepted_exactly(assignment.value, plan.operation is Insert);
        lemma_value_refusals(assignment.value, plan.operation is Insert);
        lemma_assignment_place(plan.assignments, assignment.owner, assignment.field, 0, index);
        lemma_owners(owners, 0, index as usize, selector_owner, first);
        lemma_owner_refusals(owners, 0, index as usize, selector_owner, first);
        assert forall|function: FunctionId| owners.contains(function) <==> #[trigger] value_reads(
            assignment.value,
            function,
        ) by {
            law_parameter_owners(assignment.value, function);
        }
        assert(plan.assignments[index as int] == assignment);
        if let Ok(next) = owners_accepted(owners, 0, index as usize, selector_owner, first) {
            if first is None && owners.len() > 0 {
                assert(owners.contains(owners[0]));
                assert(value_reads(assignment.value, owners[0]));
            }
            lemma_assignment_refusals(plan, index + 1, next);
        }
    }
}

/// A refused value is told only what a value can be told.
proof fn lemma_value_refusals(value: Value, insert: bool)
    ensures
        value_valid(value, insert) matches Err(error) ==> match error {
            ServerMutationPlanError::AssignmentOwnerMismatch { .. } => false,
            ServerMutationPlanError::DuplicateFieldAssignment { .. } => false,
            ServerMutationPlanError::MixedParameterOwners { .. } => false,
            ServerMutationPlanError::SelectorParameterOwnerMismatch { .. } => false,
            ServerMutationPlanError::EmptyAssignments => false,
            ServerMutationPlanError::ReturnedObjectMismatch { .. } => false,
            ServerMutationPlanError::RecordConstructorRequiresInsert => !insert && value.kind is RecordConstructor,
            ServerMutationPlanError::CollectionLimit { .. } => oversized_record(value),
            _ => true,
        },
{
    if let ValueKind::RecordConstructor { fields } = value.kind {
        if let ResolvedType::Named(record_type) = value.resolved_type {
            if fields.len() <= 1024 {
                lemma_record_refusal(fields, record_type, 0);
            }
        }
    }
}

} // verus!
