//! The rules of single-object INSERT and UPDATE plans.
//!
//! Assignments address distinct fields of the target, every value has a type of
//! the closed set and the nullability of its kind, and all parameters that a
//! plan reads belong to one function.

use vstd::prelude::*;

use crate::identity::{FieldId, FunctionId, TypeId};
use crate::resolved_type::{ResolvedType, StandardScalar};
use crate::server_mutation_plan::error::ServerMutationPlanError;
use crate::server_mutation_plan::model::{
    assignments_of, Assignment, FieldAssignment, MutationExpression, MutationExpressionKind, MutationPlan,
    RecordFieldExpression, RecordFieldExpressionKind, ServerMutationOperation, ServerMutationPlan, Value, ValueKind,
};
use crate::server_mutation_plan::{MAX_ASSIGNMENTS, MAX_RECORD_FIELDS};

verus! {

/// Tells whether the formats have a tag for a scalar type.
pub open spec fn scalar_supported(scalar: StandardScalar) -> bool {
    match scalar {
        StandardScalar::Boolean => true,
        StandardScalar::Integer => true,
        StandardScalar::BigInt => true,
        StandardScalar::Float => true,
        StandardScalar::CharacterLargeObject => true,
        StandardScalar::BinaryLargeObject => true,
        _ => false,
    }
}

/// Why a parameter or typed NULL cannot have a type, if it cannot: the closed
/// set holds the supported scalars and references.
pub open spec fn supported_type_refusal(resolved_type: ResolvedType) -> Option<ServerMutationPlanError> {
    let supported = match resolved_type {
        ResolvedType::Scalar(scalar) => scalar_supported(scalar),
        ResolvedType::Reference(_) => true,
        _ => false,
    };
    if supported {
        None
    } else {
        Some(ServerMutationPlanError::UnsupportedValueType { resolved_type })
    }
}

/// Why a record field cannot have a type, if it cannot: the closed set holds the
/// supported scalars and nominal types.
pub open spec fn record_field_type_refusal(resolved_type: ResolvedType) -> Option<ServerMutationPlanError> {
    let supported = match resolved_type {
        ResolvedType::Scalar(scalar) => scalar_supported(scalar),
        ResolvedType::Named(_) => true,
        _ => false,
    };
    if supported {
        None
    } else {
        Some(ServerMutationPlanError::UnsupportedValueType { resolved_type })
    }
}

/// Whether an expression has the nullability of its kind.
pub open spec fn nullability_valid(expression_kind: &'static str, expected: bool, actual: bool) -> Result<
    (),
    ServerMutationPlanError,
> {
    if actual == expected {
        Ok(())
    } else {
        Err(ServerMutationPlanError::ExpressionNullabilityMismatch { expression_kind, expected, actual })
    }
}

/// The position of the first field before `count` with an identity.
pub open spec fn record_field_position(
    fields: Seq<RecordFieldExpression>,
    field: FieldId,
    from: nat,
    count: nat,
) -> Option<nat>
    decreases count - from,
{
    if from >= count {
        None
    } else if fields[from as int].field == field {
        Some(from)
    } else {
        record_field_position(fields, field, from + 1, count)
    }
}

/// Whether the expression of a record field is of the closed set.
pub open spec fn record_field_valid(field: RecordFieldExpression) -> Result<(), ServerMutationPlanError> {
    match field.kind {
        RecordFieldExpressionKind::Parameter { .. } => match record_field_type_refusal(field.resolved_type) {
            Some(error) => Err(error),
            None => Ok(()),
        },
        RecordFieldExpressionKind::BooleanLiteral { .. } => {
            let expected = ResolvedType::Scalar(StandardScalar::Boolean);
            if field.resolved_type == expected {
                Ok(())
            } else {
                Err(
                    ServerMutationPlanError::ExpressionTypeMismatch {
                        expression_kind: "record BOOLEAN literal",
                        expected,
                        actual: field.resolved_type,
                    },
                )
            }
        },
    }
}

/// Whether the fields of a record from `position` on keep the rules.
pub open spec fn record_fields_valid(fields: Seq<RecordFieldExpression>, record_type: TypeId, position: nat) -> Result<
    (),
    ServerMutationPlanError,
>
    decreases fields.len() - position,
{
    if position >= fields.len() {
        Ok(())
    } else {
        let field = fields[position as int];
        if field.owner != record_type {
            Err(
                ServerMutationPlanError::RecordFieldOwnerMismatch {
                    position: position as usize,
                    expected: record_type,
                    actual: field.owner,
                },
            )
        } else {
            match record_field_position(fields, field.field, 0, position) {
                Some(first) => Err(
                    ServerMutationPlanError::DuplicateRecordField {
                        first: first as usize,
                        duplicate: position as usize,
                        owner: record_type,
                        field: field.field,
                    },
                ),
                None => match record_field_valid(field) {
                    Err(error) => Err(error),
                    Ok(()) => record_fields_valid(fields, record_type, position + 1),
                },
            }
        }
    }
}

/// Whether a record constructor keeps the rules.
pub open spec fn record_valid(resolved_type: ResolvedType, nullable: bool, fields: Seq<RecordFieldExpression>) -> Result<
    (),
    ServerMutationPlanError,
> {
    if fields.len() == 0 {
        Err(ServerMutationPlanError::EmptyRecordFields)
    } else if fields.len() > MAX_RECORD_FIELDS {
        Err(
            ServerMutationPlanError::CollectionLimit {
                kind: "record fields",
                count: fields.len() as usize,
                maximum: MAX_RECORD_FIELDS,
            },
        )
    } else {
        match resolved_type {
            ResolvedType::Named(record_type) => match nullability_valid("record constructor", false, nullable) {
                Err(error) => Err(error),
                Ok(()) => record_fields_valid(fields, record_type, 0),
            },
            _ => Err(
                ServerMutationPlanError::ExpressionTypeMismatch {
                    expression_kind: "record constructor",
                    expected: ResolvedType::Named(fields[0].owner),
                    actual: resolved_type,
                },
            ),
        }
    }
}

/// Whether a value keeps the rules of its kind.
pub open spec fn value_valid(value: Value, allow_record: bool) -> Result<(), ServerMutationPlanError> {
    match value.kind {
        ValueKind::Parameter { .. } => match supported_type_refusal(value.resolved_type) {
            Some(error) => Err(error),
            None => nullability_valid("parameter", false, value.nullable),
        },
        ValueKind::BooleanLiteral { .. } => {
            let expected = ResolvedType::Scalar(StandardScalar::Boolean);
            if value.resolved_type != expected {
                Err(
                    ServerMutationPlanError::ExpressionTypeMismatch {
                        expression_kind: "BOOLEAN literal",
                        expected,
                        actual: value.resolved_type,
                    },
                )
            } else {
                nullability_valid("BOOLEAN literal", false, value.nullable)
            }
        },
        ValueKind::TypedNull => match supported_type_refusal(value.resolved_type) {
            Some(error) => Err(error),
            None => nullability_valid("typed NULL", true, value.nullable),
        },
        ValueKind::RecordConstructor { fields } => if !allow_record {
            Err(ServerMutationPlanError::RecordConstructorRequiresInsert)
        } else {
            record_valid(value.resolved_type, value.nullable, fields)
        },
    }
}

/// Tells whether an assignment holds a record constructor.
pub open spec fn contains_record(assignments: Seq<Assignment>) -> bool {
    exists|index: int|
        0 <= index < assignments.len() && (#[trigger] assignments[index]).value.kind is RecordConstructor
}

/// The functions that own the parameters of the fields from `position` on, in
/// order.
pub open spec fn field_parameter_owners(fields: Seq<RecordFieldExpression>, position: nat) -> Seq<FunctionId>
    decreases fields.len() - position,
{
    if position >= fields.len() {
        Seq::empty()
    } else {
        match fields[position as int].kind {
            RecordFieldExpressionKind::Parameter { owner, .. } => seq![owner] + field_parameter_owners(
                fields,
                position + 1,
            ),
            RecordFieldExpressionKind::BooleanLiteral { .. } => field_parameter_owners(fields, position + 1),
        }
    }
}

/// The functions that own the parameters of a value, in order.
pub open spec fn parameter_owners(value: Value) -> Seq<FunctionId> {
    match value.kind {
        ValueKind::Parameter { owner, .. } => seq![owner],
        ValueKind::RecordConstructor { fields } => field_parameter_owners(fields, 0),
        _ => Seq::empty(),
    }
}

/// The first function that owned a parameter of a plan, and the assignment that
/// reads it.
pub type FirstOwner = Option<(FunctionId, usize)>;

/// The first owner behind a parameter of the function `owner`, or why a plan
/// cannot read that parameter.
pub open spec fn owner_accepted(
    owner: FunctionId,
    assignment: usize,
    selector_owner: Option<FunctionId>,
    first: FirstOwner,
) -> Result<FirstOwner, ServerMutationPlanError> {
    if selector_owner is Some && owner != selector_owner->Some_0 {
        Err(
            ServerMutationPlanError::SelectorParameterOwnerMismatch {
                assignment,
                selector_owner: selector_owner->Some_0,
                assignment_owner: owner,
            },
        )
    } else {
        match first {
            None => Ok(Some((owner, assignment))),
            Some((expected, position)) => if expected != owner {
                Err(
                    ServerMutationPlanError::MixedParameterOwners {
                        first: position,
                        assignment,
                        expected,
                        actual: owner,
                    },
                )
            } else {
                Ok(first)
            },
        }
    }
}

/// The first owner behind the parameters from `index` on.
pub open spec fn owners_accepted(
    owners: Seq<FunctionId>,
    index: nat,
    assignment: usize,
    selector_owner: Option<FunctionId>,
    first: FirstOwner,
) -> Result<FirstOwner, ServerMutationPlanError>
    decreases owners.len() - index,
{
    if index >= owners.len() {
        Ok(first)
    } else {
        match owner_accepted(owners[index as int], assignment, selector_owner, first) {
            Err(error) => Err(error),
            Ok(first) => owners_accepted(owners, index + 1, assignment, selector_owner, first),
        }
    }
}

/// The position of the first assignment before `count` to a field.
pub open spec fn assignment_position(
    assignments: Seq<Assignment>,
    owner: TypeId,
    field: FieldId,
    from: nat,
    count: nat,
) -> Option<nat>
    decreases count - from,
{
    if from >= count {
        None
    } else if assignments[from as int].owner == owner && assignments[from as int].field == field {
        Some(from)
    } else {
        assignment_position(assignments, owner, field, from + 1, count)
    }
}

/// The function that owns the selector of a plan.
pub open spec fn selector_owner_of(operation: ServerMutationOperation) -> Option<FunctionId> {
    match operation {
        ServerMutationOperation::Insert => None,
        ServerMutationOperation::Update { selector } => Some(selector.owner),
    }
}

/// Whether the assignments from `index` on keep the rules.
pub open spec fn assignments_valid(plan: MutationPlan, index: nat, first: FirstOwner) -> Result<
    (),
    ServerMutationPlanError,
>
    decreases plan.assignments.len() - index,
{
    if index >= plan.assignments.len() {
        Ok(())
    } else {
        let assignment = plan.assignments[index as int];
        if assignment.owner != plan.target {
            Err(
                ServerMutationPlanError::AssignmentOwnerMismatch {
                    assignment: index as usize,
                    target: plan.target,
                    owner: assignment.owner,
                },
            )
        } else {
            match assignment_position(plan.assignments, assignment.owner, assignment.field, 0, index) {
                Some(earlier) => Err(
                    ServerMutationPlanError::DuplicateFieldAssignment {
                        first: earlier as usize,
                        duplicate: index as usize,
                        owner: assignment.owner,
                        field: assignment.field,
                    },
                ),
                None => match value_valid(assignment.value, plan.operation is Insert) {
                    Err(error) => Err(error),
                    Ok(()) => match owners_accepted(
                        parameter_owners(assignment.value),
                        0,
                        index as usize,
                        selector_owner_of(plan.operation),
                        first,
                    ) {
                        Err(error) => Err(error),
                        Ok(first) => assignments_valid(plan, index + 1, first),
                    },
                },
            }
        }
    }
}

/// Whether a plan keeps the rules.
pub open spec fn plan_valid(plan: MutationPlan) -> Result<(), ServerMutationPlanError> {
    if plan.assignments.len() == 0 {
        Err(ServerMutationPlanError::EmptyAssignments)
    } else if plan.assignments.len() > MAX_ASSIGNMENTS {
        Err(
            ServerMutationPlanError::CollectionLimit {
                kind: "assignments",
                count: plan.assignments.len() as usize,
                maximum: MAX_ASSIGNMENTS,
            },
        )
    } else if plan.target != plan.returned_object {
        Err(
            ServerMutationPlanError::ReturnedObjectMismatch {
                target: plan.target,
                returned: plan.returned_object,
            },
        )
    } else if plan.operation is Update && contains_record(plan.assignments) {
        Err(ServerMutationPlanError::RecordConstructorRequiresInsert)
    } else {
        assignments_valid(plan, 0, None)
    }
}

/// Assignments of a valid plan address distinct fields of its target.
pub proof fn law_assignments_distinct(plan: MutationPlan)
    requires
        plan_valid(plan) is Ok,
    ensures
        forall|i: int| 0 <= i < plan.assignments.len() ==> (#[trigger] plan.assignments[i]).owner == plan.target,
        forall|i: int, j: int|
            0 <= i < j < plan.assignments.len() ==> (#[trigger] plan.assignments[i]).field != (
            #[trigger] plan.assignments[j]).field,
{
    lemma_assignments_keep(plan, 0, None);
    assert forall|i: int, j: int| 0 <= i < j < plan.assignments.len() implies (#[trigger] plan.assignments[i]).field
        != (#[trigger] plan.assignments[j]).field by {
        lemma_assignment_position(
            plan.assignments,
            plan.assignments[j].owner,
            plan.assignments[j].field,
            0,
            j as nat,
        );
    }
}

/// All parameters that a valid plan reads belong to one function, for UPDATE to
/// the function that owns its selector.
pub proof fn law_one_parameter_owner(plan: MutationPlan)
    requires
        plan_valid(plan) is Ok,
    ensures
        forall|i: int, k: int, j: int, l: int|
            0 <= i < plan.assignments.len() && 0 <= k < parameter_owners(plan.assignments[i].value).len() && 0 <= j
                < plan.assignments.len() && 0 <= l < parameter_owners(plan.assignments[j].value).len()
                ==> #[trigger] parameter_owners(plan.assignments[i].value)[k] == #[trigger] parameter_owners(
                plan.assignments[j].value,
            )[l],
        plan.operation matches ServerMutationOperation::Update { selector } ==> forall|i: int, k: int|
            0 <= i < plan.assignments.len() && 0 <= k < parameter_owners(plan.assignments[i].value).len()
                ==> #[trigger] parameter_owners(plan.assignments[i].value)[k] == selector.owner,
{
    lemma_owners_agree(plan, 0, None);
}

/// The position of an earlier assignment to a field, if there is none.
proof fn lemma_assignment_position(
    assignments: Seq<Assignment>,
    owner: TypeId,
    field: FieldId,
    from: nat,
    count: nat,
)
    ensures
        assignment_position(assignments, owner, field, from, count) is None ==> forall|i: int|
            from <= i < count ==> (#[trigger] assignments[i]).owner != owner || assignments[i].field != field,
    decreases count - from,
{
    if from < count {
        lemma_assignment_position(assignments, owner, field, from + 1, count);
    }
}

/// What every assignment of a valid plan keeps.
pub proof fn lemma_assignments_keep(plan: MutationPlan, index: nat, first: FirstOwner)
    requires
        assignments_valid(plan, index, first) is Ok,
    ensures
        forall|i: int|
            index <= i < plan.assignments.len() ==> {
                let assignment = #[trigger] plan.assignments[i];
                &&& assignment.owner == plan.target
                &&& value_valid(assignment.value, plan.operation is Insert) is Ok
                &&& assignment_position(plan.assignments, assignment.owner, assignment.field, 0, i as nat) is None
            },
    decreases plan.assignments.len() - index,
{
    if index < plan.assignments.len() {
        let owners = parameter_owners(plan.assignments[index as int].value);
        let next = owners_accepted(owners, 0, index as usize, selector_owner_of(plan.operation), first)->Ok_0;
        lemma_assignments_keep(plan, index + 1, next);
    }
}

/// The function that owns every parameter from an assignment on.
spec fn agreed_owner(plan: MutationPlan, index: nat, first: FirstOwner) -> FunctionId
    decreases plan.assignments.len() - index,
{
    match first {
        Some((owner, _)) => owner,
        None => if index >= plan.assignments.len() {
            match selector_owner_of(plan.operation) {
                Some(owner) => owner,
                None => arbitrary(),
            }
        } else {
            let owners = parameter_owners(plan.assignments[index as int].value);
            agreed_owner(
                plan,
                index + 1,
                owners_accepted(owners, 0, index as usize, selector_owner_of(plan.operation), first)->Ok_0,
            )
        },
    }
}

/// Accepted owners are the first owner.
proof fn lemma_accepted_owners(
    owners: Seq<FunctionId>,
    index: nat,
    assignment: usize,
    selector_owner: Option<FunctionId>,
    first: FirstOwner,
)
    requires
        owners_accepted(owners, index, assignment, selector_owner, first) is Ok,
        first is Some && selector_owner is Some ==> first->Some_0.0 == selector_owner->Some_0,
    ensures
        ({
            let last = owners_accepted(owners, index, assignment, selector_owner, first)->Ok_0;
            &&& first is Some ==> last == first
            &&& last is None ==> index >= owners.len()
            &&& last is Some && selector_owner is Some ==> last->Some_0.0 == selector_owner->Some_0
            &&& forall|k: int| index <= k < owners.len() ==> #[trigger] owners[k] == last->Some_0.0
        }),
    decreases owners.len() - index,
{
    if index < owners.len() {
        let next = owner_accepted(owners[index as int], assignment, selector_owner, first)->Ok_0;
        lemma_accepted_owners(owners, index + 1, assignment, selector_owner, next);
    }
}

/// Every parameter from an assignment on belongs to the agreed owner.
proof fn lemma_owners_agree(plan: MutationPlan, index: nat, first: FirstOwner)
    requires
        assignments_valid(plan, index, first) is Ok,
        first is Some && selector_owner_of(plan.operation) is Some ==> first->Some_0.0 == selector_owner_of(
            plan.operation,
        )->Some_0,
    ensures
        ({
            let function = agreed_owner(plan, index, first);
            &&& first is Some ==> function == first->Some_0.0
            &&& selector_owner_of(plan.operation) is Some ==> selector_owner_of(plan.operation) == Some(function)
            &&& forall|i: int, k: int|
                index <= i < plan.assignments.len() && 0 <= k < parameter_owners(plan.assignments[i].value).len()
                    ==> #[trigger] parameter_owners(plan.assignments[i].value)[k] == function
        }),
    decreases plan.assignments.len() - index,
{
    if index < plan.assignments.len() {
        let owners = parameter_owners(plan.assignments[index as int].value);
        let selector_owner = selector_owner_of(plan.operation);
        lemma_accepted_owners(owners, 0, index as usize, selector_owner, first);
        let next = owners_accepted(owners, 0, index as usize, selector_owner, first)->Ok_0;
        lemma_owners_agree(plan, index + 1, next);
    }
}

/// Tells whether the formats have a tag for a scalar type.
fn supports_scalar(scalar: StandardScalar) -> (supported: bool)
    ensures
        supported == scalar_supported(scalar),
{
    match scalar {
        StandardScalar::Boolean => true,
        StandardScalar::Integer => true,
        StandardScalar::BigInt => true,
        StandardScalar::Float => true,
        StandardScalar::CharacterLargeObject => true,
        StandardScalar::BinaryLargeObject => true,
        _ => false,
    }
}

/// Refuses a type that no parameter or typed NULL can have.
pub fn validate_supported_type(resolved_type: ResolvedType) -> (result: Result<(), ServerMutationPlanError>)
    ensures
        match supported_type_refusal(resolved_type) {
            Some(error) => result == Err::<(), ServerMutationPlanError>(error),
            None => result == Ok::<(), ServerMutationPlanError>(()),
        },
{
    let supported = match resolved_type {
        ResolvedType::Scalar(scalar) => supports_scalar(scalar),
        ResolvedType::Reference(_) => true,
        _ => false,
    };
    if supported {
        Ok(())
    } else {
        Err(ServerMutationPlanError::UnsupportedValueType { resolved_type })
    }
}

/// Refuses a type that no record field can have.
pub fn validate_record_field_type(resolved_type: ResolvedType) -> (result: Result<(), ServerMutationPlanError>)
    ensures
        match record_field_type_refusal(resolved_type) {
            Some(error) => result == Err::<(), ServerMutationPlanError>(error),
            None => result == Ok::<(), ServerMutationPlanError>(()),
        },
{
    let supported = match resolved_type {
        ResolvedType::Scalar(scalar) => supports_scalar(scalar),
        ResolvedType::Named(_) => true,
        _ => false,
    };
    if supported {
        Ok(())
    } else {
        Err(ServerMutationPlanError::UnsupportedValueType { resolved_type })
    }
}

/// Refuses a nullability other than that of an expression kind.
pub fn validate_nullability(expression_kind: &'static str, expected: bool, actual: bool) -> (result: Result<
    (),
    ServerMutationPlanError,
>)
    ensures
        result == nullability_valid(expression_kind, expected, actual),
{
    if actual == expected {
        Ok(())
    } else {
        Err(ServerMutationPlanError::ExpressionNullabilityMismatch { expression_kind, expected, actual })
    }
}

/// Refuses a record field whose expression is not of the closed set.
pub fn validate_record_field_expression(field: &RecordFieldExpression) -> (result: Result<
    (),
    ServerMutationPlanError,
>)
    ensures
        result == record_field_valid(*field),
{
    match field.kind {
        RecordFieldExpressionKind::Parameter { .. } => validate_record_field_type(field.resolved_type),
        RecordFieldExpressionKind::BooleanLiteral { .. } => {
            let expected = ResolvedType::Scalar(StandardScalar::Boolean);
            if field.resolved_type == expected {
                Ok(())
            } else {
                Err(
                    ServerMutationPlanError::ExpressionTypeMismatch {
                        expression_kind: "record BOOLEAN literal",
                        expected,
                        actual: field.resolved_type,
                    },
                )
            }
        },
    }
}

/// Returns the position of the first field before `count` with an identity.
fn find_record_field(fields: &Vec<RecordFieldExpression>, field: FieldId, count: usize) -> (found: Option<usize>)
    requires
        count <= fields.len(),
    ensures
        match record_field_position(fields@, field, 0, count as nat) {
            Some(position) => found == Some(position as usize),
            None => found is None,
        },
{
    let mut index: usize = 0;
    while index < count
        invariant
            index <= count <= fields.len(),
            record_field_position(fields@, field, 0, count as nat) == record_field_position(
                fields@,
                field,
                index as nat,
                count as nat,
            ),
        decreases count - index,
    {
        if fields[index].field == field {
            return Some(index);
        }
        index = index + 1;
    }
    None
}

/// Refuses a record constructor that breaks the rules.
fn validate_record_constructor(
    resolved_type: ResolvedType,
    nullable: bool,
    fields: &Vec<RecordFieldExpression>,
) -> (result: Result<(), ServerMutationPlanError>)
    ensures
        result == record_valid(resolved_type, nullable, fields@),
{
    if fields.len() == 0 {
        return Err(ServerMutationPlanError::EmptyRecordFields);
    }
    if fields.len() > MAX_RECORD_FIELDS as usize {
        return Err(
            ServerMutationPlanError::CollectionLimit {
                kind: "record fields",
                count: fields.len(),
                maximum: MAX_RECORD_FIELDS,
            },
        );
    }
    let record_type = match resolved_type {
        ResolvedType::Named(record_type) => record_type,
        _ => return Err(
            ServerMutationPlanError::ExpressionTypeMismatch {
                expression_kind: "record constructor",
                expected: ResolvedType::Named(fields[0].owner),
                actual: resolved_type,
            },
        ),
    };
    validate_nullability("record constructor", false, nullable)?;
    let mut position: usize = 0;
    while position < fields.len()
        invariant
            position <= fields.len(),
            record_valid(resolved_type, nullable, fields@) == record_fields_valid(
                fields@,
                record_type,
                position as nat,
            ),
        decreases fields.len() - position,
    {
        let field = &fields[position];
        if field.owner != record_type {
            return Err(
                ServerMutationPlanError::RecordFieldOwnerMismatch {
                    position,
                    expected: record_type,
                    actual: field.owner,
                },
            );
        }
        if let Some(first) = find_record_field(fields, field.field, position) {
            return Err(
                ServerMutationPlanError::DuplicateRecordField {
                    first,
                    duplicate: position,
                    owner: record_type,
                    field: field.field,
                },
            );
        }
        validate_record_field_expression(field)?;
        position = position + 1;
    }
    Ok(())
}

/// Refuses an expression that breaks the rules of its kind.
pub fn validate_expression(expression: &MutationExpression, allow_record: bool) -> (result: Result<
    (),
    ServerMutationPlanError,
>)
    ensures
        result == value_valid(expression@, allow_record),
{
    match &expression.kind {
        MutationExpressionKind::Parameter { .. } => {
            validate_supported_type(expression.resolved_type)?;
            validate_nullability("parameter", false, expression.nullable)
        },
        MutationExpressionKind::BooleanLiteral { .. } => {
            let expected = ResolvedType::Scalar(StandardScalar::Boolean);
            if expression.resolved_type != expected {
                return Err(
                    ServerMutationPlanError::ExpressionTypeMismatch {
                        expression_kind: "BOOLEAN literal",
                        expected,
                        actual: expression.resolved_type,
                    },
                );
            }
            validate_nullability("BOOLEAN literal", false, expression.nullable)
        },
        MutationExpressionKind::TypedNull => {
            validate_supported_type(expression.resolved_type)?;
            validate_nullability("typed NULL", true, expression.nullable)
        },
        MutationExpressionKind::RecordConstructor { fields } => {
            if !allow_record {
                return Err(ServerMutationPlanError::RecordConstructorRequiresInsert);
            }
            validate_record_constructor(expression.resolved_type, expression.nullable, fields)
        },
    }
}

/// Tells whether an assignment holds a record constructor.
pub fn plan_contains_record(assignments: &Vec<FieldAssignment>) -> (found: bool)
    ensures
        found == contains_record(assignments_of(assignments@)),
{
    let ghost list = assignments_of(assignments@);
    let mut index: usize = 0;
    while index < assignments.len()
        invariant
            index <= assignments.len(),
            list == assignments_of(assignments@),
            forall|i: int| 0 <= i < index ==> !((#[trigger] list[i]).value.kind is RecordConstructor),
        decreases assignments.len() - index,
    {
        assert(list[index as int] == assignments[index as int]@);
        if let MutationExpressionKind::RecordConstructor { .. } = &assignments[index].expression.kind {
            return true;
        }
        index = index + 1;
    }
    false
}

/// Returns the position of the first assignment before `count` to a field.
fn find_assignment(assignments: &Vec<FieldAssignment>, owner: TypeId, field: FieldId, count: usize) -> (found: Option<
    usize,
>)
    requires
        count <= assignments.len(),
    ensures
        match assignment_position(assignments_of(assignments@), owner, field, 0, count as nat) {
            Some(position) => found == Some(position as usize),
            None => found is None,
        },
{
    let ghost list = assignments_of(assignments@);
    let mut index: usize = 0;
    while index < count
        invariant
            index <= count <= assignments.len(),
            list == assignments_of(assignments@),
            assignment_position(list, owner, field, 0, count as nat) == assignment_position(
                list,
                owner,
                field,
                index as nat,
                count as nat,
            ),
        decreases count - index,
    {
        assert(list[index as int] == assignments[index as int]@);
        if assignments[index].owner == owner && assignments[index].field == field {
            return Some(index);
        }
        index = index + 1;
    }
    None
}

/// Refuses a parameter of a function other than the one that owns the others.
fn accept_owner(
    owner: FunctionId,
    assignment: usize,
    selector_owner: Option<FunctionId>,
    first: Option<(FunctionId, usize)>,
) -> (result: Result<Option<(FunctionId, usize)>, ServerMutationPlanError>)
    ensures
        result == owner_accepted(owner, assignment, selector_owner, first),
{
    if let Some(selector_owner) = selector_owner {
        if owner != selector_owner {
            return Err(
                ServerMutationPlanError::SelectorParameterOwnerMismatch {
                    assignment,
                    selector_owner,
                    assignment_owner: owner,
                },
            );
        }
    }
    match first {
        None => Ok(Some((owner, assignment))),
        Some((expected, position)) => {
            if expected != owner {
                return Err(
                    ServerMutationPlanError::MixedParameterOwners {
                        first: position,
                        assignment,
                        expected,
                        actual: owner,
                    },
                );
            }
            Ok(first)
        },
    }
}

/// Refuses parameters of a function other than the one that owns the others.
fn accept_owners(
    expression: &MutationExpression,
    assignment: usize,
    selector_owner: Option<FunctionId>,
    first: Option<(FunctionId, usize)>,
) -> (result: Result<Option<(FunctionId, usize)>, ServerMutationPlanError>)
    ensures
        result == owners_accepted(parameter_owners(expression@), 0, assignment, selector_owner, first),
{
    let ghost owners = parameter_owners(expression@);
    match &expression.kind {
        MutationExpressionKind::Parameter { owner, .. } => {
            let accepted = accept_owner(*owner, assignment, selector_owner, first)?;
            assert(owners_accepted(owners, 1, assignment, selector_owner, accepted) == Ok::<
                FirstOwner,
                ServerMutationPlanError,
            >(accepted));
            Ok(accepted)
        },
        MutationExpressionKind::RecordConstructor { fields } => {
            let mut accepted = first;
            let mut position: usize = 0;
            let ghost mut done: nat = 0;
            assert(owners =~= owners.skip(0));
            while position < fields.len()
                invariant
                    position <= fields.len(),
                    done <= owners.len(),
                    owners == parameter_owners(expression@),
                    owners.skip(done as int) == field_parameter_owners(fields@, position as nat),
                    owners_accepted(owners, 0, assignment, selector_owner, first) == owners_accepted(
                        owners,
                        done,
                        assignment,
                        selector_owner,
                        accepted,
                    ),
                decreases fields.len() - position,
            {
                let ghost left = field_parameter_owners(fields@, position as nat);
                let ghost later = field_parameter_owners(fields@, (position + 1) as nat);
                if let RecordFieldExpressionKind::Parameter { owner, .. } = fields[position].kind {
                    proof {
                        assert(left == seq![owner] + later);
                        assert(left[0] == owner);
                        assert(owners.skip(done as int)[0] == owners[done as int]);
                        assert(owners.skip((done + 1) as int) =~= left.skip(1));
                        assert(left.skip(1) =~= later);
                        done = done + 1;
                    }
                    accepted = accept_owner(owner, assignment, selector_owner, accepted)?;
                }
                position = position + 1;
            }
            assert(owners.skip(done as int).len() == 0);
            Ok(accepted)
        },
        _ => Ok(first),
    }
}

/// Refuses a plan that breaks the rules.
pub fn validate_plan(plan: &ServerMutationPlan) -> (result: Result<(), ServerMutationPlanError>)
    ensures
        result == plan_valid(plan@),
{
    if plan.assignments.len() == 0 {
        return Err(ServerMutationPlanError::EmptyAssignments);
    }
    if plan.assignments.len() > MAX_ASSIGNMENTS as usize {
        return Err(
            ServerMutationPlanError::CollectionLimit {
                kind: "assignments",
                count: plan.assignments.len(),
                maximum: MAX_ASSIGNMENTS,
            },
        );
    }
    if plan.target != plan.returned_object {
        return Err(
            ServerMutationPlanError::ReturnedObjectMismatch {
                target: plan.target,
                returned: plan.returned_object,
            },
        );
    }
    let (selector_owner, insert) = match plan.operation {
        ServerMutationOperation::Insert => (None, true),
        ServerMutationOperation::Update { selector } => (Some(selector.owner), false),
    };
    if !insert && plan_contains_record(&plan.assignments) {
        return Err(ServerMutationPlanError::RecordConstructorRequiresInsert);
    }
    let mut first: Option<(FunctionId, usize)> = None;
    let mut index: usize = 0;
    while index < plan.assignments.len()
        invariant
            index <= plan.assignments.len(),
            selector_owner == selector_owner_of(plan@.operation),
            insert == (plan@.operation is Insert),
            plan_valid(plan@) == assignments_valid(plan@, index as nat, first),
        decreases plan.assignments.len() - index,
    {
        let assignment = &plan.assignments[index];
        assert(plan@.assignments[index as int] == assignment@);
        if assignment.owner != plan.target {
            return Err(
                ServerMutationPlanError::AssignmentOwnerMismatch {
                    assignment: index,
                    target: plan.target,
                    owner: assignment.owner,
                },
            );
        }
        if let Some(earlier) = find_assignment(&plan.assignments, assignment.owner, assignment.field, index) {
            return Err(
                ServerMutationPlanError::DuplicateFieldAssignment {
                    first: earlier,
                    duplicate: index,
                    owner: assignment.owner,
                    field: assignment.field,
                },
            );
        }
        validate_expression(&assignment.expression, insert)?;
        first = accept_owners(&assignment.expression, index, selector_owner, first)?;
        index = index + 1;
    }
    Ok(())
}

} // verus!
