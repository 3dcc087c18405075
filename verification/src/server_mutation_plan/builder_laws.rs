//! What the builders of mutation plans accept.

use vstd::prelude::*;

use crate::identity::{FunctionId, ParameterId, TypeId};
use crate::resolved_type::ResolvedType;
use crate::server_mutation_plan::acceptance_laws::{
    carried_scalar, law_plan_accepted_exactly, law_value_accepted_exactly, plan_stands,
};
use crate::server_mutation_plan::model::{
    assignments_of, FieldAssignment, MutationExpression, MutationPlan, MutationSelector, ServerMutationOperation,
    ServerMutationPlan, Value, ValueKind,
};
use crate::server_mutation_plan::ServerMutationPlanError;

verus! {

/// Tells whether a parameter or a NULL may have a type: a scalar that the formats
/// carry, or a reference.
pub open spec fn carried_type(resolved_type: ResolvedType) -> bool {
    match resolved_type {
        ResolvedType::Scalar(scalar) => carried_scalar(scalar),
        ResolvedType::Reference(_) => true,
        ResolvedType::Named(_) => false,
        ResolvedType::Value(_) => false,
    }
}

/// A read of a parameter and a NULL are built exactly of the types that the
/// formats carry, and hold what they were built of. A read is never NULL.
pub proof fn law_values_built(
    owner: FunctionId,
    parameter: ParameterId,
    resolved_type: ResolvedType,
    read: Result<MutationExpression, ServerMutationPlanError>,
    null: Result<MutationExpression, ServerMutationPlanError>,
)
    requires
        call_ensures(MutationExpression::parameter, (owner, parameter, resolved_type), read),
        call_ensures(MutationExpression::typed_null, (resolved_type,), null),
    ensures
        read is Ok <==> carried_type(resolved_type),
        null is Ok <==> carried_type(resolved_type),
        read matches Ok(value) ==> {
            &&& value@.kind == (ValueKind::Parameter { owner, parameter })
            &&& value@.resolved_type == resolved_type
            &&& !value@.nullable
        },
        null matches Ok(value) ==> {
            &&& value@.kind is TypedNull
            &&& value@.resolved_type == resolved_type
            &&& value@.nullable
        },
{
    law_value_accepted_exactly(
        Value { kind: ValueKind::Parameter { owner, parameter }, resolved_type, nullable: false },
        true,
    );
    law_value_accepted_exactly(Value { kind: ValueKind::TypedNull, resolved_type, nullable: true }, true);
}

/// An insert or update plan is built exactly where it stands, and holds what it
/// was built of.
pub proof fn law_plans_built(
    target: TypeId,
    selector: MutationSelector,
    assignments: Vec<FieldAssignment>,
    returned_object: TypeId,
    insert: Result<ServerMutationPlan, ServerMutationPlanError>,
    update: Result<ServerMutationPlan, ServerMutationPlanError>,
)
    requires
        call_ensures(ServerMutationPlan::new_insert, (target, assignments, returned_object), insert),
        call_ensures(ServerMutationPlan::new_update, (target, selector, assignments, returned_object), update),
    ensures
        insert is Ok <==> plan_stands(
            (MutationPlan {
                operation: ServerMutationOperation::Insert,
                target,
                assignments: assignments_of(assignments@),
                returned_object,
            }),
        ),
        update is Ok <==> plan_stands(
            (MutationPlan {
                operation: ServerMutationOperation::Update { selector },
                target,
                assignments: assignments_of(assignments@),
                returned_object,
            }),
        ),
        insert matches Ok(plan) ==> {
            &&& plan@.operation is Insert
            &&& plan@.target == target
            &&& plan@.assignments == assignments_of(assignments@)
            &&& plan@.returned_object == returned_object
        },
        update matches Ok(plan) ==> {
            &&& plan@.operation == (ServerMutationOperation::Update { selector })
            &&& plan@.target == target
            &&& plan@.assignments == assignments_of(assignments@)
            &&& plan@.returned_object == returned_object
        },
{
    let list = assignments_of(assignments@);
    law_plan_accepted_exactly(
        MutationPlan { operation: ServerMutationOperation::Insert, target, assignments: list, returned_object },
    );
    law_plan_accepted_exactly(
        MutationPlan {
            operation: ServerMutationOperation::Update { selector },
            target,
            assignments: list,
            returned_object,
        },
    );
}

} // verus!
