//! The model of single-object INSERT and UPDATE plans.

use vstd::prelude::*;

use crate::identity::{FieldId, FunctionId, ParameterId, TypeId};
use crate::resolved_type::{ResolvedType, StandardScalar};
use crate::server_mutation_plan::error::ServerMutationPlanError;
use crate::server_mutation_plan::rules::{
    contains_record, plan_contains_record, plan_valid, record_field_type_refusal, supported_type_refusal,
    validate_expression, validate_plan, validate_record_field_type, validate_supported_type, value_valid,
};
use crate::server_mutation_plan::{
    INSERT_FORMAT_VERSION, MAX_ASSIGNMENTS, MAX_RECORD_FIELDS, RECORD_INSERT_FORMAT_VERSION, UPDATE_FORMAT_VERSION,
};

verus! {

/// A checked single-object mutation plan.
#[derive(Clone, Debug, Eq, PartialEq)]
pub struct ServerMutationPlan {
    pub operation: ServerMutationOperation,
    pub target: TypeId,
    pub assignments: Vec<FieldAssignment>,
    pub returned_object: TypeId,
}

/// The operation represented by a server mutation plan.
#[non_exhaustive]
#[derive(Clone, Copy, Debug, PartialEq, Eq, Structural)]
pub enum ServerMutationOperation {
    /// A single-row insert.
    Insert,
    /// A single-object update.
    Update {
        /// The parameter that supplies the target object identity.
        selector: MutationSelector,
    },
}

/// The owner-qualified parameter that selects one object for UPDATE or DELETE.
#[derive(Clone, Copy, Debug, PartialEq, Eq, Structural)]
pub struct MutationSelector {
    pub owner: FunctionId,
    pub parameter: ParameterId,
}

/// One positional target-field assignment in a mutation plan.
#[derive(Clone, Debug, Eq, PartialEq)]
pub struct FieldAssignment {
    pub owner: TypeId,
    pub field: FieldId,
    pub expression: MutationExpression,
}

/// One closed mutation assignment value.
#[derive(Clone, Debug, Eq, PartialEq)]
pub struct MutationExpression {
    pub kind: MutationExpressionKind,
    pub resolved_type: ResolvedType,
    pub nullable: bool,
}

/// The closed expression kinds accepted by mutation-plan versions 1, 2, and 4.
#[non_exhaustive]
#[derive(Clone, Debug, Eq, PartialEq)]
pub enum MutationExpressionKind {
    /// A declared non-null function parameter read.
    Parameter {
        /// The owning function identity.
        owner: FunctionId,
        /// The declared parameter identity.
        parameter: ParameterId,
    },
    /// A non-null BOOLEAN literal.
    BooleanLiteral {
        /// The literal value.
        value: bool,
    },
    /// A contextually typed NULL literal.
    TypedNull,
    /// One nominal record constructor with fields in declaration order.
    RecordConstructor {
        /// Owner-qualified fields in record declaration order.
        fields: Vec<RecordFieldExpression>,
    },
}

/// One owner-qualified field expression inside a record constructor.
#[derive(Clone, Copy, Debug, PartialEq, Eq, Structural)]
pub struct RecordFieldExpression {
    pub owner: TypeId,
    pub field: FieldId,
    pub kind: RecordFieldExpressionKind,
    pub resolved_type: ResolvedType,
}

/// The closed child expressions accepted by a record constructor artefact.
#[non_exhaustive]
#[derive(Clone, Copy, Debug, PartialEq, Eq, Structural)]
pub enum RecordFieldExpressionKind {
    /// A declared non-null function parameter read.
    Parameter {
        /// The owning function identity.
        owner: FunctionId,
        /// The declared parameter identity.
        parameter: ParameterId,
    },
    /// A non-null Boolean literal.
    BooleanLiteral {
        /// The literal value.
        value: bool,
    },
}

/// The mathematical expression kind.
pub enum ValueKind {
    Parameter { owner: FunctionId, parameter: ParameterId },
    BooleanLiteral { value: bool },
    TypedNull,
    RecordConstructor { fields: Seq<RecordFieldExpression> },
}

/// The mathematical assignment value.
pub struct Value {
    pub kind: ValueKind,
    pub resolved_type: ResolvedType,
    pub nullable: bool,
}

/// The mathematical assignment.
pub struct Assignment {
    pub owner: TypeId,
    pub field: FieldId,
    pub value: Value,
}

/// The mathematical mutation plan.
pub struct MutationPlan {
    pub operation: ServerMutationOperation,
    pub target: TypeId,
    pub assignments: Seq<Assignment>,
    pub returned_object: TypeId,
}

impl View for MutationExpression {
    type V = Value;

    open spec fn view(&self) -> Value {
        Value {
            kind: match self.kind {
                MutationExpressionKind::Parameter { owner, parameter } => ValueKind::Parameter { owner, parameter },
                MutationExpressionKind::BooleanLiteral { value } => ValueKind::BooleanLiteral { value },
                MutationExpressionKind::TypedNull => ValueKind::TypedNull,
                MutationExpressionKind::RecordConstructor { fields } => ValueKind::RecordConstructor {
                    fields: fields@,
                },
            },
            resolved_type: self.resolved_type,
            nullable: self.nullable,
        }
    }
}

impl View for FieldAssignment {
    type V = Assignment;

    open spec fn view(&self) -> Assignment {
        Assignment { owner: self.owner, field: self.field, value: self.expression@ }
    }
}

/// The assignments that assignment records stand for.
pub open spec fn assignments_of(assignments: Seq<FieldAssignment>) -> Seq<Assignment> {
    Seq::new(assignments.len(), |index: int| assignments[index]@)
}

impl View for ServerMutationPlan {
    type V = MutationPlan;

    open spec fn view(&self) -> MutationPlan {
        MutationPlan {
            operation: self.operation,
            target: self.target,
            assignments: assignments_of(self.assignments@),
            returned_object: self.returned_object,
        }
    }
}

/// The version of a plan.
pub open spec fn plan_version(plan: MutationPlan) -> u32 {
    match plan.operation {
        ServerMutationOperation::Insert => if contains_record(plan.assignments) {
            RECORD_INSERT_FORMAT_VERSION
        } else {
            INSERT_FORMAT_VERSION
        },
        ServerMutationOperation::Update { .. } => UPDATE_FORMAT_VERSION,
    }
}

/// What building a plan gives.
pub open spec fn built_plan(plan: MutationPlan) -> Result<MutationPlan, ServerMutationPlanError> {
    if plan.assignments.len() > MAX_ASSIGNMENTS {
        Err(
            ServerMutationPlanError::CollectionLimit {
                kind: "assignments",
                count: (MAX_ASSIGNMENTS + 1) as usize,
                maximum: MAX_ASSIGNMENTS,
            },
        )
    } else {
        match plan_valid(plan) {
            Err(error) => Err(error),
            Ok(()) => Ok(plan),
        }
    }
}

/// What building a record constructor gives.
pub open spec fn built_record(record_type: TypeId, fields: Seq<RecordFieldExpression>) -> Result<
    Value,
    ServerMutationPlanError,
> {
    let value = Value {
        kind: ValueKind::RecordConstructor { fields },
        resolved_type: ResolvedType::Named(record_type),
        nullable: false,
    };
    if fields.len() > MAX_RECORD_FIELDS {
        Err(
            ServerMutationPlanError::CollectionLimit {
                kind: "record fields",
                count: (MAX_RECORD_FIELDS + 1) as usize,
                maximum: MAX_RECORD_FIELDS,
            },
        )
    } else {
        match value_valid(value, true) {
            Err(error) => Err(error),
            Ok(()) => Ok(value),
        }
    }
}

impl MutationSelector {
    /// Creates an owner-qualified selector parameter.
    pub fn new(owner: FunctionId, parameter: ParameterId) -> (selector: MutationSelector)
        ensures
            selector == (MutationSelector { owner, parameter }),
    {
        MutationSelector { owner, parameter }
    }

    /// Returns the function that owns the selector parameter.
    pub fn owner(self) -> (owner: FunctionId)
        ensures
            owner == self.owner,
    {
        self.owner
    }

    /// Returns the selector parameter identity.
    pub fn parameter(self) -> (parameter: ParameterId)
        ensures
            parameter == self.parameter,
    {
        self.parameter
    }
}

impl FieldAssignment {
    /// Creates an assignment. Building a plan checks it against the others.
    pub fn new(owner: TypeId, field: FieldId, expression: MutationExpression) -> (assignment: FieldAssignment)
        ensures
            assignment@ == (Assignment { owner, field, value: expression@ }),
    {
        FieldAssignment { owner, field, expression }
    }

    /// Returns the object type that owns the assigned field.
    pub fn owner(&self) -> (owner: TypeId)
        ensures
            owner == self@.owner,
    {
        self.owner
    }

    /// Returns the assigned field identity.
    pub fn field(&self) -> (field: FieldId)
        ensures
            field == self@.field,
    {
        self.field
    }

    /// Returns the checked value expression.
    pub fn expression(&self) -> (expression: &MutationExpression)
        ensures
            expression@ == self@.value,
    {
        &self.expression
    }
}

impl MutationExpression {
    /// Creates a non-null parameter read.
    pub fn parameter(owner: FunctionId, parameter: ParameterId, resolved_type: ResolvedType) -> (result: Result<
        MutationExpression,
        ServerMutationPlanError,
    >)
        ensures
            match supported_type_refusal(resolved_type) {
                Some(error) => result == Err::<MutationExpression, _>(error),
                None => result is Ok && result->Ok_0@ == (Value {
                    kind: ValueKind::Parameter { owner, parameter },
                    resolved_type,
                    nullable: false,
                }),
            },
    {
        validate_supported_type(resolved_type)?;
        Ok(
            MutationExpression {
                kind: MutationExpressionKind::Parameter { owner, parameter },
                resolved_type,
                nullable: false,
            },
        )
    }

    /// Creates a non-null BOOLEAN literal.
    pub fn boolean_literal(value: bool) -> (expression: MutationExpression)
        ensures
            expression@ == (Value {
                kind: ValueKind::BooleanLiteral { value },
                resolved_type: ResolvedType::Scalar(StandardScalar::Boolean),
                nullable: false,
            }),
    {
        MutationExpression {
            kind: MutationExpressionKind::BooleanLiteral { value },
            resolved_type: ResolvedType::Scalar(StandardScalar::Boolean),
            nullable: false,
        }
    }

    /// Creates a typed nullable NULL value.
    pub fn typed_null(resolved_type: ResolvedType) -> (result: Result<MutationExpression, ServerMutationPlanError>)
        ensures
            match supported_type_refusal(resolved_type) {
                Some(error) => result == Err::<MutationExpression, _>(error),
                None => result is Ok && result->Ok_0@ == (Value {
                    kind: ValueKind::TypedNull,
                    resolved_type,
                    nullable: true,
                }),
            },
    {
        validate_supported_type(resolved_type)?;
        Ok(MutationExpression { kind: MutationExpressionKind::TypedNull, resolved_type, nullable: true })
    }

    /// Creates one non-null nominal record constructor.
    pub fn record_constructor(record_type: TypeId, fields: Vec<RecordFieldExpression>) -> (result: Result<
        MutationExpression,
        ServerMutationPlanError,
    >)
        ensures
            crate::artifact_codec::viewed(result) == built_record(record_type, fields@),
    {
        if fields.len() > MAX_RECORD_FIELDS as usize {
            return Err(
                ServerMutationPlanError::CollectionLimit {
                    kind: "record fields",
                    count: MAX_RECORD_FIELDS as usize + 1,
                    maximum: MAX_RECORD_FIELDS,
                },
            );
        }
        let expression = MutationExpression {
            kind: MutationExpressionKind::RecordConstructor { fields },
            resolved_type: ResolvedType::Named(record_type),
            nullable: false,
        };
        validate_expression(&expression, true)?;
        Ok(expression)
    }

    /// Returns the expression's closed semantic kind.
    pub fn kind(&self) -> (kind: &MutationExpressionKind)
        ensures
            *kind == self.kind,
    {
        &self.kind
    }

    /// Returns the expression's resolved semantic type.
    pub fn resolved_type(&self) -> (resolved_type: ResolvedType)
        ensures
            resolved_type == self@.resolved_type,
    {
        self.resolved_type
    }

    /// Returns whether this expression may evaluate to NULL.
    pub fn nullable(&self) -> (nullable: bool)
        ensures
            nullable == self@.nullable,
    {
        self.nullable
    }
}

impl RecordFieldExpression {
    /// Creates one non-null parameter field.
    pub fn parameter(
        owner: TypeId,
        field: FieldId,
        function: FunctionId,
        parameter: ParameterId,
        resolved_type: ResolvedType,
    ) -> (result: Result<RecordFieldExpression, ServerMutationPlanError>)
        ensures
            result == match record_field_type_refusal(resolved_type) {
                Some(error) => Err::<RecordFieldExpression, ServerMutationPlanError>(error),
                None => Ok(
                    RecordFieldExpression {
                        owner,
                        field,
                        kind: RecordFieldExpressionKind::Parameter { owner: function, parameter },
                        resolved_type,
                    },
                ),
            },
    {
        validate_record_field_type(resolved_type)?;
        Ok(
            RecordFieldExpression {
                owner,
                field,
                kind: RecordFieldExpressionKind::Parameter { owner: function, parameter },
                resolved_type,
            },
        )
    }

    /// Creates one non-null Boolean-literal field.
    pub fn boolean_literal(owner: TypeId, field: FieldId, value: bool) -> (expression: RecordFieldExpression)
        ensures
            expression == (RecordFieldExpression {
                owner,
                field,
                kind: RecordFieldExpressionKind::BooleanLiteral { value },
                resolved_type: ResolvedType::Scalar(StandardScalar::Boolean),
            }),
    {
        RecordFieldExpression {
            owner,
            field,
            kind: RecordFieldExpressionKind::BooleanLiteral { value },
            resolved_type: ResolvedType::Scalar(StandardScalar::Boolean),
        }
    }

    /// Returns the nominal record type that owns this field.
    pub fn owner(&self) -> (owner: TypeId)
        ensures
            owner == self.owner,
    {
        self.owner
    }

    /// Returns the stable field identity.
    pub fn field(&self) -> (field: FieldId)
        ensures
            field == self.field,
    {
        self.field
    }

    /// Returns the closed child-expression kind.
    pub fn kind(&self) -> (kind: &RecordFieldExpressionKind)
        ensures
            *kind == self.kind,
    {
        &self.kind
    }

    /// Returns the child expression's resolved type.
    pub fn resolved_type(&self) -> (resolved_type: ResolvedType)
        ensures
            resolved_type == self.resolved_type,
    {
        self.resolved_type
    }
}

impl ServerMutationPlan {
    /// Checks a plan that was put together.
    fn built(self) -> (result: Result<ServerMutationPlan, ServerMutationPlanError>)
        ensures
            crate::artifact_codec::viewed(result) == built_plan(self@),
    {
        if self.assignments.len() > MAX_ASSIGNMENTS as usize {
            return Err(
                ServerMutationPlanError::CollectionLimit {
                    kind: "assignments",
                    count: MAX_ASSIGNMENTS as usize + 1,
                    maximum: MAX_ASSIGNMENTS,
                },
            );
        }
        validate_plan(&self)?;
        Ok(self)
    }

    /// Builds a checked insert plan.
    pub fn new_insert(target: TypeId, assignments: Vec<FieldAssignment>, returned_object: TypeId) -> (result: Result<
        ServerMutationPlan,
        ServerMutationPlanError,
    >)
        ensures
            crate::artifact_codec::viewed(result) == built_plan(
                (MutationPlan {
                    operation: ServerMutationOperation::Insert,
                    target,
                    assignments: assignments_of(assignments@),
                    returned_object,
                }),
            ),
    {
        let plan = ServerMutationPlan {
            operation: ServerMutationOperation::Insert,
            target,
            assignments,
            returned_object,
        };
        plan.built()
    }

    /// Builds a checked update plan.
    pub fn new_update(
        target: TypeId,
        selector: MutationSelector,
        assignments: Vec<FieldAssignment>,
        returned_object: TypeId,
    ) -> (result: Result<ServerMutationPlan, ServerMutationPlanError>)
        ensures
            crate::artifact_codec::viewed(result) == built_plan(
                (MutationPlan {
                    operation: ServerMutationOperation::Update { selector },
                    target,
                    assignments: assignments_of(assignments@),
                    returned_object,
                }),
            ),
    {
        let plan = ServerMutationPlan {
            operation: ServerMutationOperation::Update { selector },
            target,
            assignments,
            returned_object,
        };
        plan.built()
    }

    /// Returns the mutation operation and any operation-specific evidence.
    pub fn operation(&self) -> (operation: &ServerMutationOperation)
        ensures
            *operation == self@.operation,
    {
        &self.operation
    }

    /// Returns the selector for UPDATE, or `None` for INSERT.
    pub fn selector(&self) -> (selector: Option<MutationSelector>)
        ensures
            selector == match self@.operation {
                ServerMutationOperation::Insert => None,
                ServerMutationOperation::Update { selector } => Some(selector),
            },
    {
        match self.operation {
            ServerMutationOperation::Insert => None,
            ServerMutationOperation::Update { selector } => Some(selector),
        }
    }

    /// Returns the canonical artefact version for this operation and expression
    /// set.
    pub fn format_version(&self) -> (version: u32)
        ensures
            version == plan_version(self@),
    {
        match self.operation {
            ServerMutationOperation::Insert => if plan_contains_record(&self.assignments) {
                RECORD_INSERT_FORMAT_VERSION
            } else {
                INSERT_FORMAT_VERSION
            },
            ServerMutationOperation::Update { .. } => UPDATE_FORMAT_VERSION,
        }
    }

    /// Returns the target object type identity.
    pub fn target(&self) -> (target: TypeId)
        ensures
            target == self@.target,
    {
        self.target
    }

    /// Returns field assignments in their positional source order.
    pub fn assignments(&self) -> (assignments: &[FieldAssignment])
        ensures
            assignments_of(assignments@) == self@.assignments,
    {
        self.assignments.as_slice()
    }

    /// Returns the object type identity carried by the returned REF.
    pub fn returned_object(&self) -> (returned_object: TypeId)
        ensures
            returned_object == self@.returned_object,
    {
        self.returned_object
    }
}

} // verus!
