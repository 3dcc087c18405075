//! The rules of procedural plans.
//!
//! Every declared local has exactly one LET, no local is read or assigned
//! before its LET, resource handles are awaited before they are used as values,
//! and what a local receives has its declared kind and, where that is known,
//! its declared type.

use vstd::prelude::*;

use crate::client_plan::error::{first_failure, refused, ClientPlanError};
use crate::client_plan::expression::{
    lemma_arguments_of, lemma_operand_decreases, operands, ClientExpressionNode, Expression, InspectOperation,
    InspectOperationNode,
};
use crate::client_plan::local::{
    add_local, declaration, denoted_handle, denoted_resource_kind, find_local, find_missing_local, holds_local,
    missing_local, repeated_local, validate_distinct_locals, ClientLocal, ClientLocalKind, LocalRule,
};
use crate::client_plan::operation::{resource_arguments_refusal, validate_resource_arguments};
use crate::client_plan::placement::{contract_placement, validate_external_contract_placement};
use crate::client_plan::procedural::{statements_of, ClientStatement, ProceduralPlan, Statement};
use crate::client_plan::{
    MAX_CALL_ARGUMENTS, MAX_PROCEDURAL_LOCALS, MAX_PROCEDURAL_STATEMENTS, NODE_ACTION, NODE_AWAIT, NODE_BINARY,
    NODE_RESOURCE, NODE_UNARY,
};
use crate::identity::{LocalId, TypeId};

verus! {

/// Whether every local that a tree reads is initialised, and if not, which
/// comes first.
pub open spec fn reads_valid(expression: Expression, initialized: Set<LocalId>) -> Result<(), ClientPlanError>
    decreases expression, operands(expression).len() + 1,
{
    match expression {
        Expression::LocalRead { local } => if initialized.contains(local) {
            Ok(())
        } else {
            Err(ClientPlanError::ProceduralLocalReadBeforeLet(local))
        },
        Expression::Unary { .. } => Err(ClientPlanError::InvalidExpressionNode(NODE_UNARY)),
        Expression::Binary { .. } => Err(ClientPlanError::InvalidExpressionNode(NODE_BINARY)),
        _ => operand_reads_valid(expression, 0, initialized),
    }
}

/// Whether every local that an operand from `index` on reads is initialised.
pub open spec fn operand_reads_valid(expression: Expression, index: nat, initialized: Set<LocalId>) -> Result<
    (),
    ClientPlanError,
>
    decreases expression, operands(expression).len() - index,
{
    if index < operands(expression).len() {
        proof {
            lemma_operand_decreases(expression, index as int);
        }
        match reads_valid(operands(expression)[index as int], initialized) {
            Err(error) => Err(error),
            Ok(()) => operand_reads_valid(expression, index + 1, initialized),
        }
    } else {
        Ok(())
    }
}

/// Whether a local read may stand where it does.
pub open spec fn local_read_valid(local: LocalId, locals: Seq<ClientLocal>, value_position: bool) -> Result<
    (),
    ClientPlanError,
> {
    match declaration(locals, local) {
        None => Err(ClientPlanError::UnknownProceduralLocal(local)),
        Some(source) => if value_position && source.kind is Resource {
            Err(ClientPlanError::UnawaitedResourceLocal(local))
        } else {
            Ok(())
        },
    }
}

/// Whether a local may be awaited.
pub open spec fn awaited_local_valid(local: LocalId, locals: Seq<ClientLocal>) -> Result<(), ClientPlanError> {
    match declaration(locals, local) {
        None => Err(ClientPlanError::UnknownProceduralLocal(local)),
        Some(source) => if source.kind is Resource {
            Ok(())
        } else {
            Err(ClientPlanError::InvalidAwaitOperand(local))
        },
    }
}

/// Whether the nodes of a tree stand where they may. A resource operation is
/// valid at a root that admits it or right below an await, and an await only at
/// a root.
pub open spec fn shape_valid(
    expression: Expression,
    locals: Seq<ClientLocal>,
    allow_resource_root: bool,
    allow_await_root: bool,
    value_position: bool,
) -> Result<(), ClientPlanError>
    decreases expression, operands(expression).len() + 1,
{
    match expression {
        Expression::Await { expression: awaited } => if !allow_await_root {
            Err(ClientPlanError::InvalidExpressionNode(NODE_AWAIT))
        } else {
            proof {
                lemma_operand_decreases(expression, 0);
            }
            match *awaited {
                Expression::Resource { operation } => first_failure(
                    refused(resource_arguments_refusal(operation.arguments)),
                    operand_shapes_valid(*awaited, 0, locals),
                ),
                Expression::LocalRead { local } => awaited_local_valid(local, locals),
                _ => Err(ClientPlanError::InvalidExpressionNode(NODE_AWAIT)),
            }
        },
        Expression::Resource { operation } => if !allow_resource_root {
            Err(ClientPlanError::InvalidExpressionNode(NODE_RESOURCE))
        } else {
            first_failure(
                refused(resource_arguments_refusal(operation.arguments)),
                operand_shapes_valid(expression, 0, locals),
            )
        },
        Expression::LocalRead { local } => local_read_valid(local, locals, value_position),
        Expression::Call { arguments, .. } => if arguments.len() > MAX_CALL_ARGUMENTS {
            Err(ClientPlanError::ExpressionCollectionExceeded { limit: MAX_CALL_ARGUMENTS })
        } else {
            operand_shapes_valid(expression, 0, locals)
        },
        Expression::Unary { .. } => Err(ClientPlanError::InvalidExpressionNode(NODE_UNARY)),
        Expression::Action { .. } => Err(ClientPlanError::InvalidExpressionNode(NODE_ACTION)),
        Expression::Inspect { operation: InspectOperation::Snapshot { options: Some(_), .. } } => Err(
            ClientPlanError::UnsupportedInspectOptions,
        ),
        _ => operand_shapes_valid(expression, 0, locals),
    }
}

/// Whether the operands from `index` on are valid values.
pub open spec fn operand_shapes_valid(expression: Expression, index: nat, locals: Seq<ClientLocal>) -> Result<
    (),
    ClientPlanError,
>
    decreases expression, operands(expression).len() - index,
{
    if index < operands(expression).len() {
        proof {
            lemma_operand_decreases(expression, index as int);
        }
        match shape_valid(operands(expression)[index as int], locals, false, false, true) {
            Err(error) => Err(error),
            Ok(()) => operand_shapes_valid(expression, index + 1, locals),
        }
    } else {
        Ok(())
    }
}

/// The type that an awaiting expression is known to give.
pub open spec fn awaited_type(expression: Expression, locals: Seq<ClientLocal>) -> Option<TypeId> {
    match expression {
        Expression::Await { expression: awaited } => match *awaited {
            Expression::Resource { operation } => Some(operation.result_type),
            Expression::LocalRead { local } => match declaration(locals, local) {
                Some(source) => if source.kind is Resource {
                    Some(source.type_id)
                } else {
                    None
                },
                None => None,
            },
            _ => None,
        },
        _ => None,
    }
}

/// Whether what a local receives has its type, where `actual` is known.
pub open spec fn type_matches(target: ClientLocal, actual: Option<TypeId>) -> Result<(), ClientPlanError> {
    match actual {
        Some(actual) => if actual == target.type_id {
            Ok(())
        } else {
            Err(
                ClientPlanError::ProceduralLocalTypeMismatch {
                    local: target.local,
                    expected: target.type_id,
                    actual,
                },
            )
        },
        None => Ok(()),
    }
}

/// Whether what a local receives has its kind.
pub open spec fn kind_matches(target: ClientLocal, expression: Expression, locals: Seq<ClientLocal>) -> Result<
    (),
    ClientPlanError,
> {
    if denoted_handle(expression, locals) == target.kind.handle() {
        Ok(())
    } else {
        Err(ClientPlanError::ProceduralLocalKindMismatch(target.local))
    }
}

/// The type that an expression other than an await is known to give: that of a
/// local that is read, and that of a resource operation whose handle is kept.
pub open spec fn direct_type(target: ClientLocal, expression: Expression, locals: Seq<ClientLocal>) -> Option<TypeId> {
    match expression {
        Expression::LocalRead { local } => match declaration(locals, local) {
            Some(source) => Some(source.type_id),
            None => None,
        },
        Expression::Resource { operation } => if target.kind is Resource {
            Some(operation.result_type)
        } else {
            None
        },
        _ => None,
    }
}

/// Whether a statement may follow statements that initialised `initialized`.
pub open spec fn statement_valid(statement: Statement, locals: Seq<ClientLocal>, initialized: Set<LocalId>) -> Result<
    (),
    ClientPlanError,
> {
    let local = statement.local();
    let expression = statement.expression();
    match declaration(locals, local) {
        None => Err(ClientPlanError::UnknownProceduralLocal(local)),
        Some(target) => first_failure(
            contract_placement(expression, false),
            first_failure(
                shape_valid(expression, locals, true, true, target.kind is Value),
                if statement is Assignment && !initialized.contains(local) {
                    Err(ClientPlanError::ProceduralAssignmentBeforeLet(local))
                } else {
                    first_failure(
                        reads_valid(expression, initialized),
                        first_failure(
                            if target.kind is Value {
                                type_matches(target, awaited_type(expression, locals))
                            } else {
                                Ok(())
                            },
                            first_failure(
                                kind_matches(target, expression, locals),
                                type_matches(target, direct_type(target, expression, locals)),
                            ),
                        ),
                    )
                },
            ),
        ),
    }
}

/// The locals that are initialised behind the statements from `index` on, or
/// the first failure.
pub open spec fn statements_valid(
    statements: Seq<Statement>,
    index: nat,
    locals: Seq<ClientLocal>,
    initialized: Set<LocalId>,
) -> Result<Set<LocalId>, ClientPlanError>
    decreases statements.len() - index,
{
    if index >= statements.len() {
        Ok(initialized)
    } else {
        match statement_valid(statements[index as int], locals, initialized) {
            Err(error) => Err(error),
            Ok(()) => statements_valid(
                statements,
                index + 1,
                locals,
                if statements[index as int] is Let {
                    initialized.insert(statements[index as int].local())
                } else {
                    initialized
                },
            ),
        }
    }
}

/// The first local from `index` on with a second LET.
pub open spec fn repeated_let(statements: Seq<Statement>, index: nat, seen: Set<LocalId>) -> Option<LocalId>
    decreases statements.len() - index,
{
    if index >= statements.len() {
        None
    } else {
        match statements[index as int] {
            Statement::Let { local, .. } => if seen.contains(local) {
                Some(local)
            } else {
                repeated_let(statements, index + 1, seen.insert(local))
            },
            Statement::Assignment { .. } => repeated_let(statements, index + 1, seen),
        }
    }
}

/// Whether a tree may be returned: a resource handle has to be awaited.
pub open spec fn return_valid(expression: Expression, locals: Seq<ClientLocal>, initialized: Set<LocalId>) -> Result<
    (),
    ClientPlanError,
> {
    first_failure(
        contract_placement(expression, false),
        first_failure(
            shape_valid(expression, locals, false, true, true),
            reads_valid(expression, initialized),
        ),
    )
}

/// Whether a procedural plan keeps the rules.
pub open spec fn procedural_model_valid(plan: ProceduralPlan) -> Result<(), ClientPlanError> {
    if plan.locals.len() > MAX_PROCEDURAL_LOCALS {
        Err(ClientPlanError::ProceduralLocalLimitExceeded { limit: MAX_PROCEDURAL_LOCALS })
    } else if plan.statements.len() > MAX_PROCEDURAL_STATEMENTS {
        Err(ClientPlanError::ProceduralStatementLimitExceeded { limit: MAX_PROCEDURAL_STATEMENTS })
    } else {
        match repeated_local(plan.locals, 0) {
            Some(local) => Err(ClientPlanError::DuplicateProceduralLocal(local)),
            None => match statements_valid(plan.statements, 0, plan.locals, Set::empty()) {
                Err(error) => Err(error),
                Ok(initialized) => match repeated_let(plan.statements, 0, Set::empty()) {
                    Some(local) => Err(ClientPlanError::DuplicateProceduralLet(local)),
                    None => match missing_local(plan.locals, 0, initialized) {
                        Some(local) => Err(ClientPlanError::MissingProceduralLet(local)),
                        None => return_valid(plan.return_expression, plan.locals, initialized),
                    },
                },
            },
        }
    }
}

/// Every statement of a valid plan targets a declared local.
pub proof fn lemma_targets_declared(
    statements: Seq<Statement>,
    index: nat,
    locals: Seq<ClientLocal>,
    initialized: Set<LocalId>,
)
    requires
        statements_valid(statements, index, locals, initialized) is Ok,
    ensures
        forall|i: int|
            index <= i < statements.len() ==> declaration(locals, (#[trigger] statements[i]).local()) is Some,
    decreases statements.len() - index,
{
    if index < statements.len() {
        let after = if statements[index as int] is Let {
            initialized.insert(statements[index as int].local())
        } else {
            initialized
        };
        lemma_targets_declared(statements, index + 1, locals, after);
    }
}

/// Refuses reads of locals that are not initialised.
fn validate_local_reads(node: &ClientExpressionNode, initialized: &Vec<LocalId>) -> (result: Result<
    (),
    ClientPlanError,
>)
    ensures
        result == reads_valid(node@, initialized@.to_set()),
    decreases node@,
{
    match node {
        ClientExpressionNode::LocalRead { local } => {
            if holds_local(initialized, *local) {
                return Ok(());
            }
            return Err(ClientPlanError::ProceduralLocalReadBeforeLet(*local));
        },
        ClientExpressionNode::Unary { .. } => return Err(ClientPlanError::InvalidExpressionNode(NODE_UNARY)),
        ClientExpressionNode::Binary { .. } => return Err(ClientPlanError::InvalidExpressionNode(NODE_BINARY)),
        _ => {},
    }
    let mut index: usize = 0;
    loop
        invariant
            index <= operands(node@).len(),
            reads_valid(node@, initialized@.to_set()) == operand_reads_valid(
                node@,
                index as nat,
                initialized@.to_set(),
            ),
        decreases operands(node@).len() - index,
    {
        match node.operand(index) {
            None => return Ok(()),
            Some(operand) => {
                proof {
                    lemma_operand_decreases(node@, index as int);
                }
                validate_local_reads(operand, initialized)?;
            },
        }
        index = index + 1;
    }
}

/// Refuses nodes that stand where they may not.
fn validate_shape(
    node: &ClientExpressionNode,
    locals: &[ClientLocal],
    allow_resource_root: bool,
    allow_await_root: bool,
    value_position: bool,
) -> (result: Result<(), ClientPlanError>)
    ensures
        result == shape_valid(node@, locals@, allow_resource_root, allow_await_root, value_position),
    decreases node@, 1nat,
{
    match node {
        ClientExpressionNode::Await { expression: awaited } => {
            if !allow_await_root {
                return Err(ClientPlanError::InvalidExpressionNode(NODE_AWAIT));
            }
            proof {
                lemma_operand_decreases(node@, 0);
            }
            match &**awaited {
                ClientExpressionNode::Resource { operation } => {
                    assert(awaited@ is Resource);
                    validate_resource_arguments(&operation.arguments)?;
                    validate_operand_shapes(awaited, locals)
                },
                ClientExpressionNode::LocalRead { local } => match find_local(locals, *local) {
                    None => Err(ClientPlanError::UnknownProceduralLocal(*local)),
                    Some(source) => match source.kind {
                        ClientLocalKind::Resource(_) => Ok(()),
                        ClientLocalKind::Value => Err(ClientPlanError::InvalidAwaitOperand(*local)),
                    },
                },
                _ => Err(ClientPlanError::InvalidExpressionNode(NODE_AWAIT)),
            }
        },
        ClientExpressionNode::Resource { operation } => {
            if !allow_resource_root {
                return Err(ClientPlanError::InvalidExpressionNode(NODE_RESOURCE));
            }
            validate_resource_arguments(&operation.arguments)?;
            validate_operand_shapes(node, locals)
        },
        ClientExpressionNode::LocalRead { local } => match find_local(locals, *local) {
            None => Err(ClientPlanError::UnknownProceduralLocal(*local)),
            Some(source) => match source.kind {
                ClientLocalKind::Resource(_) if value_position => Err(
                    ClientPlanError::UnawaitedResourceLocal(*local),
                ),
                _ => Ok(()),
            },
        },
        ClientExpressionNode::Call { arguments, .. } => {
            proof {
                lemma_arguments_of(arguments@);
            }
            if arguments.len() > MAX_CALL_ARGUMENTS {
                return Err(ClientPlanError::ExpressionCollectionExceeded { limit: MAX_CALL_ARGUMENTS });
            }
            validate_operand_shapes(node, locals)
        },
        ClientExpressionNode::Unary { .. } => Err(ClientPlanError::InvalidExpressionNode(NODE_UNARY)),
        ClientExpressionNode::Action { .. } => Err(ClientPlanError::InvalidExpressionNode(NODE_ACTION)),
        ClientExpressionNode::Inspect { operation: InspectOperationNode::Snapshot { options: Some(_), .. } } => Err(
            ClientPlanError::UnsupportedInspectOptions,
        ),
        _ => validate_operand_shapes(node, locals),
    }
}

/// Refuses operands that are no valid values.
fn validate_operand_shapes(node: &ClientExpressionNode, locals: &[ClientLocal]) -> (result: Result<
    (),
    ClientPlanError,
>)
    ensures
        result == operand_shapes_valid(node@, 0, locals@),
    decreases node@, 0nat,
{
    let mut index: usize = 0;
    loop
        invariant
            index <= operands(node@).len(),
            operand_shapes_valid(node@, 0, locals@) == operand_shapes_valid(node@, index as nat, locals@),
        decreases operands(node@).len() - index,
    {
        match node.operand(index) {
            None => return Ok(()),
            Some(operand) => {
                proof {
                    lemma_operand_decreases(node@, index as int);
                }
                validate_shape(operand, locals, false, false, true)?;
            },
        }
        index = index + 1;
    }
}

/// Returns the type that an awaiting expression is known to give.
fn known_awaited_type(node: &ClientExpressionNode, locals: &[ClientLocal]) -> (known: Option<TypeId>)
    ensures
        known == awaited_type(node@, locals@),
{
    match node {
        ClientExpressionNode::Await { expression: awaited } => match &**awaited {
            ClientExpressionNode::Resource { operation } => {
                assert(awaited@ is Resource);
                Some(operation.result_type)
            },
            ClientExpressionNode::LocalRead { local } => {
                assert(awaited@ is LocalRead);
                match find_local(locals, *local) {
                    Some(source) => match source.kind {
                        ClientLocalKind::Resource(_) => Some(source.type_id),
                        ClientLocalKind::Value => None,
                    },
                    None => None,
                }
            },
            _ => {
                assert(!(awaited@ is Resource) && !(awaited@ is LocalRead));
                None
            },
        },
        _ => None,
    }
}

/// Returns the type that an expression other than an await is known to give.
fn known_direct_type(target: ClientLocal, node: &ClientExpressionNode, locals: &[ClientLocal]) -> (known: Option<
    TypeId,
>)
    ensures
        known == direct_type(target, node@, locals@),
{
    match node {
        ClientExpressionNode::LocalRead { local } => match find_local(locals, *local) {
            Some(source) => Some(source.type_id),
            None => None,
        },
        ClientExpressionNode::Resource { operation } => match target.kind {
            ClientLocalKind::Resource(_) => Some(operation.result_type),
            ClientLocalKind::Value => None,
        },
        _ => None,
    }
}

/// Refuses a type other than that of the local that receives it.
fn validate_type(target: ClientLocal, known: Option<TypeId>) -> (result: Result<(), ClientPlanError>)
    ensures
        result == type_matches(target, known),
{
    match known {
        Some(actual) if actual != target.type_id => Err(
            ClientPlanError::ProceduralLocalTypeMismatch { local: target.local, expected: target.type_id, actual },
        ),
        _ => Ok(()),
    }
}

/// Refuses a kind other than that of the local that receives it.
fn validate_kind(target: ClientLocal, node: &ClientExpressionNode, locals: &[ClientLocal]) -> (result: Result<
    (),
    ClientPlanError,
>)
    ensures
        result == kind_matches(target, node@, locals@),
{
    let actual = denoted_resource_kind(node, locals);
    match (target.kind, actual) {
        (ClientLocalKind::Value, None) => Ok(()),
        (ClientLocalKind::Resource(expected), Some(kind)) if expected == kind => Ok(()),
        _ => Err(ClientPlanError::ProceduralLocalKindMismatch(target.local)),
    }
}

/// Refuses a statement that may not follow those that initialised
/// `initialized`.
fn validate_statement(statement: &ClientStatement, locals: &[ClientLocal], initialized: &Vec<LocalId>) -> (result:
    Result<(), ClientPlanError>)
    ensures
        result == statement_valid(statement@, locals@, initialized@.to_set()),
{
    let local = statement.local();
    let expression = statement.expression();
    let target = match find_local(locals, local) {
        Some(target) => target,
        None => return Err(ClientPlanError::UnknownProceduralLocal(local)),
    };
    let value = match target.kind {
        ClientLocalKind::Value => true,
        ClientLocalKind::Resource(_) => false,
    };
    validate_external_contract_placement(expression, false)?;
    validate_shape(expression, locals, true, true, value)?;
    if let ClientStatement::Assignment { .. } = statement {
        if !holds_local(initialized, local) {
            return Err(ClientPlanError::ProceduralAssignmentBeforeLet(local));
        }
    }
    validate_local_reads(expression, initialized)?;
    if value {
        validate_type(target, known_awaited_type(expression, locals))?;
    }
    validate_kind(target, expression, locals)?;
    validate_type(target, known_direct_type(target, expression, locals))
}

/// Refuses statements that break the rules, and returns the initialised locals
/// behind them.
fn validate_statements(statements: &Vec<ClientStatement>, locals: &[ClientLocal]) -> (result: Result<
    Vec<LocalId>,
    ClientPlanError,
>)
    ensures
        match statements_valid(statements_of(statements@), 0, locals@, Set::empty()) {
            Ok(initialized) => result is Ok && result->Ok_0@.to_set() == initialized,
            Err(error) => result == Err::<Vec<LocalId>, ClientPlanError>(error),
        },
{
    let ghost list = statements_of(statements@);
    let mut initialized: Vec<LocalId> = Vec::new();
    assert(initialized@.to_set() =~= Set::empty());
    let mut index: usize = 0;
    while index < statements.len()
        invariant
            index <= statements.len(),
            list == statements_of(statements@),
            statements_valid(list, 0, locals@, Set::empty()) == statements_valid(
                list,
                index as nat,
                locals@,
                initialized@.to_set(),
            ),
        decreases statements.len() - index,
    {
        assert(list[index as int] == statements[index as int]@);
        validate_statement(&statements[index], locals, &initialized)?;
        if let ClientStatement::Let { local, .. } = &statements[index] {
            add_local(&mut initialized, *local);
        }
        index = index + 1;
    }
    Ok(initialized)
}

/// Refuses a second LET of a local.
fn validate_lets(statements: &Vec<ClientStatement>) -> (result: Result<(), ClientPlanError>)
    ensures
        result == match repeated_let(statements_of(statements@), 0, Set::empty()) {
            Some(local) => Err::<(), ClientPlanError>(ClientPlanError::DuplicateProceduralLet(local)),
            None => Ok(()),
        },
{
    let ghost list = statements_of(statements@);
    let mut seen: Vec<LocalId> = Vec::new();
    assert(seen@.to_set() =~= Set::empty());
    let mut index: usize = 0;
    while index < statements.len()
        invariant
            index <= statements.len(),
            list == statements_of(statements@),
            repeated_let(list, 0, Set::empty()) == repeated_let(list, index as nat, seen@.to_set()),
        decreases statements.len() - index,
    {
        assert(list[index as int] == statements[index as int]@);
        if let ClientStatement::Let { local, .. } = &statements[index] {
            if holds_local(&seen, *local) {
                return Err(ClientPlanError::DuplicateProceduralLet(*local));
            }
            add_local(&mut seen, *local);
        }
        index = index + 1;
    }
    Ok(())
}

/// Refuses a procedural plan that breaks the rules.
pub fn validate_procedural_model(
    locals: &Vec<ClientLocal>,
    statements: &Vec<ClientStatement>,
    return_expression: &ClientExpressionNode,
) -> (result: Result<(), ClientPlanError>)
    ensures
        result == procedural_model_valid(
            (ProceduralPlan {
                locals: locals@,
                statements: statements_of(statements@),
                return_expression: return_expression@,
            }),
        ),
{
    if locals.len() > MAX_PROCEDURAL_LOCALS {
        return Err(ClientPlanError::ProceduralLocalLimitExceeded { limit: MAX_PROCEDURAL_LOCALS });
    }
    if statements.len() > MAX_PROCEDURAL_STATEMENTS {
        return Err(ClientPlanError::ProceduralStatementLimitExceeded { limit: MAX_PROCEDURAL_STATEMENTS });
    }
    let declared = locals.as_slice();
    validate_distinct_locals(declared, LocalRule::Procedural)?;
    let initialized = validate_statements(statements, declared)?;
    validate_lets(statements)?;
    if let Some(local) = find_missing_local(declared, &initialized) {
        return Err(ClientPlanError::MissingProceduralLet(local));
    }
    validate_external_contract_placement(return_expression, false)?;
    validate_shape(return_expression, declared, false, true, true)?;
    validate_local_reads(return_expression, &initialized)
}

} // verus!
