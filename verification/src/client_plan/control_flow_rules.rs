//! The rules of programmable plans.
//!
//! Every declared local has exactly one LET. A local is definitely initialised
//! behind its LET; what only a branch or a loop body initialises is not definite
//! behind it, because another branch may be taken or the body may not run. No
//! local is read or assigned where it is not definitely initialised.

use vstd::prelude::*;

use crate::client_plan::control_flow::{
    block_of, branches_of, lemma_block_of, lemma_branches_of, ControlFlowIfBranch, ControlFlowStatement, FlowBranch,
    FlowPlan, FlowStatement,
};
use crate::client_plan::control_flow_codec::BLOCK_LEVELS;
use crate::client_plan::error::{first_failure, refused, ClientPlanError};
use crate::client_plan::expression::{
    lemma_arguments_of, lemma_operand_decreases, operands, ClientExpressionNode, Expression, InspectOperation,
    InspectOperationNode,
};
use crate::client_plan::local::{
    add_local, declaration, denoted_handle, denoted_resource_kind, find_local, find_missing_local, holds_local,
    missing_local, repeated_local, validate_distinct_locals, ClientLocal, ClientLocalKind, LocalRule,
};
use crate::client_plan::operation::{action_valid, resource_refusal};
use crate::client_plan::placement::{contract_placement, validate_external_contract_placement};
use crate::client_plan::{
    MAX_CALL_ARGUMENTS, MAX_CONTROL_FLOW_BRANCHES, MAX_CONTROL_FLOW_LOCALS, MAX_CONTROL_FLOW_STATEMENTS, NODE_AWAIT,
    NODE_RESOURCE,
};
use crate::identity::LocalId;

verus! {

/// What is known of the locals at one place of a body.
pub struct FlowState {
    /// The locals that are definitely initialised.
    pub initialized: Set<LocalId>,
    /// The locals whose LET was seen, on any path.
    pub seen: Set<LocalId>,
}

/// Whether a local read may stand where it does.
pub open spec fn flow_read_valid(
    local: LocalId,
    locals: Seq<ClientLocal>,
    initialized: Set<LocalId>,
    value_position: bool,
) -> Result<(), ClientPlanError> {
    match declaration(locals, local) {
        None => Err(ClientPlanError::UnknownControlFlowLocal(local)),
        Some(source) => if !initialized.contains(local) {
            Err(ClientPlanError::ControlFlowLocalReadBeforeLet(local))
        } else if value_position && source.kind is Resource {
            Err(ClientPlanError::UnawaitedResourceLocal(local))
        } else {
            Ok(())
        },
    }
}

/// Whether a local may be awaited.
pub open spec fn flow_await_valid(local: LocalId, locals: Seq<ClientLocal>, initialized: Set<LocalId>) -> Result<
    (),
    ClientPlanError,
> {
    match declaration(locals, local) {
        None => Err(ClientPlanError::UnknownControlFlowLocal(local)),
        Some(source) => if !(source.kind is Resource) {
            Err(ClientPlanError::InvalidAwaitOperand(local))
        } else if !initialized.contains(local) {
            Err(ClientPlanError::ControlFlowLocalReadBeforeLet(local))
        } else {
            Ok(())
        },
    }
}

/// Whether the nodes of a tree stand where they may. A resource operation is
/// valid at a root that admits it or right below an await, and an await only at
/// a root.
pub open spec fn flow_shape_valid(
    expression: Expression,
    locals: Seq<ClientLocal>,
    initialized: Set<LocalId>,
    allow_resource_root: bool,
    allow_await_root: bool,
    value_position: bool,
) -> Result<(), ClientPlanError>
    decreases expression, operands(expression).len() + 1,
{
    match expression {
        Expression::Await { expression: awaited } => if !allow_await_root {
            Err(ClientPlanError::InvalidExpressionNode(NODE_AWAIT))
        } else {
            proof {
                lemma_operand_decreases(expression, 0);
            }
            match *awaited {
                Expression::Resource { operation } => first_failure(
                    refused(resource_refusal(operation)),
                    flow_operand_shapes_valid(*awaited, 0, locals, initialized),
                ),
                Expression::LocalRead { local } => flow_await_valid(local, locals, initialized),
                _ => Err(ClientPlanError::InvalidExpressionNode(NODE_AWAIT)),
            }
        },
        Expression::Resource { operation } => if !allow_resource_root {
            Err(ClientPlanError::InvalidExpressionNode(NODE_RESOURCE))
        } else {
            first_failure(
                refused(resource_refusal(operation)),
                flow_operand_shapes_valid(expression, 0, locals, initialized),
            )
        },
        Expression::Action { operation } => first_failure(
            action_valid(operation),
            flow_operand_shapes_valid(expression, 0, locals, initialized),
        ),
        Expression::Inspect { operation: InspectOperation::Snapshot { options: Some(_), .. } } => Err(
            ClientPlanError::UnsupportedInspectOptions,
        ),
        Expression::LocalRead { local } => flow_read_valid(local, locals, initialized, value_position),
        Expression::Call { arguments, .. } => if arguments.len() > MAX_CALL_ARGUMENTS {
            Err(ClientPlanError::ExpressionCollectionExceeded { limit: MAX_CALL_ARGUMENTS })
        } else {
            flow_operand_shapes_valid(expression, 0, locals, initialized)
        },
        _ => flow_operand_shapes_valid(expression, 0, locals, initialized),
    }
}

/// Whether the operands from `index` on are valid values.
pub open spec fn flow_operand_shapes_valid(
    expression: Expression,
    index: nat,
    locals: Seq<ClientLocal>,
    initialized: Set<LocalId>,
) -> Result<(), ClientPlanError>
    decreases expression, operands(expression).len() - index,
{
    if index < operands(expression).len() {
        proof {
            lemma_operand_decreases(expression, index as int);
        }
        match flow_shape_valid(operands(expression)[index as int], locals, initialized, false, false, true) {
            Err(error) => Err(error),
            Ok(()) => flow_operand_shapes_valid(expression, index + 1, locals, initialized),
        }
    } else {
        Ok(())
    }
}

/// Whether a tree may stand at a place of a body.
pub open spec fn flow_expression_valid(
    expression: Expression,
    locals: Seq<ClientLocal>,
    initialized: Set<LocalId>,
    allow_resource_root: bool,
    value_position: bool,
) -> Result<(), ClientPlanError> {
    first_failure(
        contract_placement(expression, true),
        flow_shape_valid(expression, locals, initialized, allow_resource_root, true, value_position),
    )
}

/// Whether a tree may be what a local receives.
pub open spec fn flow_received_valid(
    target: ClientLocal,
    expression: Expression,
    locals: Seq<ClientLocal>,
    initialized: Set<LocalId>,
) -> Result<(), ClientPlanError> {
    first_failure(
        flow_expression_valid(expression, locals, initialized, target.kind is Resource, target.kind is Value),
        if denoted_handle(expression, locals) == target.kind.handle() {
            Ok(())
        } else {
            Err(ClientPlanError::ControlFlowLocalKindMismatch(target.local))
        },
    )
}

/// What is known behind a block with at most `levels` levels of blocks, or the
/// first failure.
pub open spec fn block_valid(
    statements: Seq<FlowStatement>,
    levels: nat,
    locals: Seq<ClientLocal>,
    state: FlowState,
) -> Result<FlowState, ClientPlanError>
    decreases levels, 0nat, 0nat,
{
    if levels == 0 {
        Err(ClientPlanError::ControlFlowBlockDepthExceeded)
    } else if statements.len() > MAX_CONTROL_FLOW_STATEMENTS {
        Err(ClientPlanError::ControlFlowStatementLimitExceeded { limit: MAX_CONTROL_FLOW_STATEMENTS })
    } else {
        flow_statements_valid(statements, 0, (levels - 1) as nat, locals, state)
    }
}

/// What is known behind the statements from `index` on.
pub open spec fn flow_statements_valid(
    statements: Seq<FlowStatement>,
    index: nat,
    levels: nat,
    locals: Seq<ClientLocal>,
    state: FlowState,
) -> Result<FlowState, ClientPlanError>
    decreases levels, 3nat, statements.len() - index,
{
    if index >= statements.len() {
        Ok(state)
    } else {
        match flow_statement_valid(statements[index as int], levels, locals, state) {
            Err(error) => Err(error),
            Ok(state) => flow_statements_valid(statements, index + 1, levels, locals, state),
        }
    }
}

/// What is known behind a statement whose blocks have at most `levels` levels.
pub open spec fn flow_statement_valid(
    statement: FlowStatement,
    levels: nat,
    locals: Seq<ClientLocal>,
    state: FlowState,
) -> Result<FlowState, ClientPlanError>
    decreases levels, 2nat, 0nat,
{
    match statement {
        FlowStatement::Let { local, expression } => match declaration(locals, local) {
            None => Err(ClientPlanError::UnknownControlFlowLocal(local)),
            Some(target) => if state.seen.contains(local) {
                Err(ClientPlanError::DuplicateControlFlowLet(local))
            } else {
                match flow_received_valid(target, expression, locals, state.initialized) {
                    Err(error) => Err(error),
                    Ok(()) => Ok(
                        FlowState {
                            initialized: state.initialized.insert(local),
                            seen: state.seen.insert(local),
                        },
                    ),
                }
            },
        },
        FlowStatement::Assignment { local, expression } => match declaration(locals, local) {
            None => Err(ClientPlanError::UnknownControlFlowLocal(local)),
            Some(target) => if !state.initialized.contains(local) {
                Err(ClientPlanError::ControlFlowAssignmentBeforeLet(local))
            } else {
                match flow_received_valid(target, expression, locals, state.initialized) {
                    Err(error) => Err(error),
                    Ok(()) => Ok(state),
                }
            },
        },
        FlowStatement::Return { expression } => match expression {
            None => Ok(state),
            Some(expression) => match flow_expression_valid(expression, locals, state.initialized, false, true) {
                Err(error) => Err(error),
                Ok(()) => Ok(state),
            },
        },
        FlowStatement::If { branches, otherwise } => if branches.len() == 0 {
            Err(ClientPlanError::InvalidControlFlowBranchCount { actual: 0 })
        } else if branches.len() > MAX_CONTROL_FLOW_BRANCHES {
            Err(ClientPlanError::ControlFlowBranchLimitExceeded { limit: MAX_CONTROL_FLOW_BRANCHES })
        } else {
            match branches_valid(branches, 0, levels, locals, state.initialized, state) {
                Err(error) => Err(error),
                Ok(behind) => match otherwise {
                    None => Ok(FlowState { initialized: state.initialized, seen: behind.seen }),
                    Some(body) => match block_valid(
                        body,
                        levels,
                        locals,
                        FlowState { initialized: state.initialized, seen: behind.seen },
                    ) {
                        Err(error) => Err(error),
                        Ok(exit) => Ok(
                            FlowState {
                                initialized: behind.initialized.intersect(exit.initialized),
                                seen: exit.seen,
                            },
                        ),
                    },
                },
            }
        },
        FlowStatement::While { condition, body } => match flow_expression_valid(
            condition,
            locals,
            state.initialized,
            false,
            true,
        ) {
            Err(error) => Err(error),
            Ok(()) => match block_valid(body, levels, locals, state) {
                Err(error) => Err(error),
                Ok(exit) => Ok(FlowState { initialized: state.initialized, seen: exit.seen }),
            },
        },
    }
}

/// What every branch from `index` on leaves initialised of `state`, where
/// `incoming` is initialised in front of each of them.
pub open spec fn branches_valid(
    branches: Seq<FlowBranch>,
    index: nat,
    levels: nat,
    locals: Seq<ClientLocal>,
    incoming: Set<LocalId>,
    state: FlowState,
) -> Result<FlowState, ClientPlanError>
    decreases levels, 1nat, branches.len() - index,
{
    if index >= branches.len() {
        Ok(state)
    } else {
        match flow_expression_valid(branches[index as int].condition, locals, incoming, false, true) {
            Err(error) => Err(error),
            Ok(()) => match block_valid(
                branches[index as int].body,
                levels,
                locals,
                FlowState { initialized: incoming, seen: state.seen },
            ) {
                Err(error) => Err(error),
                Ok(exit) => branches_valid(
                    branches,
                    index + 1,
                    levels,
                    locals,
                    incoming,
                    FlowState { initialized: state.initialized.intersect(exit.initialized), seen: exit.seen },
                ),
            },
        }
    }
}

/// Whether a programmable plan keeps the rules.
pub open spec fn flow_model_valid(plan: FlowPlan) -> Result<(), ClientPlanError> {
    if plan.locals.len() > MAX_CONTROL_FLOW_LOCALS {
        Err(ClientPlanError::ControlFlowLocalLimitExceeded { limit: MAX_CONTROL_FLOW_LOCALS })
    } else if plan.statements.len() > MAX_CONTROL_FLOW_STATEMENTS {
        Err(ClientPlanError::ControlFlowStatementLimitExceeded { limit: MAX_CONTROL_FLOW_STATEMENTS })
    } else {
        match repeated_local(plan.locals, 0) {
            Some(local) => Err(ClientPlanError::DuplicateControlFlowLocal(local)),
            None => match block_valid(
                plan.statements,
                BLOCK_LEVELS as nat,
                plan.locals,
                FlowState { initialized: Set::empty(), seen: Set::empty() },
            ) {
                Err(error) => Err(error),
                Ok(exit) => match missing_local(plan.locals, 0, exit.seen) {
                    Some(local) => Err(ClientPlanError::MissingControlFlowLet(local)),
                    None => Ok(()),
                },
            },
        }
    }
}

/// A block takes back no initialisation and forgets no LET: what is definitely
/// initialised in front of a valid block is so behind it.
pub proof fn law_block_keeps_initialized(
    statements: Seq<FlowStatement>,
    levels: nat,
    locals: Seq<ClientLocal>,
    state: FlowState,
)
    ensures
        block_valid(statements, levels, locals, state) matches Ok(exit) ==> {
            &&& state.initialized.subset_of(exit.initialized)
            &&& state.seen.subset_of(exit.seen)
        },
    decreases levels, 0nat, 0nat,
{
    if levels > 0 && statements.len() <= MAX_CONTROL_FLOW_STATEMENTS {
        lemma_statements_keep_initialized(statements, 0, (levels - 1) as nat, locals, state);
    }
}

/// Statements take back no initialisation and forget no LET.
proof fn lemma_statements_keep_initialized(
    statements: Seq<FlowStatement>,
    index: nat,
    levels: nat,
    locals: Seq<ClientLocal>,
    state: FlowState,
)
    ensures
        flow_statements_valid(statements, index, levels, locals, state) matches Ok(exit) ==> {
            &&& state.initialized.subset_of(exit.initialized)
            &&& state.seen.subset_of(exit.seen)
        },
    decreases levels, 3nat, statements.len() - index,
{
    if index < statements.len() {
        lemma_statement_keeps_initialized(statements[index as int], levels, locals, state);
        if flow_statement_valid(statements[index as int], levels, locals, state) is Ok {
            let next = flow_statement_valid(statements[index as int], levels, locals, state)->Ok_0;
            lemma_statements_keep_initialized(statements, index + 1, levels, locals, next);
        }
    }
}

/// A statement takes back no initialisation and forgets no LET, and only a LET
/// initialises.
proof fn lemma_statement_keeps_initialized(
    statement: FlowStatement,
    levels: nat,
    locals: Seq<ClientLocal>,
    state: FlowState,
)
    ensures
        flow_statement_valid(statement, levels, locals, state) matches Ok(exit) ==> {
            &&& state.initialized.subset_of(exit.initialized)
            &&& state.seen.subset_of(exit.seen)
            &&& !(statement is Let) ==> exit.initialized == state.initialized
        },
    decreases levels, 2nat, 0nat,
{
    match statement {
        FlowStatement::If { branches, otherwise } => {
            lemma_branches_keep_initialized(branches, 0, levels, locals, state.initialized, state);
            if let Ok(behind) = branches_valid(branches, 0, levels, locals, state.initialized, state) {
                if let Some(body) = otherwise {
                    let entry = FlowState { initialized: state.initialized, seen: behind.seen };
                    law_block_keeps_initialized(body, levels, locals, entry);
                    if let Ok(exit) = block_valid(body, levels, locals, entry) {
                        assert(behind.initialized.intersect(exit.initialized) =~= state.initialized);
                    }
                }
            }
        },
        FlowStatement::While { body, .. } => {
            law_block_keeps_initialized(body, levels, locals, state);
        },
        _ => {},
    }
}

/// Branches leave initialised what is so in front of them.
proof fn lemma_branches_keep_initialized(
    branches: Seq<FlowBranch>,
    index: nat,
    levels: nat,
    locals: Seq<ClientLocal>,
    incoming: Set<LocalId>,
    state: FlowState,
)
    requires
        state.initialized == incoming,
    ensures
        branches_valid(branches, index, levels, locals, incoming, state) matches Ok(exit) ==> {
            &&& exit.initialized == incoming
            &&& state.seen.subset_of(exit.seen)
        },
    decreases levels, 1nat, branches.len() - index,
{
    if index < branches.len() {
        let body = branches[index as int].body;
        let entry = FlowState { initialized: incoming, seen: state.seen };
        law_block_keeps_initialized(body, levels, locals, entry);
        if let Ok(exit) = block_valid(body, levels, locals, entry) {
            assert(state.initialized.intersect(exit.initialized) =~= incoming);
            lemma_branches_keep_initialized(
                branches,
                index + 1,
                levels,
                locals,
                incoming,
                FlowState { initialized: incoming, seen: exit.seen },
            );
        }
    }
}

/// Only a LET of the block itself initialises a local for what follows: behind
/// any other valid statement exactly the same locals are initialised.
pub proof fn law_only_let_initializes(
    statement: FlowStatement,
    levels: nat,
    locals: Seq<ClientLocal>,
    state: FlowState,
)
    requires
        !(statement is Let),
    ensures
        flow_statement_valid(statement, levels, locals, state) matches Ok(exit) ==> exit.initialized
            == state.initialized,
{
    lemma_statement_keeps_initialized(statement, levels, locals, state);
}

/// Refuses nodes that stand where they may not.
fn validate_flow_shape(
    node: &ClientExpressionNode,
    locals: &[ClientLocal],
    initialized: &Vec<LocalId>,
    allow_resource_root: bool,
    allow_await_root: bool,
    value_position: bool,
) -> (result: Result<(), ClientPlanError>)
    ensures
        result == flow_shape_valid(
            node@,
            locals@,
            initialized@.to_set(),
            allow_resource_root,
            allow_await_root,
            value_position,
        ),
    decreases node@, 1nat,
{
    match node {
        ClientExpressionNode::Await { expression: awaited } => {
            if !allow_await_root {
                return Err(ClientPlanError::InvalidExpressionNode(NODE_AWAIT));
            }
            proof {
                lemma_operand_decreases(node@, 0);
            }
            match &**awaited {
                ClientExpressionNode::Resource { operation } => {
                    assert(awaited@ is Resource);
                    operation.validate()?;
                    validate_flow_operands(awaited, locals, initialized)
                },
                ClientExpressionNode::LocalRead { local } => match find_local(locals, *local) {
                    None => Err(ClientPlanError::UnknownControlFlowLocal(*local)),
                    Some(source) => match source.kind {
                        ClientLocalKind::Value => Err(ClientPlanError::InvalidAwaitOperand(*local)),
                        ClientLocalKind::Resource(_) => if holds_local(initialized, *local) {
                            Ok(())
                        } else {
                            Err(ClientPlanError::ControlFlowLocalReadBeforeLet(*local))
                        },
                    },
                },
                _ => Err(ClientPlanError::InvalidExpressionNode(NODE_AWAIT)),
            }
        },
        ClientExpressionNode::Resource { operation } => {
            if !allow_resource_root {
                return Err(ClientPlanError::InvalidExpressionNode(NODE_RESOURCE));
            }
            operation.validate()?;
            validate_flow_operands(node, locals, initialized)
        },
        ClientExpressionNode::Action { operation } => {
            operation.validate_placed()?;
            validate_flow_operands(node, locals, initialized)
        },
        ClientExpressionNode::Inspect { operation: InspectOperationNode::Snapshot { options: Some(_), .. } } => Err(
            ClientPlanError::UnsupportedInspectOptions,
        ),
        ClientExpressionNode::LocalRead { local } => match find_local(locals, *local) {
            None => Err(ClientPlanError::UnknownControlFlowLocal(*local)),
            Some(source) => {
                if !holds_local(initialized, *local) {
                    return Err(ClientPlanError::ControlFlowLocalReadBeforeLet(*local));
                }
                match source.kind {
                    ClientLocalKind::Resource(_) if value_position => Err(
                        ClientPlanError::UnawaitedResourceLocal(*local),
                    ),
                    _ => Ok(()),
                }
            },
        },
        ClientExpressionNode::Call { arguments, .. } => {
            proof {
                lemma_arguments_of(arguments@);
            }
            if arguments.len() > MAX_CALL_ARGUMENTS {
                return Err(ClientPlanError::ExpressionCollectionExceeded { limit: MAX_CALL_ARGUMENTS });
            }
            validate_flow_operands(node, locals, initialized)
        },
        _ => validate_flow_operands(node, locals, initialized),
    }
}

/// Refuses operands that are no valid values.
fn validate_flow_operands(node: &ClientExpressionNode, locals: &[ClientLocal], initialized: &Vec<LocalId>) -> (result:
    Result<(), ClientPlanError>)
    ensures
        result == flow_operand_shapes_valid(node@, 0, locals@, initialized@.to_set()),
    decreases node@, 0nat,
{
    let mut index: usize = 0;
    loop
        invariant
            index <= operands(node@).len(),
            flow_operand_shapes_valid(node@, 0, locals@, initialized@.to_set()) == flow_operand_shapes_valid(
                node@,
                index as nat,
                locals@,
                initialized@.to_set(),
            ),
        decreases operands(node@).len() - index,
    {
        match node.operand(index) {
            None => return Ok(()),
            Some(operand) => {
                proof {
                    lemma_operand_decreases(node@, index as int);
                }
                validate_flow_shape(operand, locals, initialized, false, false, true)?;
            },
        }
        index = index + 1;
    }
}

/// Refuses a tree that may not stand at a place of a body.
fn validate_flow_expression(
    node: &ClientExpressionNode,
    locals: &[ClientLocal],
    initialized: &Vec<LocalId>,
    allow_resource_root: bool,
    value_position: bool,
) -> (result: Result<(), ClientPlanError>)
    ensures
        result == flow_expression_valid(
            node@,
            locals@,
            initialized@.to_set(),
            allow_resource_root,
            value_position,
        ),
{
    validate_external_contract_placement(node, true)?;
    validate_flow_shape(node, locals, initialized, allow_resource_root, true, value_position)
}

/// Refuses a tree that may not be what a local receives.
fn validate_received(
    target: ClientLocal,
    node: &ClientExpressionNode,
    locals: &[ClientLocal],
    initialized: &Vec<LocalId>,
) -> (result: Result<(), ClientPlanError>)
    ensures
        result == flow_received_valid(target, node@, locals@, initialized@.to_set()),
{
    let value = match target.kind {
        ClientLocalKind::Value => true,
        ClientLocalKind::Resource(_) => false,
    };
    validate_flow_expression(node, locals, initialized, !value, value)?;
    let actual = denoted_resource_kind(node, locals);
    match (target.kind, actual) {
        (ClientLocalKind::Value, None) => Ok(()),
        (ClientLocalKind::Resource(expected), Some(kind)) if expected == kind => Ok(()),
        _ => Err(ClientPlanError::ControlFlowLocalKindMismatch(target.local)),
    }
}

/// Tells that checked lists of locals stand for what is known behind a part of
/// a body.
pub open spec fn checks(
    result: Result<(), ClientPlanError>,
    initialized: Seq<LocalId>,
    seen: Seq<LocalId>,
    valid: Result<FlowState, ClientPlanError>,
) -> bool {
    match valid {
        Ok(state) => {
            &&& result is Ok
            &&& initialized.to_set() == state.initialized
            &&& seen.to_set() == state.seen
        },
        Err(error) => result == Err::<(), ClientPlanError>(error),
    }
}

/// Refuses a block that breaks the rules.
fn validate_block(
    statements: &Vec<ControlFlowStatement>,
    levels: usize,
    locals: &[ClientLocal],
    initialized: &mut Vec<LocalId>,
    seen: &mut Vec<LocalId>,
) -> (result: Result<(), ClientPlanError>)
    ensures
        checks(
            result,
            final(initialized)@,
            final(seen)@,
            block_valid(
                block_of(statements@),
                levels as nat,
                locals@,
                (FlowState { initialized: old(initialized)@.to_set(), seen: old(seen)@.to_set() }),
            ),
        ),
    decreases levels, 0nat,
{
    if levels == 0 {
        return Err(ClientPlanError::ControlFlowBlockDepthExceeded);
    }
    proof {
        lemma_block_of(statements@);
    }
    if statements.len() > MAX_CONTROL_FLOW_STATEMENTS {
        return Err(ClientPlanError::ControlFlowStatementLimitExceeded { limit: MAX_CONTROL_FLOW_STATEMENTS });
    }
    let ghost list = block_of(statements@);
    let ghost entry = FlowState { initialized: initialized@.to_set(), seen: seen@.to_set() };
    let mut index: usize = 0;
    while index < statements.len()
        invariant
            levels > 0,
            index <= statements.len(),
            list == block_of(statements@),
            list.len() == statements.len(),
            entry == (FlowState { initialized: old(initialized)@.to_set(), seen: old(seen)@.to_set() }),
            block_valid(list, levels as nat, locals@, entry) == flow_statements_valid(
                list,
                index as nat,
                (levels - 1) as nat,
                locals@,
                FlowState { initialized: initialized@.to_set(), seen: seen@.to_set() },
            ),
        decreases statements.len() - index,
    {
        proof {
            lemma_block_of(statements@);
        }
        assert(list[index as int] == statements[index as int]@);
        validate_flow_statement(&statements[index], levels - 1, locals, initialized, seen)?;
        index = index + 1;
    }
    Ok(())
}

/// Refuses a statement that breaks the rules.
fn validate_flow_statement(
    statement: &ControlFlowStatement,
    levels: usize,
    locals: &[ClientLocal],
    initialized: &mut Vec<LocalId>,
    seen: &mut Vec<LocalId>,
) -> (result: Result<(), ClientPlanError>)
    ensures
        checks(
            result,
            final(initialized)@,
            final(seen)@,
            flow_statement_valid(
                statement@,
                levels as nat,
                locals@,
                (FlowState { initialized: old(initialized)@.to_set(), seen: old(seen)@.to_set() }),
            ),
        ),
    decreases levels, 2nat,
{
    proof {
        lemma_statement_keeps_initialized(
            statement@,
            levels as nat,
            locals@,
            FlowState { initialized: initialized@.to_set(), seen: seen@.to_set() },
        );
    }
    match statement {
        ControlFlowStatement::Let { local, expression } => {
            let target = match find_local(locals, *local) {
                Some(target) => target,
                None => return Err(ClientPlanError::UnknownControlFlowLocal(*local)),
            };
            if holds_local(seen, *local) {
                return Err(ClientPlanError::DuplicateControlFlowLet(*local));
            }
            validate_received(target, expression, locals, initialized)?;
            add_local(seen, *local);
            add_local(initialized, *local);
            Ok(())
        },
        ControlFlowStatement::Assignment { local, expression } => {
            let target = match find_local(locals, *local) {
                Some(target) => target,
                None => return Err(ClientPlanError::UnknownControlFlowLocal(*local)),
            };
            if !holds_local(initialized, *local) {
                return Err(ClientPlanError::ControlFlowAssignmentBeforeLet(*local));
            }
            validate_received(target, expression, locals, initialized)
        },
        ControlFlowStatement::Return(returned) => match &returned.expression {
            None => Ok(()),
            Some(expression) => validate_flow_expression(expression, locals, initialized, false, true),
        },
        ControlFlowStatement::If(conditional) => {
            proof {
                lemma_branches_of(conditional.branches@);
            }
            if conditional.branches.len() == 0 {
                return Err(ClientPlanError::InvalidControlFlowBranchCount { actual: 0 });
            }
            if conditional.branches.len() > MAX_CONTROL_FLOW_BRANCHES {
                return Err(ClientPlanError::ControlFlowBranchLimitExceeded { limit: MAX_CONTROL_FLOW_BRANCHES });
            }
            validate_branches(&conditional.branches, levels, locals, initialized, seen)?;
            if let Some(body) = &conditional.else_statements {
                let mut inside = vstd::slice::slice_to_vec(initialized.as_slice());
                validate_block(body, levels, locals, &mut inside, seen)?;
            }
            Ok(())
        },
        ControlFlowStatement::While(repeated) => {
            validate_flow_expression(&repeated.condition, locals, initialized, false, true)?;
            let mut inside = vstd::slice::slice_to_vec(initialized.as_slice());
            validate_block(&repeated.statements, levels, locals, &mut inside, seen)
        },
    }
}

/// Refuses branches that break the rules.
fn validate_branches(
    branches: &Vec<ControlFlowIfBranch>,
    levels: usize,
    locals: &[ClientLocal],
    incoming: &Vec<LocalId>,
    seen: &mut Vec<LocalId>,
) -> (result: Result<(), ClientPlanError>)
    ensures
        checks(
            result,
            incoming@,
            final(seen)@,
            branches_valid(
                branches_of(branches@),
                0,
                levels as nat,
                locals@,
                incoming@.to_set(),
                (FlowState { initialized: incoming@.to_set(), seen: old(seen)@.to_set() }),
            ),
        ),
    decreases levels, 1nat,
{
    let ghost list = branches_of(branches@);
    let ghost entry = FlowState { initialized: incoming@.to_set(), seen: seen@.to_set() };
    let mut index: usize = 0;
    while index < branches.len()
        invariant
            index <= branches.len(),
            list == branches_of(branches@),
            list.len() == branches.len(),
            entry == (FlowState { initialized: incoming@.to_set(), seen: old(seen)@.to_set() }),
            branches_valid(list, 0, levels as nat, locals@, incoming@.to_set(), entry) == branches_valid(
                list,
                index as nat,
                levels as nat,
                locals@,
                incoming@.to_set(),
                FlowState { initialized: incoming@.to_set(), seen: seen@.to_set() },
            ),
        decreases branches.len() - index,
    {
        proof {
            lemma_branches_of(branches@);
            law_block_keeps_initialized(
                list[index as int].body,
                levels as nat,
                locals@,
                FlowState { initialized: incoming@.to_set(), seen: seen@.to_set() },
            );
        }
        assert(list[index as int] == branches[index as int]@);
        validate_flow_expression(&branches[index].condition, locals, incoming, false, true)?;
        let mut inside = vstd::slice::slice_to_vec(incoming.as_slice());
        validate_block(&branches[index].statements, levels, locals, &mut inside, seen)?;
        assert(incoming@.to_set().intersect(inside@.to_set()) =~= incoming@.to_set());
        index = index + 1;
    }
    Ok(())
}

/// Refuses a programmable plan that breaks the rules.
pub fn validate_flow_model(locals: &Vec<ClientLocal>, statements: &Vec<ControlFlowStatement>) -> (result: Result<
    (),
    ClientPlanError,
>)
    ensures
        result == flow_model_valid((FlowPlan { locals: locals@, statements: block_of(statements@) })),
{
    proof {
        lemma_block_of(statements@);
    }
    if locals.len() > MAX_CONTROL_FLOW_LOCALS {
        return Err(ClientPlanError::ControlFlowLocalLimitExceeded { limit: MAX_CONTROL_FLOW_LOCALS });
    }
    if statements.len() > MAX_CONTROL_FLOW_STATEMENTS {
        return Err(ClientPlanError::ControlFlowStatementLimitExceeded { limit: MAX_CONTROL_FLOW_STATEMENTS });
    }
    let declared = locals.as_slice();
    validate_distinct_locals(declared, LocalRule::ControlFlow)?;
    let mut initialized: Vec<LocalId> = Vec::new();
    let mut seen: Vec<LocalId> = Vec::new();
    assert(initialized@.to_set() =~= Set::empty());
    assert(seen@.to_set() =~= Set::empty());
    validate_block(statements, BLOCK_LEVELS, declared, &mut initialized, &mut seen)?;
    match find_missing_local(declared, &seen) {
        Some(local) => Err(ClientPlanError::MissingControlFlowLet(local)),
        None => Ok(()),
    }
}

} // verus!
