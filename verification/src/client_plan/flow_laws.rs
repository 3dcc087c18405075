//! Which programmable plans are accepted.
//!
//! A local is known at a place of a body where a LET of it stands in front of
//! that place: as an earlier statement of the same block, or of a block around
//! it. What only a branch or a loop body initialises is known nowhere else. The
//! conditions are written out over the statements of a body and the node at every
//! path of their trees.

use vstd::prelude::*;

use crate::client_plan::control_flow::{
    decoded_flow_plan, encoded_flow_plan, flow_plan_bytes, law_flow_plan_canonical, FlowBranch, FlowPlan,
    FlowStatement,
};
use crate::client_plan::control_flow_codec::{
    block_admitted, branches_admitted, flow_statement_admitted, flow_statements_admitted, tree_admitted, FlowTally,
};
use crate::client_plan::control_flow_rules::{
    block_valid, branches_valid, flow_expression_valid, flow_operand_shapes_valid, flow_received_valid,
    flow_shape_valid, flow_statement_valid, flow_statements_valid, FlowState,
};
use crate::client_plan::error::ClientPlanError;
use crate::client_plan::expression::{lemma_operand_decreases, operands, Expression, InspectOperation};
use crate::client_plan::grammar::{admitted, all_admitted, Grammar, Tally};
use crate::client_plan::limit_laws::{
    block_levels, block_trees, branch_count, branch_ifs_bounded, branch_levels, branch_trees, counts_lead,
    ifs_bounded, inner_levels, lemma_block_bounded, nested_count, statement_count, statement_ifs_bounded,
    statement_levels, statement_trees, total_nodes, total_resources,
};
use crate::client_plan::local::{declaration, ClientLocal, ClientLocalKind};
use crate::client_plan::operation::action_valid;
use crate::client_plan::plan_laws::{
    branch_lets, held, lemma_block_lets, lemma_branches_lets, lemma_statement_lets, let_count, node_count,
    statement_lets, tree_levels,
};
use crate::client_plan::procedural_laws::{
    declares, declares_handle, declares_value, distinct_locals, law_declaration_found, law_repeated_local_found,
    lemma_missing, within_caps,
};
use crate::client_plan::tree_laws::{
    action_stands, children, contract_only_at_root, everywhere, law_action_arguments_accepted_exactly,
    law_argument_contracts_placed_exactly, law_contracts_placed_exactly, law_operands_are_children,
    law_operations_accepted_exactly, law_trees_admitted_exactly, lemma_everywhere, no_contract, node_at, of_set,
    resource_stands,
};
use crate::identity::LocalId;

verus! {

/// The rule of a node below the root of a tree: it is a value. It is no await and
/// no resource operation, no snapshot with options, reads only a known value
/// local, calls with at most 64 arguments, and as an action pins its target and
/// has ascending arguments without external contracts.
pub open spec fn flow_interior(locals: Seq<ClientLocal>, known: Set<LocalId>) -> spec_fn(Expression) -> bool {
    |node: Expression|
        match node {
            Expression::Await { .. } => false,
            Expression::Resource { .. } => false,
            Expression::Inspect { operation: InspectOperation::Snapshot { options: Some(_), .. } } => false,
            Expression::LocalRead { local } => known.contains(local) && declares_value(locals, local),
            Expression::Call { arguments, .. } => arguments.len() <= 64,
            Expression::Action { operation } => action_stands(operation) && forall|place: int|
                0 <= place < operation.arguments.len() ==> within_caps((#[trigger] operation.arguments[place]).1)
                    && everywhere(operation.arguments[place].1, no_contract()),
            _ => true,
        }
}

/// Tells whether everything that stands in a node is a value.
pub open spec fn flow_holds_values(expression: Expression, locals: Seq<ClientLocal>, known: Set<LocalId>) -> bool {
    forall|place: int|
        0 <= place < children(expression).len() ==> everywhere(
            #[trigger] children(expression)[place],
            flow_interior(locals, known),
        )
}

/// Tells whether a tree may stand at a place: a resource operation only where the
/// place takes one, an await over a resource operation or a known handle, a read
/// of a known local but of a handle only where the place takes one, and otherwise
/// a value.
pub open spec fn flow_shaped(
    expression: Expression,
    locals: Seq<ClientLocal>,
    known: Set<LocalId>,
    takes_resource: bool,
    takes_handle: bool,
) -> bool {
    match expression {
        Expression::Await { expression: awaited } => match *awaited {
            Expression::Resource { operation } => resource_stands(operation) && flow_holds_values(
                *awaited,
                locals,
                known,
            ),
            Expression::LocalRead { local } => known.contains(local) && declares_handle(locals, local),
            _ => false,
        },
        Expression::Resource { operation } => takes_resource && resource_stands(operation) && flow_holds_values(
            expression,
            locals,
            known,
        ),
        Expression::LocalRead { local } => known.contains(local) && (declares_value(locals, local) || (takes_handle
            && declares_handle(locals, local))),
        _ => flow_interior(locals, known)(expression) && flow_holds_values(expression, locals, known),
    }
}

/// Tells whether a tree may stand at a place, is bounded, and holds an external
/// contract at most at its root.
pub open spec fn flow_tree_stands(
    expression: Expression,
    locals: Seq<ClientLocal>,
    known: Set<LocalId>,
    takes_resource: bool,
    takes_handle: bool,
) -> bool {
    &&& flow_shaped(expression, locals, known, takes_resource, takes_handle)
    &&& contract_only_at_root(expression)
    &&& within_caps(expression)
}

/// An action is accepted exactly where it stands and its arguments are bounded
/// and hold no external contract.
proof fn lemma_action(expression: Expression)
    ensures
        expression matches Expression::Action { operation } ==> (action_valid(operation) is Ok <==> action_stands(
            operation,
        ) && forall|place: int|
            0 <= place < operation.arguments.len() ==> within_caps((#[trigger] operation.arguments[place]).1)
                && everywhere(operation.arguments[place].1, no_contract())),
{
    if let Expression::Action { operation } = expression {
        law_action_arguments_accepted_exactly(operation.arguments);
        law_argument_contracts_placed_exactly(operation.arguments, 0);
        let placed = forall|place: int|
            0 <= place < operation.arguments.len() ==> within_caps((#[trigger] operation.arguments[place]).1)
                && everywhere(operation.arguments[place].1, no_contract());
        let listed = forall|place: int|
            0 <= place < operation.arguments.len() ==> {
                &&& tree_levels((#[trigger] operation.arguments[place]).1) <= 65
                &&& node_count(operation.arguments[place].1) <= 1024
                &&& everywhere(operation.arguments[place].1, no_contract())
            };
        assert(placed <==> listed) by {
            if placed {
                assert forall|place: int| 0 <= place < operation.arguments.len() implies {
                    &&& tree_levels((#[trigger] operation.arguments[place]).1) <= 65
                    &&& node_count(operation.arguments[place].1) <= 1024
                    &&& everywhere(operation.arguments[place].1, no_contract())
                } by {
                    assert(within_caps(operation.arguments[place].1));
                }
            }
        }
    }
}

/// A tree below a root is accepted exactly where every node of it is a value.
proof fn lemma_flow_interior(expression: Expression, locals: Seq<ClientLocal>, known: Set<LocalId>)
    requires
        distinct_locals(locals),
    ensures
        flow_shape_valid(expression, locals, known, false, false, true) is Ok <==> everywhere(
            expression,
            flow_interior(locals, known),
        ),
    decreases expression, operands(expression).len() + 1,
{
    law_operands_are_children(expression);
    lemma_everywhere(expression, flow_interior(locals, known));
    lemma_flow_interior_operands(expression, 0, locals, known);
    lemma_action(expression);
    if let Expression::LocalRead { local } = expression {
        law_declaration_found(locals, local);
    }
}

/// The same of the operands from `index` on.
proof fn lemma_flow_interior_operands(
    expression: Expression,
    index: nat,
    locals: Seq<ClientLocal>,
    known: Set<LocalId>,
)
    requires
        distinct_locals(locals),
    ensures
        flow_operand_shapes_valid(expression, index, locals, known) is Ok <==> forall|place: int|
            index <= place < children(expression).len() ==> everywhere(
                #[trigger] children(expression)[place],
                flow_interior(locals, known),
            ),
    decreases expression, operands(expression).len() - index,
{
    law_operands_are_children(expression);
    if index < operands(expression).len() {
        lemma_operand_decreases(expression, index as int);
        lemma_flow_interior(children(expression)[index as int], locals, known);
        lemma_flow_interior_operands(expression, index + 1, locals, known);
    }
}

/// A tree is accepted at a place exactly where it may stand there.
pub proof fn law_flow_tree_accepted_exactly(
    expression: Expression,
    locals: Seq<ClientLocal>,
    known: Set<LocalId>,
    takes_resource: bool,
    takes_handle: bool,
)
    requires
        distinct_locals(locals),
    ensures
        flow_expression_valid(expression, locals, known, takes_resource, !takes_handle) is Ok <==> flow_tree_stands(
            expression,
            locals,
            known,
            takes_resource,
            takes_handle,
        ),
{
    lemma_flow_interior_operands(expression, 0, locals, known);
    lemma_action(expression);
    law_contracts_placed_exactly(expression, true);
    match expression {
        Expression::Await { expression: awaited } => {
            lemma_flow_interior_operands(*awaited, 0, locals, known);
            match *awaited {
                Expression::Resource { operation } => {
                    law_operations_accepted_exactly(operation, arbitrary());
                },
                Expression::LocalRead { local } => {
                    law_declaration_found(locals, local);
                },
                _ => {},
            }
        },
        Expression::Resource { operation } => {
            law_operations_accepted_exactly(operation, arbitrary());
        },
        Expression::LocalRead { local } => {
            law_declaration_found(locals, local);
            if declares(locals, local) {
                let place = choose|place: int| 0 <= place < locals.len() && (#[trigger] locals[place]).local == local;
                assert(locals[place].kind is Value || locals[place].kind is Resource);
            }
        },
        _ => {},
    }
    assert(flow_shape_valid(expression, locals, known, takes_resource, true, !takes_handle) is Ok <==> flow_shaped(
        expression,
        locals,
        known,
        takes_resource,
        takes_handle,
    ));
}

/// Tells whether what a tree gives fits a local: a value local takes no handle,
/// and a handle local only a handle of its kind.
pub open spec fn flow_fits(kind: ClientLocalKind, expression: Expression, locals: Seq<ClientLocal>) -> bool {
    match expression {
        Expression::Resource { operation } => kind == ClientLocalKind::Resource(operation.kind),
        Expression::LocalRead { local } => exists|place: int|
            0 <= place < locals.len() && (#[trigger] locals[place]).local == local && locals[place].kind == kind,
        _ => kind is Value,
    }
}

/// Tells whether a local is declared and may receive a tree.
pub open spec fn flow_receives(
    local: LocalId,
    expression: Expression,
    locals: Seq<ClientLocal>,
    known: Set<LocalId>,
) -> bool {
    exists|place: int| #![trigger locals[place]]
        0 <= place < locals.len() && locals[place].local == local && flow_fits(
            locals[place].kind,
            expression,
            locals,
        ) && flow_tree_stands(
            expression,
            locals,
            known,
            locals[place].kind is Resource,
            locals[place].kind is Resource,
        )
}

/// What a local receives is accepted exactly where the local is declared and may
/// receive it.
proof fn lemma_receives(local: LocalId, expression: Expression, locals: Seq<ClientLocal>, known: Set<LocalId>)
    requires
        distinct_locals(locals),
    ensures
        flow_receives(local, expression, locals, known) <==> (declaration(locals, local) matches Some(target)
            && flow_received_valid(target, expression, locals, known) is Ok),
{
    law_declaration_found(locals, local);
    if let Some(target) = declaration(locals, local) {
        let origin = choose|origin: int| 0 <= origin < locals.len() && (#[trigger] locals[origin]).local == local;
        assert(locals[origin] == target);
        law_flow_tree_accepted_exactly(expression, locals, known, target.kind is Resource, target.kind is Resource);
        if let Expression::LocalRead { local: read } = expression {
            law_declaration_found(locals, read);
            if let Some(source) = declaration(locals, read) {
                let spot = choose|spot: int| 0 <= spot < locals.len() && (#[trigger] locals[spot]).local == read;
                assert(locals[spot] == source);
                assert(source.kind.handle() == target.kind.handle() <==> source.kind == target.kind);
            }
        }
        assert(flow_received_valid(target, expression, locals, known) is Ok <==> flow_fits(
            target.kind,
            expression,
            locals,
        ) && flow_tree_stands(expression, locals, known, target.kind is Resource, target.kind is Resource));
    }
}

/// Tells whether a statement is the LET of a local.
pub open spec fn is_let_of(statement: FlowStatement, local: LocalId) -> bool {
    statement matches FlowStatement::Let { local: target, .. } && target == local
}

/// Tells whether a local has a LET among the statements of a block before `end`.
pub open spec fn let_in_front(statements: Seq<FlowStatement>, end: int, local: LocalId) -> bool {
    exists|place: int|
        0 <= place < end && place < statements.len() && is_let_of(#[trigger] statements[place], local)
}

/// The locals that are known in front of a statement of a block, where `outer`
/// are known in front of the block.
pub open spec fn known_at(statements: Seq<FlowStatement>, end: int, outer: Set<LocalId>) -> Set<LocalId> {
    Set::new(|local: LocalId| outer.contains(local) || let_in_front(statements, end, local))
}

/// Tells whether every statement of a block may stand at its place, where `outer`
/// are known in front of the block.
pub open spec fn body_stands(statements: Seq<FlowStatement>, locals: Seq<ClientLocal>, outer: Set<LocalId>) -> bool
    decreases statements, statements.len() + 1,
{
    rest_stands(statements, 0, locals, outer)
}

/// Tells whether every statement of a block from `index` on may stand at its
/// place.
pub open spec fn rest_stands(
    statements: Seq<FlowStatement>,
    index: nat,
    locals: Seq<ClientLocal>,
    outer: Set<LocalId>,
) -> bool
    decreases statements, statements.len() - index,
{
    index < statements.len() ==> {
        &&& flow_statement_stands(statements[index as int], locals, known_at(statements, index as int, outer))
        &&& rest_stands(statements, index + 1, locals, outer)
    }
}

/// Tells whether a statement may stand where some locals are known. The blocks of
/// a statement know what is known in front of it.
pub open spec fn flow_statement_stands(
    statement: FlowStatement,
    locals: Seq<ClientLocal>,
    known: Set<LocalId>,
) -> bool
    decreases statement, 0nat,
{
    match statement {
        FlowStatement::Let { local, expression } => flow_receives(local, expression, locals, known),
        FlowStatement::Assignment { local, expression } => known.contains(local) && flow_receives(
            local,
            expression,
            locals,
            known,
        ),
        FlowStatement::Return { expression: None } => true,
        FlowStatement::Return { expression: Some(expression) } => flow_tree_stands(
            expression,
            locals,
            known,
            false,
            false,
        ),
        FlowStatement::If { branches, otherwise } => branches_stand(branches, 0, locals, known) && match otherwise {
            Some(body) => body_stands(body, locals, known),
            None => true,
        },
        FlowStatement::While { condition, body } => flow_tree_stands(condition, locals, known, false, false)
            && body_stands(body, locals, known),
    }
}

/// Tells whether every branch from `index` on may stand where some locals are
/// known.
pub open spec fn branches_stand(
    branches: Seq<FlowBranch>,
    index: nat,
    locals: Seq<ClientLocal>,
    known: Set<LocalId>,
) -> bool
    decreases branches, branches.len() - index,
{
    index < branches.len() ==> {
        &&& flow_tree_stands(branches[index as int].condition, locals, known, false, false)
        &&& body_stands(branches[index as int].body, locals, known)
        &&& branches_stand(branches, index + 1, locals, known)
    }
}

/// Tells whether the statements from `index` on hold no LET that was seen before
/// and none twice.
spec fn lets_fresh(statements: Seq<FlowStatement>, index: nat, seen: Set<LocalId>) -> bool {
    forall|local: LocalId| #[trigger] held(seen, local) + let_count(statements, index, local) <= 1
}

/// The same of a statement.
spec fn statement_fresh(statement: FlowStatement, seen: Set<LocalId>) -> bool {
    forall|local: LocalId| #[trigger] held(seen, local) + statement_lets(statement, local) <= 1
}

/// The same of the branches from `index` on.
spec fn branches_fresh(branches: Seq<FlowBranch>, index: nat, seen: Set<LocalId>) -> bool {
    forall|local: LocalId| #[trigger] held(seen, local) + branch_lets(branches, index, local) <= 1
}

/// What is known behind a statement of a block is what was known in front of it
/// and the local of its LET.
proof fn lemma_known_behind(statements: Seq<FlowStatement>, place: int, outer: Set<LocalId>)
    requires
        0 <= place < statements.len(),
    ensures
        known_at(statements, place + 1, outer) == match statements[place] {
            FlowStatement::Let { local, .. } => known_at(statements, place, outer).insert(local),
            _ => known_at(statements, place, outer),
        },
{
    let next = known_at(statements, place + 1, outer);
    let before = known_at(statements, place, outer);
    let behind = match statements[place] {
        FlowStatement::Let { local, .. } => before.insert(local),
        _ => before,
    };
    assert forall|local: LocalId| next.contains(local) <==> behind.contains(local) by {
        if let_in_front(statements, place + 1, local) {
            let origin = choose|origin: int|
                0 <= origin < place + 1 && origin < statements.len() && is_let_of(
                    #[trigger] statements[origin],
                    local,
                );
            if origin < place {
                assert(let_in_front(statements, place, local));
            }
        }
        if let_in_front(statements, place, local) {
            let origin = choose|origin: int|
                0 <= origin < place && origin < statements.len() && is_let_of(#[trigger] statements[origin], local);
            assert(origin < place + 1 && is_let_of(statements[origin], local));
        }
        if is_let_of(statements[place], local) {
            assert(place < place + 1 && is_let_of(statements[place], local));
        }
    }
    assert(next =~= behind);
}

/// A block is accepted exactly where it keeps its limits, every statement may
/// stand at its place, and no LET is repeated. Behind it the locals are known
/// that were in front of it and those of its own LETs.
proof fn lemma_block(statements: Seq<FlowStatement>, levels: nat, locals: Seq<ClientLocal>, state: FlowState)
    requires
        distinct_locals(locals),
        statement_count(statements, 0) <= 256,
    ensures
        block_valid(statements, levels, locals, state) is Ok <==> {
            &&& block_levels(statements) <= levels
            &&& ifs_bounded(statements, 0)
            &&& body_stands(statements, locals, state.initialized)
            &&& lets_fresh(statements, 0, state.seen)
        },
        block_valid(statements, levels, locals, state) matches Ok(exit) ==> exit.initialized == known_at(
            statements,
            statements.len() as int,
            state.initialized,
        ),
    decreases levels, 0nat, 0nat,
{
    lemma_length_counted(statements, 0);
    assert(known_at(statements, 0, state.initialized) =~= state.initialized);
    if levels > 0 {
        lemma_rest(statements, 0, (levels - 1) as nat, locals, state, state.initialized);
    }
}

/// A block counts its own statements.
proof fn lemma_length_counted(statements: Seq<FlowStatement>, index: nat)
    requires
        index <= statements.len(),
    ensures
        statements.len() - index <= statement_count(statements, index),
    decreases statements.len() - index,
{
    if index < statements.len() {
        lemma_length_counted(statements, index + 1);
    }
}

/// The same of the statements from `index` on.
proof fn lemma_rest(
    statements: Seq<FlowStatement>,
    index: nat,
    levels: nat,
    locals: Seq<ClientLocal>,
    state: FlowState,
    outer: Set<LocalId>,
)
    requires
        index <= statements.len(),
        distinct_locals(locals),
        statement_count(statements, index) <= 256,
        state.initialized == known_at(statements, index as int, outer),
    ensures
        flow_statements_valid(statements, index, levels, locals, state) is Ok <==> {
            &&& inner_levels(statements, index) <= levels
            &&& ifs_bounded(statements, index)
            &&& rest_stands(statements, index, locals, outer)
            &&& lets_fresh(statements, index, state.seen)
        },
        flow_statements_valid(statements, index, levels, locals, state) matches Ok(exit) ==> exit.initialized
            == known_at(statements, statements.len() as int, outer),
    decreases levels, 3nat, statements.len() - index,
{
    if index < statements.len() {
        let statement = statements[index as int];
        lemma_statement(statement, levels, locals, state);
        lemma_statement_lets_all(statement, levels, locals, state);
        lemma_known_behind(statements, index as int, outer);
        if let Ok(next) = flow_statement_valid(statement, levels, locals, state) {
            lemma_rest(statements, index + 1, levels, locals, next, outer);
            assert forall|local: LocalId| #[trigger] held(next.seen, local) == held(state.seen, local) + statement_lets(
                statement,
                local,
            ) by {}
            if lets_fresh(statements, index, state.seen) {
                assert forall|local: LocalId| #[trigger] held(next.seen, local) + let_count(
                    statements,
                    index + 1,
                    local,
                ) <= 1 by {
                    assert(held(state.seen, local) + let_count(statements, index, local) <= 1);
                }
            }
            if lets_fresh(statements, index + 1, next.seen) {
                assert forall|local: LocalId| #[trigger] held(state.seen, local) + let_count(
                    statements,
                    index,
                    local,
                ) <= 1 by {
                    assert(held(next.seen, local) + let_count(statements, index + 1, local) <= 1);
                }
            }
        } else if lets_fresh(statements, index, state.seen) {
            assert forall|local: LocalId| #[trigger] held(state.seen, local) + statement_lets(statement, local) <= 1 by {
                assert(held(state.seen, local) + let_count(statements, index, local) <= 1);
            }
        }
    } else {
        assert(known_at(statements, index as int, outer) == known_at(statements, statements.len() as int, outer));
        assert forall|local: LocalId| #[trigger] held(state.seen, local) + let_count(statements, index, local) <= 1 by {}
    }
}

/// A valid statement adds one LET for every local that it adds to the seen ones.
proof fn lemma_statement_lets_all(statement: FlowStatement, levels: nat, locals: Seq<ClientLocal>, state: FlowState)
    ensures
        flow_statement_valid(statement, levels, locals, state) matches Ok(exit) ==> forall|local: LocalId|
            #[trigger] held(exit.seen, local) == held(state.seen, local) + statement_lets(statement, local),
{
    if let Ok(exit) = flow_statement_valid(statement, levels, locals, state) {
        assert forall|local: LocalId| #[trigger] held(exit.seen, local) == held(state.seen, local) + statement_lets(
            statement,
            local,
        ) by {
            lemma_statement_lets(statement, levels, locals, state, local);
        }
    }
}

/// A valid block adds one LET for every local that it adds to the seen ones.
proof fn lemma_block_lets_all(
    statements: Seq<FlowStatement>,
    levels: nat,
    locals: Seq<ClientLocal>,
    state: FlowState,
)
    ensures
        block_valid(statements, levels, locals, state) matches Ok(exit) ==> forall|local: LocalId|
            #[trigger] held(exit.seen, local) == held(state.seen, local) + let_count(statements, 0, local),
{
    if let Ok(exit) = block_valid(statements, levels, locals, state) {
        assert forall|local: LocalId| #[trigger] held(exit.seen, local) == held(state.seen, local) + let_count(
            statements,
            0,
            local,
        ) by {
            lemma_block_lets(statements, levels, locals, state, local);
        }
    }
}

/// What is known behind a block of those that were known in front of it.
proof fn lemma_block_keeps(statements: Seq<FlowStatement>, outer: Set<LocalId>)
    ensures
        outer.intersect(known_at(statements, statements.len() as int, outer)) == outer,
{
    assert(outer.intersect(known_at(statements, statements.len() as int, outer)) =~= outer);
}

/// The same of one statement.
#[verifier::rlimit(40)]
proof fn lemma_statement(statement: FlowStatement, levels: nat, locals: Seq<ClientLocal>, state: FlowState)
    requires
        distinct_locals(locals),
        nested_count(statement) <= 256,
    ensures
        flow_statement_valid(statement, levels, locals, state) is Ok <==> {
            &&& statement_levels(statement) <= levels
            &&& statement_ifs_bounded(statement)
            &&& flow_statement_stands(statement, locals, state.initialized)
            &&& statement_fresh(statement, state.seen)
        },
        flow_statement_valid(statement, levels, locals, state) matches Ok(exit) ==> exit.initialized
            == match statement {
            FlowStatement::Let { local, .. } => state.initialized.insert(local),
            _ => state.initialized,
        },
    decreases levels, 2nat, 0nat,
{
    let known = state.initialized;
    match statement {
        FlowStatement::Let { local, expression } => {
            lemma_receives(local, expression, locals, known);
            assert(statement_fresh(statement, state.seen) <==> !state.seen.contains(local)) by {
                assert(held(state.seen, local) + statement_lets(statement, local) <= 1 <==> !state.seen.contains(
                    local,
                ));
            }
        },
        FlowStatement::Assignment { local, expression } => {
            lemma_receives(local, expression, locals, known);
            assert(statement_fresh(statement, state.seen));
        },
        FlowStatement::Return { expression } => {
            if let Some(expression) = expression {
                law_flow_tree_accepted_exactly(expression, locals, known, false, false);
            }
            assert(statement_fresh(statement, state.seen));
        },
        FlowStatement::If { branches, otherwise } => {
            lemma_branches(branches, 0, levels, locals, state);
            let outcome = branches_valid(branches, 0, levels, locals, known, state);
            if let Ok(behind) = outcome {
                assert forall|local: LocalId| #[trigger] held(behind.seen, local) == held(state.seen, local)
                    + branch_lets(branches, 0, local) by {
                    lemma_branches_lets(branches, 0, levels, locals, known, state, local);
                }
                if let Some(body) = otherwise {
                    let entry = FlowState { initialized: known, seen: behind.seen };
                    lemma_block(body, levels, locals, entry);
                    lemma_block_keeps(body, known);
                    if statement_fresh(statement, state.seen) {
                        assert forall|local: LocalId| #[trigger] held(behind.seen, local) + let_count(
                            body,
                            0,
                            local,
                        ) <= 1 by {
                            assert(held(state.seen, local) + statement_lets(statement, local) <= 1);
                        }
                    }
                    if lets_fresh(body, 0, behind.seen) {
                        assert forall|local: LocalId| #[trigger] held(state.seen, local) + statement_lets(
                            statement,
                            local,
                        ) <= 1 by {
                            assert(held(behind.seen, local) + let_count(body, 0, local) <= 1);
                        }
                    }
                } else {
                    assert forall|local: LocalId| #[trigger] held(state.seen, local) + statement_lets(
                        statement,
                        local,
                    ) <= 1 by {
                        assert(held(behind.seen, local) <= 1);
                    }
                }
            } else if statement_fresh(statement, state.seen) {
                assert forall|local: LocalId| #[trigger] held(state.seen, local) + branch_lets(
                    branches,
                    0,
                    local,
                ) <= 1 by {
                    assert(held(state.seen, local) + statement_lets(statement, local) <= 1);
                }
            }
        },
        FlowStatement::While { condition, body } => {
            law_flow_tree_accepted_exactly(condition, locals, known, false, false);
            lemma_block(body, levels, locals, state);
            assert(statement_fresh(statement, state.seen) <==> lets_fresh(body, 0, state.seen)) by {
                if statement_fresh(statement, state.seen) {
                    assert forall|local: LocalId| #[trigger] held(state.seen, local) + let_count(body, 0, local)
                        <= 1 by {
                        assert(held(state.seen, local) + statement_lets(statement, local) <= 1);
                    }
                }
                if lets_fresh(body, 0, state.seen) {
                    assert forall|local: LocalId| #[trigger] held(state.seen, local) + statement_lets(
                        statement,
                        local,
                    ) <= 1 by {
                        assert(held(state.seen, local) + let_count(body, 0, local) <= 1);
                    }
                }
            }
        },
    }
}

/// The same of the branches from `index` on. They leave known what was known in
/// front of them.
#[verifier::rlimit(40)]
proof fn lemma_branches(
    branches: Seq<FlowBranch>,
    index: nat,
    levels: nat,
    locals: Seq<ClientLocal>,
    state: FlowState,
)
    requires
        distinct_locals(locals),
        branch_count(branches, index) <= 256,
    ensures
        branches_valid(branches, index, levels, locals, state.initialized, state) is Ok <==> {
            &&& branch_levels(branches, index) <= levels
            &&& branch_ifs_bounded(branches, index)
            &&& branches_stand(branches, index, locals, state.initialized)
            &&& branches_fresh(branches, index, state.seen)
        },
        branches_valid(branches, index, levels, locals, state.initialized, state) matches Ok(exit)
            ==> exit.initialized == state.initialized,
    decreases levels, 1nat, branches.len() - index,
{
    let known = state.initialized;
    if index < branches.len() {
        let branch = branches[index as int];
        let entry = FlowState { initialized: known, seen: state.seen };
        law_flow_tree_accepted_exactly(branch.condition, locals, known, false, false);
        lemma_block(branch.body, levels, locals, entry);
        lemma_block_lets_all(branch.body, levels, locals, entry);
        lemma_block_keeps(branch.body, known);
        if let Ok(exit) = block_valid(branch.body, levels, locals, entry) {
            let next = FlowState { initialized: known, seen: exit.seen };
            lemma_branches(branches, index + 1, levels, locals, next);
            if branches_fresh(branches, index, state.seen) {
                assert forall|local: LocalId| #[trigger] held(next.seen, local) + branch_lets(
                    branches,
                    index + 1,
                    local,
                ) <= 1 by {
                    assert(held(state.seen, local) + branch_lets(branches, index, local) <= 1);
                }
            }
            if branches_fresh(branches, index + 1, next.seen) {
                assert forall|local: LocalId| #[trigger] held(state.seen, local) + branch_lets(
                    branches,
                    index,
                    local,
                ) <= 1 by {
                    assert(held(next.seen, local) + branch_lets(branches, index + 1, local) <= 1);
                }
            }
        } else if branches_fresh(branches, index, state.seen) {
            assert forall|local: LocalId| #[trigger] held(entry.seen, local) + let_count(branch.body, 0, local)
                <= 1 by {
                assert(held(state.seen, local) + branch_lets(branches, index, local) <= 1);
            }
        }
    } else {
        assert forall|local: LocalId| #[trigger] held(state.seen, local) + branch_lets(branches, index, local)
            <= 1 by {}
    }
}

/// The trees of two joined lists are admitted as the first and then the second.
proof fn lemma_joined(first: Seq<Expression>, second: Seq<Expression>, index: nat, tally: Tally, set: Grammar)
    requires
        index <= first.len(),
    ensures
        all_admitted(first + second, index, 65, tally, set) == match all_admitted(first, index, 65, tally, set) {
            Err(error) => Err(error),
            Ok(between) => all_admitted(second, 0, 65, between, set),
        },
    decreases first.len() - index,
{
    if index < first.len() {
        assert((first + second)[index as int] == first[index as int]);
        if let Ok(next) = admitted(first[index as int], 65, tally, set) {
            lemma_joined(first, second, index + 1, next, set);
        }
    } else {
        lemma_second(first, second, 0, tally, set);
    }
}

/// Behind a first list, the trees of two joined lists are those of the second.
proof fn lemma_second(first: Seq<Expression>, second: Seq<Expression>, index: nat, tally: Tally, set: Grammar)
    ensures
        all_admitted(first + second, first.len() + index, 65, tally, set) == all_admitted(
            second,
            index,
            65,
            tally,
            set,
        ),
    decreases second.len() - index,
{
    if index < second.len() {
        assert((first + second)[(first.len() + index) as int] == second[index as int]);
        if let Ok(next) = admitted(second[index as int], 65, tally, set) {
            lemma_second(first, second, index + 1, next, set);
        }
    }
}

/// The node set of version 10: every node.
pub open spec fn flow_set() -> Grammar {
    Grammar { resources: true, locals: true, inspect: true, programmable: true }
}

/// One tree is a list of one.
proof fn lemma_one_tree(expression: Expression, tally: FlowTally)
    ensures
        tree_admitted(expression, tally) is Ok <==> all_admitted(seq![expression], 0, 65, tally.trees, flow_set()) is Ok,
        tree_admitted(expression, tally) matches Ok(behind) ==> behind.statements == tally.statements && all_admitted(
            seq![expression],
            0,
            65,
            tally.trees,
            flow_set(),
        ) == Ok::<Tally, ClientPlanError>(behind.trees),
{
    let set = flow_set();
    if let Ok(behind) = admitted(expression, 65, tally.trees, set) {
        assert(all_admitted(seq![expression], 1, 65, behind, set) == Ok::<Tally, ClientPlanError>(behind));
    }
    assert(seq![expression][0] == expression);
}

/// A block is admitted where it keeps its limits and its trees are admitted.
proof fn lemma_block_trees(statements: Seq<FlowStatement>, levels: nat, tally: FlowTally)
    requires
        block_levels(statements) <= levels,
        ifs_bounded(statements, 0),
        tally.statements + statement_count(statements, 0) <= 256,
        all_admitted(block_trees(statements, 0), 0, 65, tally.trees, flow_set()) is Ok,
    ensures
        block_admitted(statements, levels, tally) is Ok,
        counts_lead(
            block_trees(statements, 0),
            statement_count(statements, 0),
            tally,
            block_admitted(statements, levels, tally)->Ok_0,
        ),
    decreases levels, 0nat, 0nat,
{
    lemma_length_counted(statements, 0);
    lemma_rest_trees(statements, 0, (levels - 1) as nat, tally);
}

/// The same of the statements from `index` on.
proof fn lemma_rest_trees(statements: Seq<FlowStatement>, index: nat, levels: nat, tally: FlowTally)
    requires
        inner_levels(statements, index) <= levels,
        ifs_bounded(statements, index),
        tally.statements + statement_count(statements, index) <= 256,
        all_admitted(block_trees(statements, index), 0, 65, tally.trees, flow_set()) is Ok,
    ensures
        flow_statements_admitted(statements, index, levels, tally) is Ok,
        counts_lead(
            block_trees(statements, index),
            statement_count(statements, index),
            tally,
            flow_statements_admitted(statements, index, levels, tally)->Ok_0,
        ),
    decreases levels, 3nat, statements.len() - index,
{
    if index < statements.len() {
        let statement = statements[index as int];
        lemma_joined(
            statement_trees(statement),
            block_trees(statements, index + 1),
            0,
            tally.trees,
            flow_set(),
        );
        lemma_statement_trees(statement, levels, tally.with_statement());
        let between = flow_statement_admitted(statement, levels, tally.with_statement())->Ok_0;
        lemma_rest_trees(statements, index + 1, levels, between);
    }
}

/// The same of one counted statement.
proof fn lemma_statement_trees(statement: FlowStatement, levels: nat, tally: FlowTally)
    requires
        statement_levels(statement) <= levels,
        statement_ifs_bounded(statement),
        tally.statements + nested_count(statement) <= 256,
        all_admitted(statement_trees(statement), 0, 65, tally.trees, flow_set()) is Ok,
    ensures
        flow_statement_admitted(statement, levels, tally) is Ok,
        counts_lead(
            statement_trees(statement),
            nested_count(statement),
            tally,
            flow_statement_admitted(statement, levels, tally)->Ok_0,
        ),
    decreases levels, 2nat, 0nat,
{
    match statement {
        FlowStatement::Let { expression, .. } => {
            lemma_one_tree(expression, tally);
        },
        FlowStatement::Assignment { expression, .. } => {
            lemma_one_tree(expression, tally);
        },
        FlowStatement::Return { expression } => {
            if let Some(expression) = expression {
                lemma_one_tree(expression, tally);
            }
        },
        FlowStatement::If { branches, otherwise } => {
            let body = match otherwise {
                Some(body) => block_trees(body, 0),
                None => Seq::empty(),
            };
            lemma_joined(branch_trees(branches, 0), body, 0, tally.trees, flow_set());
            lemma_branch_trees(branches, 0, levels, tally);
            let between = branches_admitted(branches, 0, levels, tally)->Ok_0;
            if let Some(body) = otherwise {
                lemma_block_trees(body, levels, between);
            }
        },
        FlowStatement::While { condition, body } => {
            lemma_one_tree(condition, tally);
            lemma_joined(seq![condition], block_trees(body, 0), 0, tally.trees, flow_set());
            let between = tree_admitted(condition, tally)->Ok_0;
            lemma_block_trees(body, levels, between);
        },
    }
}

/// The same of the branches from `index` on.
proof fn lemma_branch_trees(branches: Seq<FlowBranch>, index: nat, levels: nat, tally: FlowTally)
    requires
        branch_levels(branches, index) <= levels,
        branch_ifs_bounded(branches, index),
        tally.statements + branch_count(branches, index) <= 256,
        all_admitted(branch_trees(branches, index), 0, 65, tally.trees, flow_set()) is Ok,
    ensures
        branches_admitted(branches, index, levels, tally) is Ok,
        counts_lead(
            branch_trees(branches, index),
            branch_count(branches, index),
            tally,
            branches_admitted(branches, index, levels, tally)->Ok_0,
        ),
    decreases levels, 1nat, branches.len() - index,
{
    if index < branches.len() {
        let branch = branches[index as int];
        let body = block_trees(branch.body, 0);
        let later = branch_trees(branches, index + 1);
        lemma_joined(seq![branch.condition] + body, later, 0, tally.trees, flow_set());
        lemma_joined(seq![branch.condition], body, 0, tally.trees, flow_set());
        lemma_one_tree(branch.condition, tally);
        let entry = tree_admitted(branch.condition, tally)->Ok_0;
        lemma_block_trees(branch.body, levels, entry);
        let between = block_admitted(branch.body, levels, entry)->Ok_0;
        lemma_branch_trees(branches, index + 1, levels, between);
    }
}

/// Tells whether a programmable plan is one that version 10 carries.
pub open spec fn flow_stands(plan: FlowPlan) -> bool {
    &&& plan.locals.len() <= 64
    &&& distinct_locals(plan.locals)
    &&& statement_count(plan.statements, 0) <= 256
    &&& block_levels(plan.statements) <= 65
    &&& ifs_bounded(plan.statements, 0)
    &&& forall|place: int|
        0 <= place < plan.locals.len() ==> let_count(plan.statements, 0, (#[trigger] plan.locals[place]).local) == 1
    &&& body_stands(plan.statements, plan.locals, Set::empty())
    &&& forall|place: int|
        0 <= place < block_trees(plan.statements, 0).len() ==> tree_levels(
            #[trigger] block_trees(plan.statements, 0)[place],
        ) <= 65 && everywhere(block_trees(plan.statements, 0)[place], of_set(flow_set()))
    &&& total_nodes(block_trees(plan.statements, 0), 0) <= 1024
    &&& total_resources(block_trees(plan.statements, 0), 0) <= 64
}

/// A LET in a body that stands is of a declared local.
proof fn lemma_lets_declared(
    statements: Seq<FlowStatement>,
    index: nat,
    locals: Seq<ClientLocal>,
    outer: Set<LocalId>,
    local: LocalId,
)
    requires
        rest_stands(statements, index, locals, outer),
        let_count(statements, index, local) > 0,
    ensures
        declares(locals, local),
    decreases statements, statements.len() - index,
{
    if index < statements.len() {
        if statement_lets(statements[index as int], local) > 0 {
            lemma_statement_let_declared(
                statements[index as int],
                locals,
                known_at(statements, index as int, outer),
                local,
            );
        } else {
            lemma_lets_declared(statements, index + 1, locals, outer, local);
        }
    }
}

/// The same of a statement.
proof fn lemma_statement_let_declared(
    statement: FlowStatement,
    locals: Seq<ClientLocal>,
    known: Set<LocalId>,
    local: LocalId,
)
    requires
        flow_statement_stands(statement, locals, known),
        statement_lets(statement, local) > 0,
    ensures
        declares(locals, local),
    decreases statement, 0nat,
{
    match statement {
        FlowStatement::If { branches, otherwise } => {
            if branch_lets(branches, 0, local) > 0 {
                lemma_branch_let_declared(branches, 0, locals, known, local);
            } else if let Some(body) = otherwise {
                lemma_lets_declared(body, 0, locals, known, local);
            }
        },
        FlowStatement::While { body, .. } => {
            lemma_lets_declared(body, 0, locals, known, local);
        },
        _ => {},
    }
}

/// The same of the branches from `index` on.
proof fn lemma_branch_let_declared(
    branches: Seq<FlowBranch>,
    index: nat,
    locals: Seq<ClientLocal>,
    known: Set<LocalId>,
    local: LocalId,
)
    requires
        branches_stand(branches, index, locals, known),
        branch_lets(branches, index, local) > 0,
    ensures
        declares(locals, local),
    decreases branches, branches.len() - index,
{
    if index < branches.len() {
        if let_count(branches[index as int].body, 0, local) > 0 {
            assert(body_stands(branches[index as int].body, locals, known));
            lemma_lets_declared(branches[index as int].body, 0, locals, known, local);
        } else {
            lemma_branch_let_declared(branches, index + 1, locals, known, local);
        }
    }
}

/// A programmable plan is encoded exactly where it is one that version 10 carries
/// and its artefact keeps the size limit.
pub proof fn law_flow_plan_accepted_exactly(plan: FlowPlan)
    ensures
        encoded_flow_plan(plan) is Ok <==> flow_stands(plan) && flow_plan_bytes(plan).len() <= 0x100_0000,
{
    let statements = plan.statements;
    let locals = plan.locals;
    let entry = FlowState { initialized: Set::empty(), seen: Set::empty() };
    let trees = block_trees(statements, 0);
    law_repeated_local_found(locals);
    law_trees_admitted_exactly(trees, 0, 65, Tally::zero(), flow_set());
    lemma_length_counted(statements, 0);
    if encoded_flow_plan(plan) is Ok {
        lemma_block_bounded(statements, 65, FlowTally::zero());
        lemma_block(statements, 65, locals, entry);
        let exit = block_valid(statements, 65, locals, entry)->Ok_0;
        lemma_missing(locals, 0, exit.seen);
        assert forall|place: int| 0 <= place < locals.len() implies let_count(
            statements,
            0,
            (#[trigger] locals[place]).local,
        ) == 1 by {
            lemma_block_lets(statements, 65, locals, entry, locals[place].local);
        }
    }
    if flow_stands(plan) {
        assert forall|local: LocalId| #[trigger] held(entry.seen, local) + let_count(statements, 0, local) <= 1 by {
            if let_count(statements, 0, local) > 0 {
                lemma_lets_declared(statements, 0, locals, Set::empty(), local);
                let place = choose|place: int| 0 <= place < locals.len() && (#[trigger] locals[place]).local == local;
                assert(locals[place].local == local);
            }
        }
        lemma_block(statements, 65, locals, entry);
        let exit = block_valid(statements, 65, locals, entry)->Ok_0;
        assert forall|place: int| 0 <= place < locals.len() implies exit.seen.contains(
            (#[trigger] locals[place]).local,
        ) by {
            lemma_block_lets(statements, 65, locals, entry, locals[place].local);
        }
        lemma_missing(locals, 0, exit.seen);
        lemma_block_trees(statements, 65, FlowTally::zero());
    }
}

/// The block of a statement that a place lies in.
pub enum Turn {
    /// The body of a branch of an IF.
    Branch(int),
    /// The ELSE body of an IF.
    Otherwise,
    /// The body of a WHILE.
    Body,
}

/// One step into a body: to a statement of the block, and into one of the blocks
/// of that statement.
pub struct Step {
    /// The place of the statement.
    pub place: int,
    /// The block that is entered.
    pub turn: Turn,
}

/// The block of a statement.
pub open spec fn inner_block(statement: FlowStatement, turn: Turn) -> Option<Seq<FlowStatement>> {
    match (statement, turn) {
        (FlowStatement::If { branches, .. }, Turn::Branch(branch)) => if 0 <= branch < branches.len() {
            Some(branches[branch].body)
        } else {
            None
        },
        (FlowStatement::If { otherwise, .. }, Turn::Otherwise) => otherwise,
        (FlowStatement::While { body, .. }, Turn::Body) => Some(body),
        _ => None,
    }
}

/// The block that some steps lead to.
pub open spec fn block_at(statements: Seq<FlowStatement>, steps: Seq<Step>) -> Option<Seq<FlowStatement>>
    decreases steps.len(),
{
    if steps.len() == 0 {
        Some(statements)
    } else if 0 <= steps[0].place < statements.len() {
        match inner_block(statements[steps[0].place], steps[0].turn) {
            Some(inner) => block_at(inner, steps.drop_first()),
            None => None,
        }
    } else {
        None
    }
}

/// Tells whether a LET of a local stands in front of a place: as an earlier
/// statement of the block that the steps lead to, or in front of one of the
/// statements around it.
pub open spec fn let_dominates(statements: Seq<FlowStatement>, steps: Seq<Step>, place: int, local: LocalId) -> bool
    decreases steps.len(),
{
    if steps.len() == 0 {
        let_in_front(statements, place, local)
    } else {
        ||| let_in_front(statements, steps[0].place, local)
        ||| let_dominates(
            inner_block(statements[steps[0].place], steps[0].turn)->Some_0,
            steps.drop_first(),
            place,
            local,
        )
    }
}

/// Tells whether a tree stands in a statement itself, apart from its blocks.
pub open spec fn own_tree(statement: FlowStatement, tree: Expression) -> bool {
    match statement {
        FlowStatement::Let { expression, .. } => tree == expression,
        FlowStatement::Assignment { expression, .. } => tree == expression,
        FlowStatement::Return { expression } => expression == Some(tree),
        FlowStatement::If { branches, .. } => exists|branch: int|
            0 <= branch < branches.len() && (#[trigger] branches[branch]).condition == tree,
        FlowStatement::While { condition, .. } => tree == condition,
    }
}

/// A statement of a block that stands may stand at its place.
proof fn lemma_stands_at(
    statements: Seq<FlowStatement>,
    index: nat,
    locals: Seq<ClientLocal>,
    outer: Set<LocalId>,
    place: int,
)
    requires
        rest_stands(statements, index, locals, outer),
        index <= place < statements.len(),
    ensures
        flow_statement_stands(statements[place], locals, known_at(statements, place, outer)),
    decreases place - index,
{
    if index < place {
        lemma_stands_at(statements, index + 1, locals, outer, place);
    }
}

/// A branch of branches that stand may stand.
proof fn lemma_branch_stands_at(
    branches: Seq<FlowBranch>,
    index: nat,
    locals: Seq<ClientLocal>,
    known: Set<LocalId>,
    place: int,
)
    requires
        branches_stand(branches, index, locals, known),
        index <= place < branches.len(),
    ensures
        flow_tree_stands(branches[place].condition, locals, known, false, false),
        body_stands(branches[place].body, locals, known),
    decreases place - index,
{
    if index < place {
        lemma_branch_stands_at(branches, index + 1, locals, known, place);
    }
}

/// A read in a tree that may stand at a place is of a known, declared local.
proof fn lemma_read_known(
    expression: Expression,
    locals: Seq<ClientLocal>,
    known: Set<LocalId>,
    takes_resource: bool,
    takes_handle: bool,
    path: Seq<int>,
    local: LocalId,
)
    requires
        flow_shaped(expression, locals, known, takes_resource, takes_handle),
        node_at(expression, path) == Some(Expression::LocalRead { local }),
    ensures
        known.contains(local),
        declares(locals, local),
{
    let rule = flow_interior(locals, known);
    let read = Expression::LocalRead { local };
    if path.len() > 0 {
        let inner = path.drop_first();
        let child = children(expression)[path[0]];
        assert(node_at(child, inner) == Some(read));
        match expression {
            Expression::Await { expression: awaited } => {
                assert(child == *awaited);
                if inner.len() > 0 {
                    let argument = children(child)[inner[0]];
                    assert(node_at(argument, inner.drop_first()) == Some(read));
                    assert(everywhere(argument, rule));
                    assert(rule(read));
                }
            },
            _ => {
                assert(everywhere(child, rule));
                assert(rule(read));
            },
        }
    }
    if declares_value(locals, local) {
        let place = choose|place: int|
            0 <= place < locals.len() && (#[trigger] locals[place]).local == local && locals[place].kind is Value;
        assert(locals[place].local == local);
    }
    if declares_handle(locals, local) {
        let place = choose|place: int|
            0 <= place < locals.len() && (#[trigger] locals[place]).local == local && locals[place].kind is Resource;
        assert(locals[place].local == local);
    }
}

/// A read in a statement that may stand is of a known, declared local.
proof fn lemma_statement_reads(
    statement: FlowStatement,
    locals: Seq<ClientLocal>,
    known: Set<LocalId>,
    tree: Expression,
    path: Seq<int>,
    local: LocalId,
)
    requires
        flow_statement_stands(statement, locals, known),
        own_tree(statement, tree),
        node_at(tree, path) == Some(Expression::LocalRead { local }),
    ensures
        known.contains(local),
        declares(locals, local),
{
    match statement {
        FlowStatement::Let { local: target, expression } => {
            let place = choose|place: int| #![trigger locals[place]]
                0 <= place < locals.len() && locals[place].local == target && flow_fits(
                    locals[place].kind,
                    expression,
                    locals,
                ) && flow_tree_stands(
                    expression,
                    locals,
                    known,
                    locals[place].kind is Resource,
                    locals[place].kind is Resource,
                );
            let handle = locals[place].kind is Resource;
            lemma_read_known(tree, locals, known, handle, handle, path, local);
        },
        FlowStatement::Assignment { local: target, expression } => {
            let place = choose|place: int| #![trigger locals[place]]
                0 <= place < locals.len() && locals[place].local == target && flow_fits(
                    locals[place].kind,
                    expression,
                    locals,
                ) && flow_tree_stands(
                    expression,
                    locals,
                    known,
                    locals[place].kind is Resource,
                    locals[place].kind is Resource,
                );
            let handle = locals[place].kind is Resource;
            lemma_read_known(tree, locals, known, handle, handle, path, local);
        },
        FlowStatement::Return { .. } => {
            lemma_read_known(tree, locals, known, false, false, path, local);
        },
        FlowStatement::If { branches, .. } => {
            let branch = choose|branch: int|
                0 <= branch < branches.len() && (#[trigger] branches[branch]).condition == tree;
            lemma_branch_stands_at(branches, 0, locals, known, branch);
            lemma_read_known(tree, locals, known, false, false, path, local);
        },
        FlowStatement::While { .. } => {
            lemma_read_known(tree, locals, known, false, false, path, local);
        },
    }
}

/// Every statement of a body that stands may stand where the locals are known
/// that have a LET in front of it.
proof fn lemma_place_stands(
    statements: Seq<FlowStatement>,
    locals: Seq<ClientLocal>,
    outer: Set<LocalId>,
    steps: Seq<Step>,
    place: int,
) -> (known: Set<LocalId>)
    requires
        body_stands(statements, locals, outer),
        block_at(statements, steps) is Some,
        0 <= place < block_at(statements, steps)->Some_0.len(),
    ensures
        flow_statement_stands(block_at(statements, steps)->Some_0[place], locals, known),
        forall|local: LocalId| #[trigger]
            known.contains(local) ==> outer.contains(local) || let_dominates(statements, steps, place, local),
    decreases steps.len(),
{
    if steps.len() == 0 {
        lemma_stands_at(statements, 0, locals, outer, place);
        known_at(statements, place, outer)
    } else {
        let step = steps[0];
        let statement = statements[step.place];
        let around = known_at(statements, step.place, outer);
        let inner = inner_block(statement, step.turn)->Some_0;
        lemma_stands_at(statements, 0, locals, outer, step.place);
        if let Turn::Branch(branch) = step.turn {
            if let FlowStatement::If { branches, .. } = statement {
                lemma_branch_stands_at(branches, 0, locals, around, branch);
            }
        }
        lemma_place_stands(inner, locals, around, steps.drop_first(), place)
    }
}

/// Every local that an accepted programmable plan reads, anywhere in its body and
/// at any depth of a tree, the operand of an await included, is declared, and a
/// LET of it stands in front of the reading statement: earlier in the same block
/// or in front of a statement around it.
pub proof fn law_flow_reads_initialized(
    plan: FlowPlan,
    steps: Seq<Step>,
    place: int,
    tree: Expression,
    path: Seq<int>,
    local: LocalId,
)
    requires
        encoded_flow_plan(plan) is Ok,
        block_at(plan.statements, steps) is Some,
        0 <= place < block_at(plan.statements, steps)->Some_0.len(),
        own_tree(block_at(plan.statements, steps)->Some_0[place], tree),
        node_at(tree, path) == Some(Expression::LocalRead { local }),
    ensures
        declares(plan.locals, local),
        let_dominates(plan.statements, steps, place, local),
{
    law_flow_plan_accepted_exactly(plan);
    let known = lemma_place_stands(plan.statements, plan.locals, Set::empty(), steps, place);
    lemma_statement_reads(block_at(plan.statements, steps)->Some_0[place], plan.locals, known, tree, path, local);
}

/// Every assignment of an accepted programmable plan, anywhere in its body, is to
/// a local with a LET in front of it.
pub proof fn law_flow_assignments_initialized(
    plan: FlowPlan,
    steps: Seq<Step>,
    place: int,
    local: LocalId,
    expression: Expression,
)
    requires
        encoded_flow_plan(plan) is Ok,
        block_at(plan.statements, steps) is Some,
        0 <= place < block_at(plan.statements, steps)->Some_0.len(),
        block_at(plan.statements, steps)->Some_0[place] == (FlowStatement::Assignment { local, expression }),
    ensures
        let_dominates(plan.statements, steps, place, local),
{
    law_flow_plan_accepted_exactly(plan);
    let known = lemma_place_stands(plan.statements, plan.locals, Set::empty(), steps, place);
    assert(known.contains(local));
}

/// A decoded programmable plan is one that version 10 carries, and every local
/// that it reads anywhere has a LET in front of the reading statement.
pub proof fn law_decoded_flow_reads_initialized(
    bytes: Seq<u8>,
    steps: Seq<Step>,
    place: int,
    tree: Expression,
    path: Seq<int>,
    local: LocalId,
)
    requires
        decoded_flow_plan(bytes) is Ok,
    ensures
        flow_stands(decoded_flow_plan(bytes)->Ok_0),
        ({
            let plan = decoded_flow_plan(bytes)->Ok_0;
            block_at(plan.statements, steps) is Some && 0 <= place < block_at(plan.statements, steps)->Some_0.len()
                && own_tree(block_at(plan.statements, steps)->Some_0[place], tree) && node_at(tree, path) == Some(
                Expression::LocalRead { local },
            ) ==> declares(plan.locals, local) && let_dominates(plan.statements, steps, place, local)
        }),
{
    let plan = decoded_flow_plan(bytes)->Ok_0;
    law_flow_plan_canonical(bytes);
    law_flow_plan_accepted_exactly(plan);
    if block_at(plan.statements, steps) is Some && 0 <= place < block_at(plan.statements, steps)->Some_0.len()
        && own_tree(block_at(plan.statements, steps)->Some_0[place], tree) && node_at(tree, path) == Some(
        Expression::LocalRead { local },
    ) {
        law_flow_reads_initialized(plan, steps, place, tree, path, local);
    }
}

} // verus!
