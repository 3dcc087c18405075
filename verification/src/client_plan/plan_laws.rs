//! What a decoded plan can be relied on for.
//!
//! Admitted trees are bounded and keep the node set of their version, identities
//! that have to be distinct are, and every declared local has exactly one LET.
//! [`limit_laws`](crate::client_plan::limit_laws) bounds the plans of the other
//! versions.

use vstd::prelude::*;
use vstd::utf8::encode_utf8;

use crate::client_plan::action::encoded_action_plan;
use crate::client_plan::capability::{
    decoded_capability_plan, encoded_inner_plan, law_capability_plan_canonical, requirement_refusal,
    requirements_refusal, Requirement,
};
use crate::client_plan::control_flow::{encoded_flow_plan, FlowBranch, FlowPlan, FlowStatement};
use crate::client_plan::control_flow_codec::BLOCK_LEVELS;
use crate::client_plan::control_flow_rules::{
    block_valid, branches_valid, flow_statement_valid, flow_statements_valid, FlowState,
};
use crate::client_plan::expression::{
    argument_values, contains_inspect, lemma_operand_decreases, operands, ActionOperation, Expression,
};
use crate::client_plan::expression_plan::{
    decoded_expression_plan, expression_operation, expression_version, law_expression_plan_canonical,
};
use crate::client_plan::grammar::{
    admitted, all_admitted, encoded_operands, node_tally, operand_grammar, Grammar, Tally,
};
use crate::client_plan::header::{declared_version, lemma_header};
use crate::client_plan::local::{missing_local, repeated_local, ClientLocal};
use crate::client_plan::node_encode::node_bytes;
use crate::client_plan::operation::{
    action_arguments_refusal, argument_refusal, lemma_action_arguments_keep, previous_parameter, ArgumentRule,
};
use crate::client_plan::placement::EXPRESSION_LEVELS;
use crate::client_plan::procedural::{encoded_procedural_plan, ProceduralPlan, Statement};
use crate::client_plan::procedural_rules::{repeated_let, statements_valid};
use crate::client_plan::state::{encoded_state_plan, repeated_slot, slot_seen, Slot, StatePlan};
use crate::client_plan::{
    INSPECT_FORMAT_VERSION, MAX_CAPABILITY_ARGUMENT_LENGTH, MAX_CAPABILITY_NAME_LENGTH, MAX_CAPABILITY_REQUIREMENTS,
    MAX_CONTROL_FLOW_STATEMENTS, MAX_EXPRESSION_NODES, MAX_STATE_SLOTS,
};
use crate::identity::{LocalId, ParameterId};

verus! {

/// The number of nodes of a tree.
pub open spec fn node_count(expression: Expression) -> nat
    decreases expression, operands(expression).len() + 1,
{
    1 + operand_nodes(expression, 0)
}

/// The number of nodes of the operands from `index` on.
pub open spec fn operand_nodes(expression: Expression, index: nat) -> nat
    decreases expression, operands(expression).len() - index,
{
    if index < operands(expression).len() {
        proof {
            lemma_operand_decreases(expression, index as int);
        }
        node_count(operands(expression)[index as int]) + operand_nodes(expression, index + 1)
    } else {
        0
    }
}

/// The number of levels of a tree.
pub open spec fn tree_levels(expression: Expression) -> nat
    decreases expression, operands(expression).len() + 1,
{
    1 + operand_levels(expression, 0)
}

/// The number of levels of the deepest operand from `index` on.
pub open spec fn operand_levels(expression: Expression, index: nat) -> nat
    decreases expression, operands(expression).len() - index,
{
    if index < operands(expression).len() {
        proof {
            lemma_operand_decreases(expression, index as int);
        }
        let operand = tree_levels(operands(expression)[index as int]);
        let later = operand_levels(expression, index + 1);
        if operand > later {
            operand
        } else {
            later
        }
    } else {
        0
    }
}

/// Tells whether a node set holds a node, apart from its operands.
pub open spec fn node_within(expression: Expression, grammar: Grammar) -> bool {
    match expression {
        Expression::Await { .. } | Expression::Resource { .. } => grammar.resources,
        Expression::LocalRead { .. } => grammar.locals,
        Expression::Inspect { .. } => grammar.inspect,
        Expression::Action { .. } | Expression::Unary { .. } | Expression::Binary { .. } => grammar.programmable,
        _ => true,
    }
}

/// Tells whether a node set holds every node of a tree.
pub open spec fn tree_within(expression: Expression, grammar: Grammar) -> bool
    decreases expression, operands(expression).len() + 1,
{
    node_within(expression, grammar) && operands_within(expression, 0, operand_grammar(expression, grammar))
}

/// Tells whether a node set holds every node of the operands from `index` on.
pub open spec fn operands_within(expression: Expression, index: nat, grammar: Grammar) -> bool
    decreases expression, operands(expression).len() - index,
{
    if index < operands(expression).len() {
        proof {
            lemma_operand_decreases(expression, index as int);
        }
        tree_within(operands(expression)[index as int], grammar) && operands_within(expression, index + 1, grammar)
    } else {
        true
    }
}

/// An admitted tree has no more levels than it may have, is counted node by
/// node within the limit, and holds only nodes of its set.
pub proof fn law_admitted_tree_bounded(expression: Expression, levels: nat, tally: Tally, grammar: Grammar)
    requires
        admitted(expression, levels, tally, grammar) is Ok,
    ensures
        tree_levels(expression) <= levels,
        tree_within(expression, grammar),
        admitted(expression, levels, tally, grammar)->Ok_0.nodes == tally.nodes + node_count(expression),
        tally.nodes + node_count(expression) <= MAX_EXPRESSION_NODES,
    decreases levels, 0nat,
{
    assert(encoded_operands(expression) =~= operands(expression));
    lemma_operands_bounded(
        expression,
        0,
        (levels - 1) as nat,
        node_tally(expression, tally),
        operand_grammar(expression, grammar),
    );
}

/// The same of the operands from `index` on.
proof fn lemma_operands_bounded(expression: Expression, index: nat, levels: nat, tally: Tally, grammar: Grammar)
    requires
        all_admitted(operands(expression), index, levels, tally, grammar) is Ok,
        tally.nodes <= MAX_EXPRESSION_NODES,
    ensures
        operand_levels(expression, index) <= levels,
        operands_within(expression, index, grammar),
        all_admitted(operands(expression), index, levels, tally, grammar)->Ok_0.nodes == tally.nodes + operand_nodes(
            expression,
            index,
        ),
        tally.nodes + operand_nodes(expression, index) <= MAX_EXPRESSION_NODES,
    decreases levels, 1 + operands(expression).len() - index,
{
    if index < operands(expression).len() {
        let operand = operands(expression)[index as int];
        law_admitted_tree_bounded(operand, levels, tally, grammar);
        let behind = admitted(operand, levels, tally, grammar)->Ok_0;
        lemma_operands_bounded(expression, index + 1, levels, behind, grammar);
    }
}

/// A decoded expression plan cannot exhaust an evaluator: its tree is bounded in
/// levels and nodes and holds only nodes of the version it declares, and that is
/// the Inspector version exactly where the tree holds an Inspector node.
pub proof fn law_decoded_expression_bounded(bytes: Seq<u8>)
    requires
        decoded_expression_plan(bytes) is Ok,
    ensures
        tree_levels(decoded_expression_plan(bytes)->Ok_0) <= EXPRESSION_LEVELS,
        node_count(decoded_expression_plan(bytes)->Ok_0) <= MAX_EXPRESSION_NODES,
        tree_within(
            decoded_expression_plan(bytes)->Ok_0,
            Grammar::inspector_set(declared_version(bytes)->Ok_0.0 == INSPECT_FORMAT_VERSION),
        ),
        declared_version(bytes)->Ok_0.0 == expression_version(decoded_expression_plan(bytes)->Ok_0),
        declared_version(bytes)->Ok_0.0 == INSPECT_FORMAT_VERSION <==> contains_inspect(
            decoded_expression_plan(bytes)->Ok_0,
        ),
{
    let expression = decoded_expression_plan(bytes)->Ok_0;
    law_expression_plan_canonical(bytes);
    let grammar = Grammar::inspector_set(contains_inspect(expression));
    law_admitted_tree_bounded(expression, EXPRESSION_LEVELS as nat, Tally::zero(), grammar);
    lemma_declared_expression_version(bytes);
}

/// A decoded expression plan declares the version of its expression.
proof fn lemma_declared_expression_version(bytes: Seq<u8>)
    requires
        decoded_expression_plan(bytes) is Ok,
    ensures
        declared_version(bytes)->Ok_0.0 == expression_version(decoded_expression_plan(bytes)->Ok_0),
{
    let expression = decoded_expression_plan(bytes)->Ok_0;
    let version = expression_version(expression);
    law_expression_plan_canonical(bytes);
    lemma_header(version, expression_operation(version), node_bytes(expression));
}

/// Every tree of an admitted list keeps the node set and its bounds.
proof fn lemma_list_bounded(
    expressions: Seq<Expression>,
    index: nat,
    levels: nat,
    tally: Tally,
    grammar: Grammar,
    place: int,
)
    requires
        all_admitted(expressions, index, levels, tally, grammar) is Ok,
        index <= place < expressions.len(),
    ensures
        tree_within(expressions[place], grammar),
        tree_levels(expressions[place]) <= levels,
        node_count(expressions[place]) <= MAX_EXPRESSION_NODES,
    decreases place - index,
{
    law_admitted_tree_bounded(expressions[index as int], levels, tally, grammar);
    if index < place {
        let behind = admitted(expressions[index as int], levels, tally, grammar)->Ok_0;
        lemma_list_bounded(expressions, index + 1, levels, behind, grammar, place);
    }
}

/// Arguments that keep the action rule ascend strictly.
proof fn lemma_arguments_ascend(arguments: Seq<(ParameterId, Expression)>, first: int, second: int)
    requires
        0 <= first < second < arguments.len(),
        action_arguments_refusal(arguments) is None,
    ensures
        0 < arguments[first].0.0 < arguments[second].0.0,
    decreases second,
{
    lemma_action_arguments_keep(arguments);
    assert(argument_refusal(
        ArgumentRule::Action,
        previous_parameter(arguments, second),
        arguments[second].0,
    ) is None);
    assert(argument_refusal(
        ArgumentRule::Action,
        previous_parameter(arguments, first),
        arguments[first].0,
    ) is None);
    if first < second - 1 {
        lemma_arguments_ascend(arguments, first, second - 1);
    }
}

/// The arguments of an action plan ascend strictly by parameter.
pub proof fn law_action_arguments_ascend(operation: ActionOperation, first: int, second: int)
    requires
        encoded_action_plan(operation) is Ok,
        0 <= first < second < operation.arguments.len(),
    ensures
        0 < operation.arguments[first].0.0 < operation.arguments[second].0.0,
{
    lemma_arguments_ascend(operation.arguments, first, second);
}

/// The arguments of an action plan are bounded trees of the closed node set: no
/// action, resource, local, Inspector or programmable node stands in them.
pub proof fn law_action_arguments_closed(operation: ActionOperation, place: int)
    requires
        encoded_action_plan(operation) is Ok,
        0 <= place < operation.arguments.len(),
    ensures
        tree_within(operation.arguments[place].1, Grammar::closed_set()),
        tree_levels(operation.arguments[place].1) <= EXPRESSION_LEVELS,
        node_count(operation.arguments[place].1) <= MAX_EXPRESSION_NODES,
{
    let values = argument_values(operation.arguments);
    assert(values[place] == operation.arguments[place].1);
    lemma_list_bounded(values, 0, EXPRESSION_LEVELS as nat, Tally::zero(), Grammar::closed_set(), place);
}

/// No slot of a state plan repeats the identity of an earlier one.
pub proof fn law_state_slots_distinct(plan: StatePlan, first: int, second: int)
    requires
        encoded_state_plan(plan) is Ok,
        0 <= first < second < plan.slots.len(),
    ensures
        plan.slots[first].id != plan.slots[second].id,
        plan.slots.len() <= MAX_STATE_SLOTS,
{
    lemma_slots_distinct(plan.slots, 0, second);
    if plan.slots[first].id == plan.slots[second].id {
        assert(slot_seen(plan.slots, second, plan.slots[second].id));
    }
}

/// A slot list without a repetition repeats no identity at any place.
proof fn lemma_slots_distinct(slots: Seq<Slot>, index: nat, place: int)
    requires
        repeated_slot(slots, index) is None,
        index <= place < slots.len(),
    ensures
        !slot_seen(slots, place, slots[place].id),
    decreases place - index,
{
    if index < place {
        lemma_slots_distinct(slots, index + 1, place);
    }
}

/// A requirement list without a refusal refuses no requirement at any place.
proof fn lemma_requirement_accepted(requirements: Seq<Requirement>, index: nat, place: int)
    requires
        requirements_refusal(requirements, index) is None,
        index <= place < requirements.len(),
    ensures
        requirement_refusal(requirements, place) is None,
    decreases place - index,
{
    if index < place {
        lemma_requirement_accepted(requirements, index + 1, place);
    }
}

/// A decoded capability plan holds only a checked inner plan and checked
/// requirements: the inner plan can be encoded, and the requirements are within
/// the limits and name no capability twice.
pub proof fn law_capability_plan_checked(bytes: Seq<u8>, first: int, second: int)
    requires
        decoded_capability_plan(bytes) is Ok,
        0 <= first < decoded_capability_plan(bytes)->Ok_0.requirements.len(),
        0 <= second < decoded_capability_plan(bytes)->Ok_0.requirements.len(),
    ensures
        encoded_inner_plan(decoded_capability_plan(bytes)->Ok_0.inner) is Ok,
        decoded_capability_plan(bytes)->Ok_0.requirements.len() <= MAX_CAPABILITY_REQUIREMENTS,
        0 < encode_utf8(decoded_capability_plan(bytes)->Ok_0.requirements[first].name).len()
            <= MAX_CAPABILITY_NAME_LENGTH,
        0 < encode_utf8(decoded_capability_plan(bytes)->Ok_0.requirements[first].argument.text()).len()
            <= MAX_CAPABILITY_ARGUMENT_LENGTH,
        first != second ==> decoded_capability_plan(bytes)->Ok_0.requirements[first].name
            != decoded_capability_plan(bytes)->Ok_0.requirements[second].name,
{
    let plan = decoded_capability_plan(bytes)->Ok_0;
    law_capability_plan_canonical(bytes);
    lemma_requirement_accepted(plan.requirements, 0, first);
    lemma_requirement_accepted(plan.requirements, 0, second);
}

/// Tells whether a statement is the LET of a local.
pub open spec fn is_let(statement: Statement, local: LocalId) -> bool {
    statement is Let && statement.local() == local
}

/// Statements without a repeated LET initialise nothing that was seen before,
/// and hold no local twice.
proof fn lemma_lets_distinct(statements: Seq<Statement>, index: nat, seen: Set<LocalId>, first: int, second: int)
    requires
        repeated_let(statements, index, seen) is None,
        index <= first < statements.len(),
        statements[first] is Let,
    ensures
        !seen.contains(statements[first].local()),
        first < second < statements.len() && statements[second] is Let ==> statements[first].local()
            != statements[second].local(),
    decreases statements.len() - index,
{
    let after = if statements[index as int] is Let {
        seen.insert(statements[index as int].local())
    } else {
        seen
    };
    if index < first {
        lemma_lets_distinct(statements, index + 1, after, first, second);
    } else if first < second < statements.len() && statements[second] is Let {
        lemma_lets_distinct(statements, index + 1, after, second, second);
    }
}

/// What statements initialise was initialised before them or has a LET among
/// them.
proof fn lemma_initialized_by_let(
    statements: Seq<Statement>,
    index: nat,
    locals: Seq<ClientLocal>,
    initialized: Set<LocalId>,
    local: LocalId,
)
    requires
        statements_valid(statements, index, locals, initialized) is Ok,
        statements_valid(statements, index, locals, initialized)->Ok_0.contains(local),
    ensures
        initialized.contains(local) || exists|place: int|
            index <= place < statements.len() && is_let(#[trigger] statements[place], local),
    decreases statements.len() - index,
{
    if index < statements.len() {
        let after = if statements[index as int] is Let {
            initialized.insert(statements[index as int].local())
        } else {
            initialized
        };
        lemma_initialized_by_let(statements, index + 1, locals, after, local);
        if !initialized.contains(local) {
            if after.contains(local) {
                assert(is_let(statements[index as int], local));
            } else {
                let place = choose|place: int|
                    index + 1 <= place < statements.len() && is_let(#[trigger] statements[place], local);
                assert(index <= place < statements.len() && is_let(statements[place], local));
            }
        }
    }
}

/// A declared local is not missing from what was found.
proof fn lemma_declared_found(locals: Seq<ClientLocal>, index: nat, found: Set<LocalId>, place: int)
    requires
        missing_local(locals, index, found) is None,
        index <= place < locals.len(),
    ensures
        found.contains(locals[place].local),
    decreases place - index,
{
    if index < place {
        lemma_declared_found(locals, index + 1, found, place);
    }
}

/// Every declared local of a procedural plan has a LET, and only one.
pub proof fn law_procedural_local_has_one_let(plan: ProceduralPlan, place: int)
    requires
        encoded_procedural_plan(plan) is Ok,
        0 <= place < plan.locals.len(),
    ensures
        exists|index: int|
            0 <= index < plan.statements.len() && is_let(#[trigger] plan.statements[index], plan.locals[place].local),
        forall|first: int, second: int|
            0 <= first < plan.statements.len() && 0 <= second < plan.statements.len() && is_let(
                #[trigger] plan.statements[first],
                plan.locals[place].local,
            ) && is_let(#[trigger] plan.statements[second], plan.locals[place].local) ==> first == second,
{
    let local = plan.locals[place].local;
    let initialized = statements_valid(plan.statements, 0, plan.locals, Set::empty())->Ok_0;
    lemma_declared_found(plan.locals, 0, initialized, place);
    lemma_initialized_by_let(plan.statements, 0, plan.locals, Set::empty(), local);
    assert forall|first: int, second: int|
        0 <= first < plan.statements.len() && 0 <= second < plan.statements.len() && is_let(
            #[trigger] plan.statements[first],
            local,
        ) && is_let(#[trigger] plan.statements[second], local) implies first == second by {
        if first < second {
            lemma_lets_distinct(plan.statements, 0, Set::empty(), first, second);
        } else if second < first {
            lemma_lets_distinct(plan.statements, 0, Set::empty(), second, first);
        }
    }
}

/// The number of LETs of a local in the statements from `index` on, on any
/// path.
pub open spec fn let_count(statements: Seq<FlowStatement>, index: nat, local: LocalId) -> nat
    decreases statements, statements.len() - index,
{
    if index >= statements.len() {
        0
    } else {
        statement_lets(statements[index as int], local) + let_count(statements, index + 1, local)
    }
}

/// The number of LETs of a local in a statement.
pub open spec fn statement_lets(statement: FlowStatement, local: LocalId) -> nat
    decreases statement, 0nat,
{
    match statement {
        FlowStatement::Let { local: target, .. } => if target == local {
            1
        } else {
            0
        },
        FlowStatement::If { branches, otherwise } => branch_lets(branches, 0, local) + match otherwise {
            Some(body) => let_count(body, 0, local),
            None => 0,
        },
        FlowStatement::While { body, .. } => let_count(body, 0, local),
        _ => 0,
    }
}

/// The number of LETs of a local in the branches from `index` on.
pub open spec fn branch_lets(branches: Seq<FlowBranch>, index: nat, local: LocalId) -> nat
    decreases branches, branches.len() - index,
{
    if index >= branches.len() {
        0
    } else {
        let_count(branches[index as int].body, 0, local) + branch_lets(branches, index + 1, local)
    }
}

/// One where a set holds a local, and zero where it does not.
pub open spec fn held(found: Set<LocalId>, local: LocalId) -> nat {
    if found.contains(local) {
        1
    } else {
        0
    }
}

/// A valid block adds one LET for every local that it adds to the seen ones.
pub proof fn lemma_block_lets(
    statements: Seq<FlowStatement>,
    levels: nat,
    locals: Seq<ClientLocal>,
    state: FlowState,
    local: LocalId,
)
    ensures
        block_valid(statements, levels, locals, state) matches Ok(exit) ==> held(exit.seen, local) == held(
            state.seen,
            local,
        ) + let_count(statements, 0, local),
    decreases levels, 0nat, 0nat,
{
    if levels > 0 && statements.len() <= MAX_CONTROL_FLOW_STATEMENTS {
        lemma_statements_lets(statements, 0, (levels - 1) as nat, locals, state, local);
    }
}

/// The same of the statements from `index` on.
proof fn lemma_statements_lets(
    statements: Seq<FlowStatement>,
    index: nat,
    levels: nat,
    locals: Seq<ClientLocal>,
    state: FlowState,
    local: LocalId,
)
    ensures
        flow_statements_valid(statements, index, levels, locals, state) matches Ok(exit) ==> held(exit.seen, local)
            == held(state.seen, local) + let_count(statements, index, local),
    decreases levels, 3nat, statements.len() - index,
{
    if index < statements.len() {
        lemma_statement_lets(statements[index as int], levels, locals, state, local);
        if let Ok(next) = flow_statement_valid(statements[index as int], levels, locals, state) {
            lemma_statements_lets(statements, index + 1, levels, locals, next, local);
        }
    }
}

/// The same of one statement.
pub proof fn lemma_statement_lets(
    statement: FlowStatement,
    levels: nat,
    locals: Seq<ClientLocal>,
    state: FlowState,
    local: LocalId,
)
    ensures
        flow_statement_valid(statement, levels, locals, state) matches Ok(exit) ==> held(exit.seen, local) == held(
            state.seen,
            local,
        ) + statement_lets(statement, local),
    decreases levels, 2nat, 0nat,
{
    match statement {
        FlowStatement::If { branches, otherwise } => {
            lemma_branches_lets(branches, 0, levels, locals, state.initialized, state, local);
            if let Ok(behind) = branches_valid(branches, 0, levels, locals, state.initialized, state) {
                if let Some(body) = otherwise {
                    let entry = FlowState { initialized: state.initialized, seen: behind.seen };
                    lemma_block_lets(body, levels, locals, entry, local);
                }
            }
        },
        FlowStatement::While { body, .. } => {
            lemma_block_lets(body, levels, locals, state, local);
        },
        _ => {},
    }
}

/// The same of the branches from `index` on.
pub proof fn lemma_branches_lets(
    branches: Seq<FlowBranch>,
    index: nat,
    levels: nat,
    locals: Seq<ClientLocal>,
    incoming: Set<LocalId>,
    state: FlowState,
    local: LocalId,
)
    ensures
        branches_valid(branches, index, levels, locals, incoming, state) matches Ok(exit) ==> held(exit.seen, local)
            == held(state.seen, local) + branch_lets(branches, index, local),
    decreases levels, 1nat, branches.len() - index,
{
    if index < branches.len() {
        let body = branches[index as int].body;
        let entry = FlowState { initialized: incoming, seen: state.seen };
        lemma_block_lets(body, levels, locals, entry, local);
        if let Ok(exit) = block_valid(body, levels, locals, entry) {
            let next = FlowState { initialized: state.initialized.intersect(exit.initialized), seen: exit.seen };
            lemma_branches_lets(branches, index + 1, levels, locals, incoming, next, local);
        }
    }
}

/// Every declared local of a programmable plan has exactly one LET, whichever
/// paths its body has.
pub proof fn law_flow_local_has_one_let(plan: FlowPlan, place: int)
    requires
        encoded_flow_plan(plan) is Ok,
        0 <= place < plan.locals.len(),
    ensures
        let_count(plan.statements, 0, plan.locals[place].local) == 1,
{
    let entry = FlowState { initialized: Set::empty(), seen: Set::empty() };
    let local = plan.locals[place].local;
    lemma_block_lets(plan.statements, BLOCK_LEVELS as nat, plan.locals, entry, local);
    let exit = block_valid(plan.statements, BLOCK_LEVELS as nat, plan.locals, entry)->Ok_0;
    lemma_declared_found(plan.locals, 0, exit.seen, place);
}

/// A declaration list without a repetition repeats no identity.
proof fn lemma_locals_distinct(locals: Seq<ClientLocal>, index: nat, first: int, second: int)
    requires
        repeated_local(locals, index) is None,
        0 <= first < second < locals.len(),
        index <= second,
    ensures
        locals[first].local != locals[second].local,
    decreases second - index,
{
    if index < second {
        lemma_locals_distinct(locals, index + 1, first, second);
    }
}

/// No local of a procedural plan repeats the identity of an earlier one.
pub proof fn law_procedural_locals_distinct(plan: ProceduralPlan, first: int, second: int)
    requires
        encoded_procedural_plan(plan) is Ok,
        0 <= first < second < plan.locals.len(),
    ensures
        plan.locals[first].local != plan.locals[second].local,
{
    lemma_locals_distinct(plan.locals, 0, first, second);
}

/// No local of a programmable plan repeats the identity of an earlier one.
pub proof fn law_flow_locals_distinct(plan: FlowPlan, first: int, second: int)
    requires
        encoded_flow_plan(plan) is Ok,
        0 <= first < second < plan.locals.len(),
    ensures
        plan.locals[first].local != plan.locals[second].local,
{
    lemma_locals_distinct(plan.locals, 0, first, second);
}

} // verus!
