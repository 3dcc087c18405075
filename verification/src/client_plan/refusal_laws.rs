//! What a refusal of an expression tree or a procedural plan points at.
//!
//! A refusal names a node, a local or a limit. The laws here say that what it
//! names stands in what was refused, and is wrong there.

use vstd::prelude::*;

use crate::client_plan::control_flow_rules::{flow_expression_valid, flow_operand_shapes_valid, flow_shape_valid};
use crate::client_plan::error::ClientPlanError;
use crate::client_plan::expression::{
    lemma_operand_decreases, operands, ActionOperation, Expression, InspectOperation, ResourceOperation,
};
use crate::client_plan::limit_laws::total_nodes;
use crate::client_plan::local::{declaration, missing_local, repeated_local, ClientLocal};
use crate::client_plan::operation::{
    action_arguments_refusal, action_order_refusal_from, action_valid, arguments_placement_from,
    resource_arguments_refusal, resource_arguments_refusal_from, resource_refusal,
};
use crate::client_plan::placement::{contract_placement, placement, placement_of_all};
use crate::client_plan::plan_laws::{node_count, operand_levels, operand_nodes, tree_levels};
use crate::client_plan::procedural::{ProceduralPlan, Statement};
use crate::client_plan::procedural_laws::{
    declares, declares_handle, declares_value, distinct_locals, has_let_before, known_before, law_declaration_found,
    law_repeated_local_found, lemma_known, received,
};
use crate::client_plan::procedural_rules::{
    operand_reads_valid, operand_shapes_valid, procedural_model_valid, reads_valid, repeated_let, shape_valid,
    statement_valid, statements_valid,
};
use crate::client_plan::state::{repeated_slot, Slot};
use crate::client_plan::tree_laws::{
    children, law_operands_are_children, lemma_operand_totals, lemma_placed, node_at, pinned,
};
use crate::client_plan::{CapabilityClientPlan, ControlFlowClientPlan, ProceduralClientPlan, StateClientPlan};
use crate::identity::{LocalId, ParameterId, StateSlotId, TypeId};

verus! {

/// Tells whether some node of a tree is of a sort.
pub open spec fn somewhere(expression: Expression, sort: spec_fn(Expression) -> bool) -> bool {
    exists|path: Seq<int>| (#[trigger] node_at(expression, path)) is Some && sort(node_at(expression, path)->Some_0)
}

/// A node that is the root stands in the tree.
proof fn lemma_root_stands(expression: Expression, sort: spec_fn(Expression) -> bool)
    requires
        sort(expression),
    ensures
        somewhere(expression, sort),
{
    assert(node_at(expression, Seq::empty()) == Some(expression));
}

/// A node that stands in a child stands in the tree.
proof fn lemma_child_stands(expression: Expression, place: int, sort: spec_fn(Expression) -> bool)
    requires
        0 <= place < children(expression).len(),
        somewhere(children(expression)[place], sort),
    ensures
        somewhere(expression, sort),
{
    let child = children(expression)[place];
    let path = choose|path: Seq<int>| (#[trigger] node_at(child, path)) is Some && sort(node_at(child, path)->Some_0);
    let longer = seq![place] + path;
    assert(longer.drop_first() =~= path);
    assert(node_at(expression, longer) == node_at(child, path));
}

/// Tells whether two arguments in a row have the same parameter.
pub open spec fn repeats(arguments: Seq<(ParameterId, Expression)>, parameter: ParameterId) -> bool {
    exists|place: int|
        0 < place < arguments.len() && (#[trigger] arguments[place]).0 == parameter && arguments[place - 1].0
            == parameter
}

/// Tells whether a parameter follows a larger one.
pub open spec fn descends(arguments: Seq<(ParameterId, Expression)>) -> bool {
    exists|place: int|
        0 < place < arguments.len() && (#[trigger] arguments[place]).0.0 < arguments[place - 1].0.0
}

/// Tells whether an argument has no parameter identity.
pub open spec fn lacks_parameter(arguments: Seq<(ParameterId, Expression)>) -> bool {
    exists|place: int| 0 <= place < arguments.len() && (#[trigger] arguments[place]).0.0 == 0
}

/// Tells whether a refusal of an argument list of a resource operation is
/// deserved.
pub open spec fn resource_list_faulty(arguments: Seq<(ParameterId, Expression)>, error: ClientPlanError) -> bool {
    match error {
        ClientPlanError::ResourceArgumentLimitExceeded { limit } => limit == 64 && arguments.len() > 64,
        ClientPlanError::DuplicateResourceArgument(parameter) => repeats(arguments, parameter),
        ClientPlanError::NonCanonicalResourceArgumentOrder => descends(arguments),
        ClientPlanError::InvalidResourceIdentity => lacks_parameter(arguments),
        _ => false,
    }
}

/// Tells whether a refusal of an argument list of an action operation is
/// deserved.
pub open spec fn action_list_faulty(arguments: Seq<(ParameterId, Expression)>, error: ClientPlanError) -> bool {
    match error {
        ClientPlanError::ActionArgumentLimitExceeded { limit } => limit == 64 && arguments.len() > 64,
        ClientPlanError::DuplicateActionArgument(parameter) => repeats(arguments, parameter),
        ClientPlanError::NonCanonicalActionArgumentOrder => descends(arguments),
        ClientPlanError::InvalidActionIdentity => lacks_parameter(arguments),
        _ => false,
    }
}

/// What a refused argument list is told is wrong with it.
pub proof fn law_argument_refusals(arguments: Seq<(ParameterId, Expression)>)
    ensures
        resource_arguments_refusal(arguments) matches Some(error) ==> resource_list_faulty(arguments, error),
        action_arguments_refusal(arguments) matches Some(error) ==> action_list_faulty(arguments, error),
{
    lemma_resource_list(arguments, 0);
    lemma_action_list(arguments, 0);
}

/// The same of the arguments of a resource operation from `index` on.
proof fn lemma_resource_list(arguments: Seq<(ParameterId, Expression)>, index: nat)
    ensures
        resource_arguments_refusal_from(arguments, index) matches Some(error) ==> resource_list_faulty(
            arguments,
            error,
        ),
    decreases arguments.len() - index,
{
    if index < arguments.len() {
        lemma_resource_list(arguments, index + 1);
        let here = arguments[index as int];
    }
}

/// The same of the arguments of an action operation from `index` on.
proof fn lemma_action_list(arguments: Seq<(ParameterId, Expression)>, index: nat)
    ensures
        action_order_refusal_from(arguments, index) matches Some(error) ==> action_list_faulty(arguments, error),
    decreases arguments.len() - index,
{
    if index < arguments.len() {
        lemma_action_list(arguments, index + 1);
        let here = arguments[index as int];
    }
}

/// The sort of the reads of a local.
pub open spec fn reads_of(local: LocalId) -> spec_fn(Expression) -> bool {
    |node: Expression| node == Expression::LocalRead { local }
}

/// The sort of the awaits of a local.
pub open spec fn awaits_of(local: LocalId) -> spec_fn(Expression) -> bool {
    |node: Expression|
        node matches Expression::Await { expression } && *expression == Expression::LocalRead { local }
}

/// The sort of the nodes that a refused tag stands for.
pub open spec fn tagged(tag: u8) -> spec_fn(Expression) -> bool {
    |node: Expression|
        {
            ||| tag == 8 && node is ExternalContract
            ||| tag == 9 && node is Await
            ||| tag == 10 && node is Resource
            ||| tag == 12 && node is Action
            ||| tag == 14 && node is Unary
            ||| tag == 15 && node is Binary
        }
}

/// The sort of the snapshots with options.
pub open spec fn with_options() -> spec_fn(Expression) -> bool {
    |node: Expression|
        node matches Expression::Inspect { operation } && operation matches InspectOperation::Snapshot {
            options: Some(_),
            ..
        }
}

/// The sort of the calls with more arguments than the limit.
pub open spec fn overlong_call() -> spec_fn(Expression) -> bool {
    |node: Expression| node matches Expression::Call { arguments, .. } && arguments.len() > 64
}

/// The sort of the operations that deserve a refusal.
pub open spec fn faulty_operation(error: ClientPlanError) -> spec_fn(Expression) -> bool {
    |node: Expression|
        match node {
            Expression::Resource { operation } => resource_faulty(operation, error),
            Expression::Action { operation } => action_faulty(operation, error),
            _ => false,
        }
}

/// Tells whether a resource operation deserves a refusal.
pub open spec fn resource_faulty(operation: ResourceOperation, error: ClientPlanError) -> bool {
    ||| resource_list_faulty(operation.arguments, error)
    ||| error == ClientPlanError::InvalidResourceIdentity && !pinned(
        operation.target,
        operation.target_revision,
        operation.call_site,
        operation.result_type,
    )
}

/// Tells whether an action operation deserves a refusal.
pub open spec fn action_faulty(operation: ActionOperation, error: ClientPlanError) -> bool {
    ||| action_list_faulty(operation.arguments, error)
    ||| error == ClientPlanError::InvalidActionIdentity && !pinned(
        operation.target,
        operation.target_revision,
        operation.call_site,
        operation.result_type,
    )
}

/// Tells whether a tree deserves a refusal, where `locals` are declared and
/// `known` are initialised: what the refusal names stands in the tree at some
/// depth, and is wrong there.
pub open spec fn deserves(
    expression: Expression,
    locals: Seq<ClientLocal>,
    known: Set<LocalId>,
    error: ClientPlanError,
) -> bool {
    match error {
        ClientPlanError::ProceduralLocalReadBeforeLet(local) => somewhere(expression, reads_of(local))
            && !known.contains(local),
        ClientPlanError::ControlFlowLocalReadBeforeLet(local) => somewhere(expression, reads_of(local))
            && !known.contains(local),
        ClientPlanError::UnknownProceduralLocal(local) => somewhere(expression, reads_of(local)) && !declares(
            locals,
            local,
        ),
        ClientPlanError::UnknownControlFlowLocal(local) => somewhere(expression, reads_of(local)) && !declares(
            locals,
            local,
        ),
        ClientPlanError::UnawaitedResourceLocal(local) => somewhere(expression, reads_of(local)) && declares_handle(
            locals,
            local,
        ),
        ClientPlanError::InvalidAwaitOperand(local) => somewhere(expression, awaits_of(local)) && declares_value(
            locals,
            local,
        ),
        ClientPlanError::InvalidExpressionNode(tag) => somewhere(expression, tagged(tag)),
        ClientPlanError::UnsupportedInspectOptions => somewhere(expression, with_options()),
        ClientPlanError::ExpressionCollectionExceeded { limit } => limit == 64 && somewhere(
            expression,
            overlong_call(),
        ),
        ClientPlanError::ExpressionDepthExceeded => tree_levels(expression) > 65,
        ClientPlanError::ExpressionNodeCountExceeded => node_count(expression) > 1024,
        _ => somewhere(expression, faulty_operation(error)),
    }
}

/// An operand has no more nodes and levels than the operands together.
proof fn lemma_operand_smaller(expression: Expression, index: nat, place: int)
    requires
        index <= place < operands(expression).len(),
    ensures
        node_count(operands(expression)[place]) <= operand_nodes(expression, index),
        tree_levels(operands(expression)[place]) <= operand_levels(expression, index),
    decreases place - index,
{
    if index < place {
        lemma_operand_smaller(expression, index + 1, place);
    }
}

/// A tree deserves what a child of it deserves.
proof fn lemma_child_deserves(
    expression: Expression,
    place: int,
    locals: Seq<ClientLocal>,
    known: Set<LocalId>,
    error: ClientPlanError,
)
    requires
        0 <= place < children(expression).len(),
        deserves(children(expression)[place], locals, known, error),
    ensures
        deserves(expression, locals, known, error),
{
    law_operands_are_children(expression);
    lemma_operand_smaller(expression, 0, place);
    match error {
        ClientPlanError::ProceduralLocalReadBeforeLet(local) => {
            lemma_child_stands(expression, place, reads_of(local));
        },
        ClientPlanError::ControlFlowLocalReadBeforeLet(local) => {
            lemma_child_stands(expression, place, reads_of(local));
        },
        ClientPlanError::UnknownProceduralLocal(local) => {
            lemma_child_stands(expression, place, reads_of(local));
        },
        ClientPlanError::UnknownControlFlowLocal(local) => {
            lemma_child_stands(expression, place, reads_of(local));
        },
        ClientPlanError::UnawaitedResourceLocal(local) => {
            lemma_child_stands(expression, place, reads_of(local));
        },
        ClientPlanError::InvalidAwaitOperand(local) => {
            lemma_child_stands(expression, place, awaits_of(local));
        },
        ClientPlanError::InvalidExpressionNode(tag) => {
            lemma_child_stands(expression, place, tagged(tag));
        },
        ClientPlanError::UnsupportedInspectOptions => {
            lemma_child_stands(expression, place, with_options());
        },
        ClientPlanError::ExpressionCollectionExceeded { .. } => {
            lemma_child_stands(expression, place, overlong_call());
        },
        ClientPlanError::ExpressionDepthExceeded => {},
        ClientPlanError::ExpressionNodeCountExceeded => {},
        _ => {
            lemma_child_stands(expression, place, faulty_operation(error));
        },
    }
}

/// A tree that is refused for a contract or a limit deserves it.
proof fn lemma_placement_refused(expression: Expression, allow_root: bool, levels: nat, count: usize)
    requires
        count <= 1024,
    ensures
        placement(expression, allow_root, levels, count) matches Err(error) ==> match error {
            ClientPlanError::ExpressionDepthExceeded => tree_levels(expression) > levels,
            ClientPlanError::ExpressionNodeCountExceeded => count + node_count(expression) > 1024,
            ClientPlanError::InvalidExpressionNode(tag) => tag == 8 && somewhere(expression, tagged(8)),
            _ => false,
        },
    decreases levels, 0nat,
{
    law_operands_are_children(expression);
    if tagged(8)(expression) {
        lemma_root_stands(expression, tagged(8));
    }
    if levels > 0 && count < 1024 {
        let next = (count + 1) as usize;
        lemma_operand_totals(expression, 0, (levels - 1) as nat);
        lemma_all_refused(children(expression), 0, (levels - 1) as nat, next);
        if placement_of_all(children(expression), 0, (levels - 1) as nat, next) == Err::<usize, ClientPlanError>(
            ClientPlanError::InvalidExpressionNode(8),
        ) {
            let place = choose|place: int|
                0 <= place < children(expression).len() && somewhere(
                    #[trigger] children(expression)[place],
                    tagged(8),
                );
            lemma_child_stands(expression, place, tagged(8));
        }
    }
}

/// The same of the trees from `index` on.
proof fn lemma_all_refused(trees: Seq<Expression>, index: nat, levels: nat, count: usize)
    requires
        count <= 1024,
    ensures
        placement_of_all(trees, index, levels, count) matches Err(error) ==> match error {
            ClientPlanError::ExpressionDepthExceeded => exists|place: int|
                index <= place < trees.len() && tree_levels(#[trigger] trees[place]) > levels,
            ClientPlanError::ExpressionNodeCountExceeded => count + total_nodes(trees, index) > 1024,
            ClientPlanError::InvalidExpressionNode(tag) => tag == 8 && exists|place: int|
                index <= place < trees.len() && somewhere(#[trigger] trees[place], tagged(8)),
            _ => false,
        },
    decreases levels, 1 + trees.len() - index,
{
    if index < trees.len() {
        let tree = trees[index as int];
        lemma_placement_refused(tree, false, levels, count);
        lemma_placed(tree, false, levels, count);
        if let Ok(behind) = placement(tree, false, levels, count) {
            lemma_all_refused(trees, index + 1, levels, behind);
        }
    }
}

/// A tree with a misplaced contract or beyond a limit deserves its refusal.
pub proof fn law_placement_refusals(
    expression: Expression,
    allow_root: bool,
    locals: Seq<ClientLocal>,
    known: Set<LocalId>,
)
    ensures
        contract_placement(expression, allow_root) matches Err(error) ==> deserves(expression, locals, known, error),
{
    lemma_placement_refused(expression, allow_root, 65, 0);
}

/// A tree that is refused for a read deserves it.
pub proof fn law_read_refusals(expression: Expression, locals: Seq<ClientLocal>, known: Set<LocalId>)
    ensures
        reads_valid(expression, known) matches Err(error) ==> deserves(expression, locals, known, error),
    decreases expression, operands(expression).len() + 1,
{
    match expression {
        Expression::LocalRead { local } => {
            lemma_root_stands(expression, reads_of(local));
        },
        Expression::Unary { .. } => {
            lemma_root_stands(expression, tagged(14));
        },
        Expression::Binary { .. } => {
            lemma_root_stands(expression, tagged(15));
        },
        _ => {
            lemma_operand_read_refused(expression, 0, locals, known);
        },
    }
}

/// The same of the operands from `index` on.
proof fn lemma_operand_read_refused(expression: Expression, index: nat, locals: Seq<ClientLocal>, known: Set<LocalId>)
    ensures
        operand_reads_valid(expression, index, known) matches Err(error) ==> deserves(
            expression,
            locals,
            known,
            error,
        ),
    decreases expression, operands(expression).len() - index,
{
    law_operands_are_children(expression);
    if index < operands(expression).len() {
        let operand = operands(expression)[index as int];
        lemma_operand_decreases(expression, index as int);
        law_read_refusals(operand, locals, known);
        lemma_operand_read_refused(expression, index + 1, locals, known);
        if let Err(error) = reads_valid(operand, known) {
            lemma_child_deserves(expression, index as int, locals, known, error);
        }
    }
}

/// A local is declared either to hold a value or to hold a handle.
proof fn lemma_declared_kinds(locals: Seq<ClientLocal>, local: LocalId)
    requires
        distinct_locals(locals),
    ensures
        declaration(locals, local) is None ==> !declares(locals, local),
        declaration(locals, local) matches Some(source) ==> (source.kind is Resource ==> declares_handle(locals, local))
            && (!(source.kind is Resource) ==> declares_value(locals, local)),
{
    law_declaration_found(locals, local);
}

/// A tree of a procedural plan that is refused for its shape deserves it.
pub proof fn law_shape_refusals(
    expression: Expression,
    locals: Seq<ClientLocal>,
    known: Set<LocalId>,
    takes_resource: bool,
    takes_await: bool,
    takes_value: bool,
)
    requires
        distinct_locals(locals),
    ensures
        shape_valid(expression, locals, takes_resource, takes_await, takes_value) matches Err(error) ==> deserves(
            expression,
            locals,
            known,
            error,
        ),
    decreases expression, operands(expression).len() + 1,
{
    match expression {
        Expression::Await { expression: awaited } => {
            lemma_operand_decreases(expression, 0);
            lemma_root_stands(expression, tagged(9));
            lemma_operand_shape_refused(*awaited, 0, locals, known);
            match *awaited {
                Expression::Resource { operation } => {
                    lemma_resource_refused(operation, locals, known);
                    if let Err(error) = shape_valid(expression, locals, takes_resource, takes_await, takes_value) {
                        if takes_await {
                            lemma_child_deserves(expression, 0, locals, known, error);
                        }
                    }
                },
                Expression::LocalRead { local } => {
                    lemma_declared_kinds(locals, local);
                    lemma_root_stands(expression, awaits_of(local));
                    lemma_root_stands(*awaited, reads_of(local));
                    lemma_child_stands(expression, 0, reads_of(local));
                },
                _ => {},
            }
        },
        Expression::Resource { operation } => {
            lemma_root_stands(expression, tagged(10));
            lemma_resource_refused(operation, locals, known);
            lemma_operand_shape_refused(expression, 0, locals, known);
        },
        Expression::LocalRead { local } => {
            lemma_declared_kinds(locals, local);
            lemma_root_stands(expression, reads_of(local));
        },
        Expression::Call { arguments, .. } => {
            if arguments.len() > 64 {
                lemma_root_stands(expression, overlong_call());
            }
            lemma_operand_shape_refused(expression, 0, locals, known);
        },
        Expression::Unary { .. } => {
            lemma_root_stands(expression, tagged(14));
        },
        Expression::Action { .. } => {
            lemma_root_stands(expression, tagged(12));
        },
        Expression::Inspect { operation: InspectOperation::Snapshot { options: Some(_), .. } } => {
            lemma_root_stands(expression, with_options());
        },
        _ => {
            lemma_operand_shape_refused(expression, 0, locals, known);
        },
    }
}

/// The same of the operands from `index` on.
proof fn lemma_operand_shape_refused(
    expression: Expression,
    index: nat,
    locals: Seq<ClientLocal>,
    known: Set<LocalId>,
)
    requires
        distinct_locals(locals),
    ensures
        operand_shapes_valid(expression, index, locals) matches Err(error) ==> deserves(
            expression,
            locals,
            known,
            error,
        ),
    decreases expression, operands(expression).len() - index,
{
    law_operands_are_children(expression);
    if index < operands(expression).len() {
        let operand = operands(expression)[index as int];
        lemma_operand_decreases(expression, index as int);
        law_shape_refusals(operand, locals, known, false, false, true);
        lemma_operand_shape_refused(expression, index + 1, locals, known);
        if let Err(error) = shape_valid(operand, locals, false, false, true) {
            lemma_child_deserves(expression, index as int, locals, known, error);
        }
    }
}

/// A resource operation that is refused deserves it.
proof fn lemma_resource_refused(operation: ResourceOperation, locals: Seq<ClientLocal>, known: Set<LocalId>)
    ensures
        resource_arguments_refusal(operation.arguments) matches Some(error) ==> deserves(
            (Expression::Resource { operation }),
            locals,
            known,
            error,
        ),
        resource_refusal(operation) matches Some(error) ==> deserves(
            (Expression::Resource { operation }),
            locals,
            known,
            error,
        ),
{
    law_argument_refusals(operation.arguments);
    let node = Expression::Resource { operation };
    if let Some(error) = resource_arguments_refusal(operation.arguments) {
        assert(faulty_operation(error)(node));
        lemma_root_stands(node, faulty_operation(error));
    }
    if let Some(error) = resource_refusal(operation) {
        assert(faulty_operation(error)(node));
        lemma_root_stands(node, faulty_operation(error));
    }
}

/// The arguments of an action that are refused for a contract or a limit deserve
/// it.
proof fn lemma_argument_placement_refused(
    operation: ActionOperation,
    index: nat,
    locals: Seq<ClientLocal>,
    known: Set<LocalId>,
)
    ensures
        arguments_placement_from(operation.arguments, index) matches Err(error) ==> deserves(
            (Expression::Action { operation }),
            locals,
            known,
            error,
        ),
    decreases operation.arguments.len() - index,
{
    if index < operation.arguments.len() {
        let node = Expression::Action { operation };
        let argument = operation.arguments[index as int].1;
        law_placement_refusals(argument, false, locals, known);
        lemma_argument_placement_refused(operation, index + 1, locals, known);
        assert(children(node)[index as int] == argument);
        if let Err(error) = contract_placement(argument, false) {
            lemma_child_deserves(node, index as int, locals, known, error);
        }
    }
}

/// An action operation that is refused deserves it.
proof fn lemma_action_refused(operation: ActionOperation, locals: Seq<ClientLocal>, known: Set<LocalId>)
    ensures
        action_valid(operation) matches Err(error) ==> deserves(
            (Expression::Action { operation }),
            locals,
            known,
            error,
        ),
{
    law_argument_refusals(operation.arguments);
    lemma_argument_placement_refused(operation, 0, locals, known);
    let node = Expression::Action { operation };
    if let Err(error) = action_valid(operation) {
        if action_faulty(operation, error) {
            assert(faulty_operation(error)(node));
            lemma_root_stands(node, faulty_operation(error));
        }
    }
}

/// A tree of a programmable plan that is refused for its shape deserves it.
proof fn lemma_flow_shape_refused(
    expression: Expression,
    locals: Seq<ClientLocal>,
    known: Set<LocalId>,
    takes_resource: bool,
    takes_await: bool,
    takes_value: bool,
)
    requires
        distinct_locals(locals),
    ensures
        flow_shape_valid(expression, locals, known, takes_resource, takes_await, takes_value) matches Err(error)
            ==> deserves(expression, locals, known, error),
    decreases expression, operands(expression).len() + 1,
{
    match expression {
        Expression::Await { expression: awaited } => {
            lemma_operand_decreases(expression, 0);
            lemma_root_stands(expression, tagged(9));
            lemma_flow_operand_refused(*awaited, 0, locals, known);
            match *awaited {
                Expression::Resource { operation } => {
                    lemma_resource_refused(operation, locals, known);
                    if let Err(error) = flow_shape_valid(
                        expression,
                        locals,
                        known,
                        takes_resource,
                        takes_await,
                        takes_value,
                    ) {
                        if takes_await {
                            lemma_child_deserves(expression, 0, locals, known, error);
                        }
                    }
                },
                Expression::LocalRead { local } => {
                    lemma_declared_kinds(locals, local);
                    lemma_root_stands(expression, awaits_of(local));
                    lemma_root_stands(*awaited, reads_of(local));
                    lemma_child_stands(expression, 0, reads_of(local));
                },
                _ => {},
            }
        },
        Expression::Resource { operation } => {
            lemma_root_stands(expression, tagged(10));
            lemma_resource_refused(operation, locals, known);
            lemma_flow_operand_refused(expression, 0, locals, known);
        },
        Expression::Action { operation } => {
            lemma_action_refused(operation, locals, known);
            lemma_flow_operand_refused(expression, 0, locals, known);
        },
        Expression::LocalRead { local } => {
            lemma_declared_kinds(locals, local);
            lemma_root_stands(expression, reads_of(local));
        },
        Expression::Call { arguments, .. } => {
            if arguments.len() > 64 {
                lemma_root_stands(expression, overlong_call());
            }
            lemma_flow_operand_refused(expression, 0, locals, known);
        },
        Expression::Inspect { operation: InspectOperation::Snapshot { options: Some(_), .. } } => {
            lemma_root_stands(expression, with_options());
        },
        _ => {
            lemma_flow_operand_refused(expression, 0, locals, known);
        },
    }
}

/// The same of the operands from `index` on.
proof fn lemma_flow_operand_refused(expression: Expression, index: nat, locals: Seq<ClientLocal>, known: Set<LocalId>)
    requires
        distinct_locals(locals),
    ensures
        flow_operand_shapes_valid(expression, index, locals, known) matches Err(error) ==> deserves(
            expression,
            locals,
            known,
            error,
        ),
    decreases expression, operands(expression).len() - index,
{
    law_operands_are_children(expression);
    if index < operands(expression).len() {
        let operand = operands(expression)[index as int];
        lemma_operand_decreases(expression, index as int);
        lemma_flow_shape_refused(operand, locals, known, false, false, true);
        lemma_flow_operand_refused(expression, index + 1, locals, known);
        if let Err(error) = flow_shape_valid(operand, locals, known, false, false, true) {
            lemma_child_deserves(expression, index as int, locals, known, error);
        }
    }
}

/// A tree of a programmable plan that is refused deserves it.
pub proof fn law_flow_tree_refusals(
    expression: Expression,
    locals: Seq<ClientLocal>,
    known: Set<LocalId>,
    takes_resource: bool,
    takes_value: bool,
)
    requires
        distinct_locals(locals),
    ensures
        flow_expression_valid(expression, locals, known, takes_resource, takes_value) matches Err(error) ==> deserves(
            expression,
            locals,
            known,
            error,
        ),
{
    law_placement_refusals(expression, true, locals, known);
    lemma_flow_shape_refused(expression, locals, known, takes_resource, true, takes_value);
}

/// Tells whether what an expression gives is known to have a type.
pub open spec fn gives(expression: Expression, locals: Seq<ClientLocal>, type_id: TypeId) -> bool {
    match expression {
        Expression::Resource { operation } => operation.result_type == type_id,
        Expression::LocalRead { local } => exists|place: int|
            0 <= place < locals.len() && (#[trigger] locals[place]).local == local && locals[place].type_id == type_id,
        Expression::Await { expression: awaited } => match *awaited {
            Expression::Resource { operation } => operation.result_type == type_id,
            Expression::LocalRead { local } => exists|place: int|
                0 <= place < locals.len() && (#[trigger] locals[place]).local == local && locals[place].type_id
                    == type_id,
            _ => false,
        },
        _ => false,
    }
}

/// Tells whether a statement deserves a refusal: its tree does, its target is not
/// declared or not initialised, or what it gives does not fit its target.
pub open spec fn statement_deserves(
    statements: Seq<Statement>,
    place: int,
    locals: Seq<ClientLocal>,
    error: ClientPlanError,
) -> bool {
    let statement = statements[place];
    ||| deserves(statement.expression(), locals, known_before(statements, place), error)
    ||| error == ClientPlanError::UnknownProceduralLocal(statement.local()) && !declares(locals, statement.local())
    ||| error == ClientPlanError::ProceduralAssignmentBeforeLet(statement.local()) && statement is Assignment
        && !has_let_before(statements, place, statement.local())
    ||| error == ClientPlanError::ProceduralLocalKindMismatch(statement.local()) && exists|declared: int|
        0 <= declared < locals.len() && (#[trigger] locals[declared]).local == statement.local() && !received(
            locals[declared],
            statement.expression(),
            locals,
        )
    ||| mistyped(statement, locals, error)
}

/// Tells whether a statement gives its target a value of another type.
pub open spec fn mistyped(statement: Statement, locals: Seq<ClientLocal>, error: ClientPlanError) -> bool {
    match error {
        ClientPlanError::ProceduralLocalTypeMismatch { local, expected, actual } => {
            &&& local == statement.local()
            &&& expected != actual
            &&& exists|declared: int|
                0 <= declared < locals.len() && (#[trigger] locals[declared]).local == local
                    && locals[declared].type_id == expected
            &&& gives(statement.expression(), locals, actual)
        },
        _ => false,
    }
}

/// A statement that is refused deserves it.
proof fn lemma_statement_refused(statements: Seq<Statement>, place: int, locals: Seq<ClientLocal>)
    requires
        0 <= place < statements.len(),
        distinct_locals(locals),
    ensures
        statement_valid(statements[place], locals, known_before(statements, place)) matches Err(error)
            ==> statement_deserves(statements, place, locals, error),
{
    let statement = statements[place];
    let expression = statement.expression();
    let known = known_before(statements, place);
    law_declaration_found(locals, statement.local());
    law_placement_refusals(expression, false, locals, known);
    law_read_refusals(expression, locals, known);
    if let Some(target) = declaration(locals, statement.local()) {
        law_shape_refusals(expression, locals, known, true, true, target.kind is Value);
        let origin = choose|origin: int|
            0 <= origin < locals.len() && (#[trigger] locals[origin]).local == statement.local();
        assert(locals[origin] == target);
        match expression {
            Expression::LocalRead { local } => {
                law_declaration_found(locals, local);
                if let Some(source) = declaration(locals, local) {
                    let spot = choose|spot: int| 0 <= spot < locals.len() && (#[trigger] locals[spot]).local == local;
                    assert(locals[spot] == source);
                }
            },
            Expression::Await { expression: awaited } => {
                if let Expression::LocalRead { local } = *awaited {
                    law_declaration_found(locals, local);
                    if let Some(source) = declaration(locals, local) {
                        let spot = choose|spot: int|
                            0 <= spot < locals.len() && (#[trigger] locals[spot]).local == local;
                        assert(locals[spot] == source);
                    }
                }
            },
            _ => {},
        }
    }
}

/// Statements of which one is refused have one that deserves it, and otherwise
/// leave known what has a LET.
proof fn lemma_statements_refused(statements: Seq<Statement>, index: nat, locals: Seq<ClientLocal>)
    requires
        index <= statements.len(),
        distinct_locals(locals),
    ensures
        statements_valid(statements, index, locals, known_before(statements, index as int)) matches Err(error)
            ==> exists|place: int|
            index <= place < statements.len() && #[trigger] statement_deserves(statements, place, locals, error),
        statements_valid(statements, index, locals, known_before(statements, index as int)) matches Ok(known) ==> known
            == known_before(statements, statements.len() as int),
    decreases statements.len() - index,
{
    if index < statements.len() {
        lemma_statement_refused(statements, index as int, locals);
        lemma_known(statements, index as int);
        lemma_statements_refused(statements, index + 1, locals);
    }
}

/// Tells whether two LETs have the same local.
pub open spec fn lets_twice(statements: Seq<Statement>, local: LocalId) -> bool {
    exists|first: int, second: int|
        0 <= first < second < statements.len() && (#[trigger] statements[first]) is Let && (
        #[trigger] statements[second]) is Let && statements[first].local() == local && statements[second].local()
            == local
}

/// A LET that is found to repeat another does.
proof fn lemma_let_repeats(statements: Seq<Statement>, index: nat, seen: Set<LocalId>)
    requires
        index <= statements.len(),
        forall|local: LocalId| #[trigger]
            seen.contains(local) ==> has_let_before(statements, index as int, local),
    ensures
        repeated_let(statements, index, seen) matches Some(local) ==> lets_twice(statements, local),
    decreases statements.len() - index,
{
    if index < statements.len() {
        lemma_known(statements, index as int);
        let behind = known_before(statements, index as int + 1);
        match statements[index as int] {
            Statement::Let { local, .. } => {
                if seen.contains(local) {
                    assert(has_let_before(statements, index as int, local));
                    let origin = choose|origin: int|
                        0 <= origin < index && origin < statements.len() && (#[trigger] statements[origin]) is Let
                            && statements[origin].local() == local;
                    assert(statements[index as int] is Let && statements[origin] is Let);
                } else {
                    assert forall|other: LocalId| #[trigger]
                        seen.insert(local).contains(other) implies has_let_before(
                        statements,
                        index as int + 1,
                        other,
                    ) by {
                        assert(known_before(statements, index as int).insert(local).contains(other)) by {
                            if other != local {
                                assert(seen.contains(other));
                            }
                        }
                        assert(behind.contains(other));
                    }
                    lemma_let_repeats(statements, index + 1, seen.insert(local));
                }
            },
            Statement::Assignment { .. } => {
                assert forall|other: LocalId| #[trigger] seen.contains(other) implies has_let_before(
                    statements,
                    index as int + 1,
                    other,
                ) by {
                    assert(known_before(statements, index as int).contains(other));
                    assert(behind.contains(other));
                }
                lemma_let_repeats(statements, index + 1, seen);
            },
        }
    }
}

/// A declaration that is found to repeat another does.
proof fn lemma_local_repeats(locals: Seq<ClientLocal>, index: nat)
    ensures
        repeated_local(locals, index) matches Some(local) ==> declared_twice(locals, local),
    decreases locals.len() - index,
{
    if index < locals.len() {
        lemma_local_repeats(locals, index + 1);
    }
}

/// Tells whether two declarations have the same local.
pub open spec fn declared_twice(locals: Seq<ClientLocal>, local: LocalId) -> bool {
    exists|first: int, second: int|
        0 <= first < second < locals.len() && (#[trigger] locals[first]).local == local && (
        #[trigger] locals[second]).local == local
}

/// A declaration that is found missing from a set is.
proof fn lemma_local_missing(locals: Seq<ClientLocal>, index: nat, found: Set<LocalId>)
    ensures
        missing_local(locals, index, found) matches Some(local) ==> declares(locals, local) && !found.contains(local),
    decreases locals.len() - index,
{
    if index < locals.len() {
        lemma_local_missing(locals, index + 1, found);
    }
}

/// What a refused procedural plan is told points at what is wrong with it: a
/// limit that it exceeds, a local that is declared or initialised twice or never
/// initialised, or a statement or a return that deserves the refusal.
pub proof fn law_procedural_refusals(plan: ProceduralPlan)
    ensures
        procedural_model_valid(plan) matches Err(error) ==> match error {
            ClientPlanError::ProceduralLocalLimitExceeded { limit } => limit == 64 && plan.locals.len() > 64,
            ClientPlanError::ProceduralStatementLimitExceeded { limit } => limit == 256 && plan.statements.len() > 256,
            ClientPlanError::DuplicateProceduralLocal(local) => declared_twice(plan.locals, local),
            ClientPlanError::DuplicateProceduralLet(local) => lets_twice(plan.statements, local),
            ClientPlanError::MissingProceduralLet(local) => declares(plan.locals, local) && !has_let_before(
                plan.statements,
                plan.statements.len() as int,
                local,
            ),
            _ => {
                ||| exists|place: int|
                    0 <= place < plan.statements.len() && #[trigger] statement_deserves(
                        plan.statements,
                        place,
                        plan.locals,
                        error,
                    )
                ||| deserves(
                    plan.return_expression,
                    plan.locals,
                    known_before(plan.statements, plan.statements.len() as int),
                    error,
                )
            },
        },
{
    let locals = plan.locals;
    let statements = plan.statements;
    law_repeated_local_found(locals);
    lemma_local_repeats(locals, 0);
    if distinct_locals(locals) {
        let known = known_before(statements, statements.len() as int);
        assert(known_before(statements, 0) =~= Set::<LocalId>::empty());
        lemma_statements_refused(statements, 0, locals);
        lemma_let_repeats(statements, 0, Set::empty());
        lemma_local_missing(locals, 0, known);
        law_placement_refusals(plan.return_expression, false, locals, known);
        law_shape_refusals(plan.return_expression, locals, known, false, true, true);
        law_read_refusals(plan.return_expression, locals, known);
    }
}

/// A state plan is first refused for its number of slots, and next for two slots
/// with the same identity, whatever else is wrong with it.
pub proof fn law_state_counts_refused(plan: StateClientPlan, encoded: Result<Vec<u8>, ClientPlanError>)
    requires
        call_ensures(StateClientPlan::encode, (&plan,), encoded),
    ensures
        plan@.slots.len() == 0 ==> encoded == Err::<Vec<u8>, _>(ClientPlanError::InvalidStateSlotCount { actual: 0 }),
        plan@.slots.len() > 64 ==> encoded == Err::<Vec<u8>, _>(ClientPlanError::StateSlotLimitExceeded { limit: 64 }),
        0 < plan@.slots.len() <= 64 ==> forall|first: int, second: int|
            0 <= first < second < plan@.slots.len() && (#[trigger] plan@.slots[first]).id == (
            #[trigger] plan@.slots[second]).id ==> {
                &&& encoded matches Err(ClientPlanError::DuplicateStateSlotId(id))
                &&& shares_slot(plan@.slots, id)
            },
{
    let slots = plan@.slots;
    lemma_slot_repeats(slots, 0);
}

/// Tells whether two slots have the same identity.
pub open spec fn shares_slot(slots: Seq<Slot>, id: StateSlotId) -> bool {
    exists|first: int, second: int|
        0 <= first < second < slots.len() && (#[trigger] slots[first]).id == id && (#[trigger] slots[second]).id == id
}

/// A slot is found to repeat another exactly where two share an identity.
proof fn lemma_slot_repeats(slots: Seq<Slot>, index: nat)
    ensures
        repeated_slot(slots, index) matches Some(id) ==> shares_slot(slots, id),
        repeated_slot(slots, index) is None ==> forall|first: int, second: int|
            0 <= first < second < slots.len() && index <= second ==> (#[trigger] slots[first]).id != (
            #[trigger] slots[second]).id,
    decreases slots.len() - index,
{
    if index < slots.len() {
        lemma_slot_repeats(slots, index + 1);
    }
}

/// A procedural plan is first refused for its number of locals, next for its
/// number of statements, and next for two declarations of one local.
pub proof fn law_procedural_counts_refused(plan: ProceduralClientPlan, encoded: Result<Vec<u8>, ClientPlanError>)
    requires
        call_ensures(ProceduralClientPlan::encode, (&plan,), encoded),
    ensures
        plan@.locals.len() > 64 ==> encoded == Err::<Vec<u8>, _>(
            ClientPlanError::ProceduralLocalLimitExceeded { limit: 64 },
        ),
        plan@.locals.len() <= 64 && plan@.statements.len() > 256 ==> encoded == Err::<Vec<u8>, _>(
            ClientPlanError::ProceduralStatementLimitExceeded { limit: 256 },
        ),
        plan@.locals.len() <= 64 && plan@.statements.len() <= 256 && !distinct_locals(plan@.locals) ==> {
            &&& encoded matches Err(ClientPlanError::DuplicateProceduralLocal(local))
            &&& declared_twice(plan@.locals, local)
        },
{
    law_repeated_local_found(plan@.locals);
    lemma_local_repeats(plan@.locals, 0);
}

/// A programmable plan is first refused for its number of locals, next for its
/// number of statements, and next for two declarations of one local.
pub proof fn law_flow_counts_refused(plan: ControlFlowClientPlan, encoded: Result<Vec<u8>, ClientPlanError>)
    requires
        call_ensures(ControlFlowClientPlan::encode, (&plan,), encoded),
    ensures
        plan@.locals.len() > 64 ==> encoded == Err::<Vec<u8>, _>(
            ClientPlanError::ControlFlowLocalLimitExceeded { limit: 64 },
        ),
        plan@.locals.len() <= 64 && plan@.statements.len() > 256 ==> encoded == Err::<Vec<u8>, _>(
            ClientPlanError::ControlFlowStatementLimitExceeded { limit: 256 },
        ),
        plan@.locals.len() <= 64 && plan@.statements.len() <= 256 && !distinct_locals(plan@.locals) ==> {
            &&& encoded matches Err(ClientPlanError::DuplicateControlFlowLocal(local))
            &&& declared_twice(plan@.locals, local)
        },
{
    law_repeated_local_found(plan@.locals);
    lemma_local_repeats(plan@.locals, 0);
}

/// A capability plan is first refused for its number of requirements.
pub proof fn law_capability_counts_refused(plan: CapabilityClientPlan, encoded: Result<Vec<u8>, ClientPlanError>)
    requires
        call_ensures(CapabilityClientPlan::encode, (&plan,), encoded),
    ensures
        plan@.requirements.len() == 0 ==> encoded == Err::<Vec<u8>, _>(
            ClientPlanError::InvalidCapabilityCount { actual: 0 },
        ),
        plan@.requirements.len() > 64 ==> encoded == Err::<Vec<u8>, _>(
            ClientPlanError::CapabilityLimitExceeded { limit: 64 },
        ),
{
}

} // verus!
