//! What every node of an accepted expression tree keeps.
//!
//! A node is addressed by its path: the places of the operands that lead to it
//! from the root. The rules of a tree are stated for the node at every path, so
//! that they can be read without the functions that check them.

use vstd::prelude::*;
use vstd::utf8::encode_utf8;

use crate::client_plan::contract::valid_contract_identity;
use crate::client_plan::expression::{
    contains_inspect, lemma_operand_decreases, operands, operands_contain_inspect, ActionOperation, Expression,
    InspectOperation, ResourceOperation,
};
use crate::client_plan::grammar::{
    admitted, all_admitted, encoded_operands, has_snapshot_options, node_refusal, node_tally, operand_grammar, Grammar,
    Tally,
};
use crate::client_plan::limit_laws::{operand_resources, resource_count, total_nodes, total_resources};
use crate::client_plan::operation::{
    action_arguments_refusal, action_refusal, argument_refusal, arguments_keep, arguments_placement_from,
    lemma_action_arguments_keep, lemma_resource_arguments_keep, previous_parameter, resource_arguments_refusal,
    resource_refusal, ArgumentRule,
};
use crate::client_plan::placement::{contract_placement, placement, placement_of_all};
use crate::client_plan::plan_laws::{node_count, operand_levels, operand_nodes, tree_levels};
use crate::client_plan::resource::{await_placement, await_placement_of_operands};
use crate::identity::{CallSiteId, FunctionId, ParameterId, RevisionPair, TypeId};

verus! {

/// The values of an argument list.
pub open spec fn values(arguments: Seq<(ParameterId, Expression)>) -> Seq<Expression> {
    Seq::new(arguments.len(), |place: int| arguments[place].1)
}

/// The expressions that stand directly in an expression, in order.
pub open spec fn children(expression: Expression) -> Seq<Expression> {
    match expression {
        Expression::Await { expression } => seq![*expression],
        Expression::Evaluate { expression } => seq![*expression],
        Expression::Unary { expression, .. } => seq![*expression],
        Expression::Concat { left, right } => seq![*left, *right],
        Expression::Binary { left, right, .. } => seq![*left, *right],
        Expression::Call { arguments, .. } => values(arguments),
        Expression::Resource { operation } => values(operation.arguments),
        Expression::Action { operation } => values(operation.arguments),
        Expression::Inspect { operation: InspectOperation::Snapshot { target, options: None } } => seq![*target],
        Expression::Inspect { operation: InspectOperation::Snapshot { target, options: Some(options) } } => seq![
            *target,
            *options,
        ],
        Expression::Inspect { operation: InspectOperation::Projection { snapshot, .. } } => seq![*snapshot],
        Expression::String { .. } => Seq::empty(),
        Expression::Integer { .. } => Seq::empty(),
        Expression::Boolean { .. } => Seq::empty(),
        Expression::SourceIntrospection => Seq::empty(),
        Expression::Input => Seq::empty(),
        Expression::ParameterRead { .. } => Seq::empty(),
        Expression::LocalRead { .. } => Seq::empty(),
        Expression::FieldPath { .. } => Seq::empty(),
        Expression::ExternalContract { .. } => Seq::empty(),
    }
}

/// The operands of an expression are the expressions that stand in it.
pub proof fn law_operands_are_children(expression: Expression)
    ensures
        operands(expression) == children(expression),
{
    assert(operands(expression) =~= children(expression));
}

/// The node at a path.
pub open spec fn node_at(expression: Expression, path: Seq<int>) -> Option<Expression>
    decreases path.len(),
{
    if path.len() == 0 {
        Some(expression)
    } else if 0 <= path[0] < children(expression).len() {
        node_at(children(expression)[path[0]], path.drop_first())
    } else {
        None
    }
}

/// Tells whether the node at every path of a tree keeps a rule.
pub open spec fn everywhere(expression: Expression, rule: spec_fn(Expression) -> bool) -> bool {
    forall|path: Seq<int>| (#[trigger] node_at(expression, path)) matches Some(node) ==> rule(node)
}

/// A rule holds everywhere in a tree exactly where it holds of the root and
/// everywhere in each child.
pub proof fn lemma_everywhere(expression: Expression, rule: spec_fn(Expression) -> bool)
    ensures
        everywhere(expression, rule) <==> rule(expression) && forall|place: int|
            0 <= place < children(expression).len() ==> everywhere(#[trigger] children(expression)[place], rule),
{
    let list = children(expression);
    if everywhere(expression, rule) {
        assert(node_at(expression, Seq::empty()) == Some(expression));
        assert forall|place: int| 0 <= place < list.len() implies everywhere(#[trigger] list[place], rule) by {
            assert forall|path: Seq<int>| (#[trigger] node_at(list[place], path)) is Some implies rule(
                node_at(list[place], path)->Some_0,
            ) by {
                let longer = seq![place] + path;
                assert(longer.drop_first() =~= path);
                assert(node_at(expression, longer) == node_at(list[place], path));
            }
        }
    }
    if rule(expression) && forall|place: int|
        0 <= place < list.len() ==> everywhere(#[trigger] list[place], rule) {
        assert forall|path: Seq<int>| (#[trigger] node_at(expression, path)) is Some implies rule(
            node_at(expression, path)->Some_0,
        ) by {
            if path.len() > 0 {
                assert(everywhere(list[path[0]], rule));
                assert(node_at(list[path[0]], path.drop_first()) == node_at(expression, path));
            }
        }
    }
}

/// Two rules hold everywhere exactly where each of them does.
proof fn lemma_everywhere_both(
    expression: Expression,
    rule: spec_fn(Expression) -> bool,
    first: spec_fn(Expression) -> bool,
    second: spec_fn(Expression) -> bool,
)
    requires
        forall|node: Expression| #[trigger] rule(node) <==> first(node) && second(node),
    ensures
        everywhere(expression, rule) <==> everywhere(expression, first) && everywhere(expression, second),
{
    if everywhere(expression, rule) {
        assert forall|path: Seq<int>| (#[trigger] node_at(expression, path)) is Some implies first(
            node_at(expression, path)->Some_0,
        ) && second(node_at(expression, path)->Some_0) by {
            assert(rule(node_at(expression, path)->Some_0));
        }
    }
    if everywhere(expression, first) && everywhere(expression, second) {
        assert forall|path: Seq<int>| (#[trigger] node_at(expression, path)) is Some implies rule(
            node_at(expression, path)->Some_0,
        ) by {
            assert(first(node_at(expression, path)->Some_0) && second(node_at(expression, path)->Some_0));
        }
    }
}

/// Tells whether a tree holds an Inspector operation.
pub open spec fn holds_inspect(expression: Expression) -> bool {
    exists|path: Seq<int>| (#[trigger] node_at(expression, path)) matches Some(node) && node is Inspect
}

/// The rule that a node is no Inspector operation.
pub open spec fn no_inspect() -> spec_fn(Expression) -> bool {
    |node: Expression| !(node is Inspect)
}

/// A tree without an Inspector operation holds none at any path.
proof fn lemma_no_inspect_anywhere(expression: Expression)
    ensures
        everywhere(expression, no_inspect()) <==> !holds_inspect(expression),
{
    if !everywhere(expression, no_inspect()) {
        let path = choose|path: Seq<int>|
            !((#[trigger] node_at(expression, path)) matches Some(node) ==> no_inspect()(node));
        assert(node_at(expression, path)->Some_0 is Inspect);
    }
    if everywhere(expression, no_inspect()) && holds_inspect(expression) {
        let path = choose|path: Seq<int>| (#[trigger] node_at(expression, path)) matches Some(node) && node is Inspect;
        assert(no_inspect()(node_at(expression, path)->Some_0));
    }
}

/// The search for an Inspector operation finds one exactly where some node is
/// one.
pub proof fn law_inspect_found(expression: Expression)
    ensures
        contains_inspect(expression) <==> holds_inspect(expression),
    decreases expression, operands(expression).len() + 1,
{
    law_operands_are_children(expression);
    lemma_everywhere(expression, no_inspect());
    lemma_no_inspect_anywhere(expression);
    lemma_inspect_in_operands(expression, 0);
    assert(no_inspect()(expression) <==> !(expression is Inspect));
}

/// The same of the operands from `index` on.
proof fn lemma_inspect_in_operands(expression: Expression, index: nat)
    ensures
        operands_contain_inspect(expression, index) <==> exists|place: int|
            index <= place < children(expression).len() && !everywhere(
                #[trigger] children(expression)[place],
                no_inspect(),
            ),
    decreases expression, operands(expression).len() - index,
{
    law_operands_are_children(expression);
    if index < operands(expression).len() {
        lemma_operand_decreases(expression, index as int);
        let operand = children(expression)[index as int];
        law_inspect_found(operand);
        lemma_no_inspect_anywhere(operand);
        lemma_inspect_in_operands(expression, index + 1);
        if operands_contain_inspect(expression, index + 1) {
            let place = choose|place: int|
                index + 1 <= place < children(expression).len() && !everywhere(
                    #[trigger] children(expression)[place],
                    no_inspect(),
                );
            assert(index <= place && !everywhere(children(expression)[place], no_inspect()));
        }
    }
}

/// Tells whether the parameters of an argument list are nonzero and ascend
/// strictly.
pub open spec fn ascends(arguments: Seq<(ParameterId, Expression)>) -> bool {
    &&& forall|place: int| 0 <= place < arguments.len() ==> (#[trigger] arguments[place]).0.0 > 0
    &&& forall|first: int, second: int|
        0 <= first < second < arguments.len() ==> (#[trigger] arguments[first]).0.0 < (#[trigger] arguments[second]).0.0
}

/// Tells whether every identity that an operation pins is nonzero.
pub open spec fn pinned(
    target: FunctionId,
    revision: RevisionPair,
    call_site: CallSiteId,
    result_type: TypeId,
) -> bool {
    &&& target.0 > 0
    &&& revision.source.0 > 0
    &&& revision.catalogue.0 > 0
    &&& call_site.0 > 0
    &&& result_type.0 > 0
}

/// Tells whether a resource operation stands: it pins its target, and has at
/// most 64 arguments in ascending order.
pub open spec fn resource_stands(operation: ResourceOperation) -> bool {
    &&& pinned(operation.target, operation.target_revision, operation.call_site, operation.result_type)
    &&& operation.arguments.len() <= 64
    &&& ascends(operation.arguments)
}

/// Tells whether an action operation stands: it pins its target, and has at most
/// 64 arguments in ascending order.
pub open spec fn action_stands(operation: ActionOperation) -> bool {
    &&& pinned(operation.target, operation.target_revision, operation.call_site, operation.result_type)
    &&& operation.arguments.len() <= 64
    &&& ascends(operation.arguments)
}

/// Arguments that keep a rule of order are exactly those that ascend.
proof fn lemma_ascends(rule: ArgumentRule, arguments: Seq<(ParameterId, Expression)>)
    requires
        rule == ArgumentRule::Resource || rule == ArgumentRule::Action,
    ensures
        arguments_keep(rule, arguments) <==> ascends(arguments),
{
    if arguments_keep(rule, arguments) {
        assert forall|place: int| 0 <= place < arguments.len() implies (#[trigger] arguments[place]).0.0 > 0 by {
            assert(argument_refusal(rule, previous_parameter(arguments, place), arguments[place].0) is None);
        }
        assert forall|first: int, second: int| 0 <= first < second < arguments.len() implies (
        #[trigger] arguments[first]).0.0 < (#[trigger] arguments[second]).0.0 by {
            lemma_kept_order(rule, arguments, first, second);
        }
    }
    if ascends(arguments) {
        assert forall|place: int| 0 <= place < arguments.len() implies argument_refusal(
            rule,
            previous_parameter(arguments, place),
            (#[trigger] arguments[place]).0,
        ) is None by {
            if place > 0 {
                assert(arguments[place - 1].0.0 < arguments[place].0.0);
            }
        }
    }
}

/// Arguments that keep a rule of order stand in order.
proof fn lemma_kept_order(rule: ArgumentRule, arguments: Seq<(ParameterId, Expression)>, first: int, second: int)
    requires
        rule == ArgumentRule::Resource || rule == ArgumentRule::Action,
        arguments_keep(rule, arguments),
        0 <= first < second < arguments.len(),
    ensures
        arguments[first].0.0 < arguments[second].0.0,
    decreases second - first,
{
    assert(argument_refusal(rule, previous_parameter(arguments, second), arguments[second].0) is None);
    if first < second - 1 {
        lemma_kept_order(rule, arguments, first, second - 1);
    }
}

/// An argument list of a resource operation is accepted exactly where it has at
/// most 64 arguments and they ascend.
pub proof fn law_resource_arguments_accepted_exactly(arguments: Seq<(ParameterId, Expression)>)
    ensures
        resource_arguments_refusal(arguments) is None <==> arguments.len() <= 64 && ascends(arguments),
{
    lemma_resource_arguments_keep(arguments, 0);
    lemma_ascends(ArgumentRule::Resource, arguments);
}

/// An argument list of an action operation is accepted exactly where it has at
/// most 64 arguments and they ascend.
pub proof fn law_action_arguments_accepted_exactly(arguments: Seq<(ParameterId, Expression)>)
    ensures
        action_arguments_refusal(arguments) is None <==> arguments.len() <= 64 && ascends(arguments),
{
    lemma_action_arguments_keep(arguments);
    lemma_ascends(ArgumentRule::Action, arguments);
}

/// A resource or action operation is accepted exactly where it stands.
pub proof fn law_operations_accepted_exactly(resource: ResourceOperation, action: ActionOperation)
    ensures
        resource_refusal(resource) is None <==> resource_stands(resource),
        action_refusal(action) is None <==> action_stands(action),
{
    law_resource_arguments_accepted_exactly(resource.arguments);
    law_action_arguments_accepted_exactly(action.arguments);
}

/// Tells whether a node set holds a node, and the node keeps its own limits. A
/// resource operation of a set without operators holds no Inspector operation.
pub open spec fn node_allowed(node: Expression, set: Grammar) -> bool {
    match node {
        Expression::Await { .. } => set.resources,
        Expression::Resource { operation } => set.resources && resource_stands(operation) && (set.programmable
            || !holds_inspect(node)),
        Expression::Inspect { operation } => set.inspect && !(operation matches InspectOperation::Snapshot {
            options: Some(_),
            ..
        }),
        Expression::Action { operation } => set.programmable && action_stands(operation),
        Expression::Call { arguments, .. } => arguments.len() <= 64,
        Expression::String { value } => encode_utf8(value).len() <= 0xffff_ffff,
        Expression::LocalRead { .. } => set.locals,
        Expression::FieldPath { fields, .. } => 1 <= fields.len() <= 64,
        Expression::ExternalContract { identity } => valid_contract_identity(identity) && encode_utf8(identity).len()
            <= 0xffff_ffff,
        Expression::Unary { .. } => set.programmable,
        Expression::Binary { .. } => set.programmable,
        Expression::Integer { .. } => true,
        Expression::Boolean { .. } => true,
        Expression::SourceIntrospection => true,
        Expression::Input => true,
        Expression::Evaluate { .. } => true,
        Expression::ParameterRead { .. } => true,
        Expression::Concat { .. } => true,
    }
}

/// The rule that a node set holds a node.
pub open spec fn of_set(set: Grammar) -> spec_fn(Expression) -> bool {
    |node: Expression| node_allowed(node, set)
}

/// A node itself is accepted exactly where its set holds it, apart from what
/// stands below it and from the limit of resource operations.
proof fn lemma_node_refusal(node: Expression, tally: Tally, set: Grammar)
    requires
        tally.resources <= 64,
    ensures
        node_refusal(node, tally, set) is None && !has_snapshot_options(node) && (node is Resource
            && !set.programmable ==> !holds_inspect(node)) <==> node_allowed(node, set) && (node is Resource
            ==> tally.resources < 64),
{
    match node {
        Expression::Resource { operation } => {
            law_resource_arguments_accepted_exactly(operation.arguments);
        },
        Expression::Action { operation } => {
            law_action_arguments_accepted_exactly(operation.arguments);
        },
        _ => {},
    }
}

/// The nodes and resource operations below a node are those of its children, and
/// it has one level more than the deepest of them.
pub proof fn lemma_operand_totals(expression: Expression, index: nat, levels: nat)
    ensures
        operand_nodes(expression, index) == total_nodes(children(expression), index),
        operand_resources(expression, index) == total_resources(children(expression), index),
        operand_levels(expression, index) <= levels <==> forall|place: int|
            index <= place < children(expression).len() ==> tree_levels(#[trigger] children(expression)[place])
                <= levels,
    decreases children(expression).len() - index,
{
    law_operands_are_children(expression);
    if index < children(expression).len() {
        lemma_operand_totals(expression, index + 1, levels);
        if operand_levels(expression, index) <= levels {
            assert(tree_levels(children(expression)[index as int]) <= levels);
        }
    }
}

/// A tree is admitted exactly where it keeps the depth cap, the node and
/// resource counts stay within the limits of its plan, and its set holds the node
/// at every path. The counts behind it are those in front of it and its own.
pub proof fn law_tree_admitted_exactly(expression: Expression, levels: nat, tally: Tally, set: Grammar)
    requires
        tally.nodes <= 1024,
        tally.resources <= 64,
    ensures
        admitted(expression, levels, tally, set) is Ok <==> {
            &&& tree_levels(expression) <= levels
            &&& tally.nodes + node_count(expression) <= 1024
            &&& tally.resources + resource_count(expression) <= 64
            &&& everywhere(expression, of_set(set))
        },
        admitted(expression, levels, tally, set) matches Ok(behind) ==> {
            &&& behind.nodes == tally.nodes + node_count(expression)
            &&& behind.resources == tally.resources + resource_count(expression)
        },
    decreases levels, 0nat,
{
    let list = children(expression);
    law_operands_are_children(expression);
    lemma_everywhere(expression, of_set(set));
    assert(of_set(set)(expression) == node_allowed(expression, set));
    if levels > 0 {
        lemma_operand_totals(expression, 0, (levels - 1) as nat);
        lemma_node_refusal(expression, tally, set);
        let counted = node_tally(expression, tally);
        let inner = operand_grammar(expression, set);
        if tally.nodes < 1024 && node_refusal(expression, tally, set) is None {
            if !has_snapshot_options(expression) {
                assert(encoded_operands(expression) =~= list);
                law_trees_admitted_exactly(list, 0, (levels - 1) as nat, counted, inner);
                lemma_inner_set(expression, set);
            }
        }
    }
}

/// Below a resource operation of a set without operators the set holds no
/// Inspector operation.
proof fn lemma_inner_set(expression: Expression, set: Grammar)
    requires
        expression is Resource ==> set.resources,
    ensures
        (forall|place: int|
            0 <= place < children(expression).len() ==> everywhere(
                #[trigger] children(expression)[place],
                of_set(operand_grammar(expression, set)),
            )) <==> (forall|place: int|
            0 <= place < children(expression).len() ==> everywhere(
                #[trigger] children(expression)[place],
                of_set(set),
            )) && (expression is Resource && !set.programmable ==> !holds_inspect(expression)),
{
    let list = children(expression);
    let inner = operand_grammar(expression, set);
    if expression is Resource && !set.programmable {
        lemma_everywhere(expression, no_inspect());
        lemma_no_inspect_anywhere(expression);
        assert(no_inspect()(expression));
        assert forall|node: Expression| #[trigger] of_set(inner)(node) <==> of_set(set)(node) && no_inspect()(
            node,
        ) by {}
        assert forall|place: int| 0 <= place < list.len() implies (everywhere(
            #[trigger] list[place],
            of_set(inner),
        ) <==> everywhere(list[place], of_set(set)) && everywhere(list[place], no_inspect())) by {
            lemma_everywhere_both(list[place], of_set(inner), of_set(set), no_inspect());
        }
    }
}

/// Trees are admitted one behind the other exactly where each keeps the depth cap
/// and its set, and their counts together stay within the limits.
pub proof fn law_trees_admitted_exactly(
    trees: Seq<Expression>,
    index: nat,
    levels: nat,
    tally: Tally,
    set: Grammar,
)
    requires
        tally.nodes <= 1024,
        tally.resources <= 64,
    ensures
        all_admitted(trees, index, levels, tally, set) is Ok <==> {
            &&& forall|place: int|
                index <= place < trees.len() ==> tree_levels(#[trigger] trees[place]) <= levels && everywhere(
                    trees[place],
                    of_set(set),
                )
            &&& tally.nodes + total_nodes(trees, index) <= 1024
            &&& tally.resources + total_resources(trees, index) <= 64
        },
        all_admitted(trees, index, levels, tally, set) matches Ok(behind) ==> {
            &&& behind.nodes == tally.nodes + total_nodes(trees, index)
            &&& behind.resources == tally.resources + total_resources(trees, index)
        },
    decreases levels, 1 + trees.len() - index,
{
    if index < trees.len() {
        let tree = trees[index as int];
        law_tree_admitted_exactly(tree, levels, tally, set);
        if let Ok(behind) = admitted(tree, levels, tally, set) {
            law_trees_admitted_exactly(trees, index + 1, levels, behind, set);
        }
    }
}

/// The rule that a node is no external contract.
pub open spec fn no_contract() -> spec_fn(Expression) -> bool {
    |node: Expression| !(node is ExternalContract)
}

/// Tells whether no external contract stands below the root of a tree.
pub open spec fn contract_only_at_root(expression: Expression) -> bool {
    forall|path: Seq<int>|
        path.len() > 0 ==> ((#[trigger] node_at(expression, path)) matches Some(node) ==> !(node is ExternalContract))
}

/// A tree is placed exactly where it keeps the depth cap, its nodes stay within
/// the limit, no external contract stands below its root, and none at its root
/// unless it may stand there.
pub proof fn lemma_placed(expression: Expression, allow_root: bool, levels: nat, count: usize)
    requires
        count <= 1024,
    ensures
        placement(expression, allow_root, levels, count) is Ok <==> {
            &&& tree_levels(expression) <= levels
            &&& count + node_count(expression) <= 1024
            &&& expression is ExternalContract ==> allow_root
            &&& forall|place: int|
                0 <= place < children(expression).len() ==> everywhere(
                    #[trigger] children(expression)[place],
                    no_contract(),
                )
        },
        placement(expression, allow_root, levels, count) matches Ok(behind) ==> behind == count + node_count(
            expression,
        ),
    decreases levels, 0nat,
{
    law_operands_are_children(expression);
    if levels > 0 {
        lemma_operand_totals(expression, 0, (levels - 1) as nat);
        if count < 1024 {
            lemma_all_placed(children(expression), 0, (levels - 1) as nat, (count + 1) as usize);
        }
    }
}

/// The same of the trees from `index` on, none of which may be a contract.
proof fn lemma_all_placed(trees: Seq<Expression>, index: nat, levels: nat, count: usize)
    requires
        count <= 1024,
    ensures
        placement_of_all(trees, index, levels, count) is Ok <==> {
            &&& forall|place: int|
                index <= place < trees.len() ==> tree_levels(#[trigger] trees[place]) <= levels && everywhere(
                    trees[place],
                    no_contract(),
                )
            &&& count + total_nodes(trees, index) <= 1024
        },
        placement_of_all(trees, index, levels, count) matches Ok(behind) ==> behind == count + total_nodes(
            trees,
            index,
        ),
    decreases levels, 1 + trees.len() - index,
{
    if index < trees.len() {
        let tree = trees[index as int];
        lemma_placed(tree, false, levels, count);
        lemma_everywhere(tree, no_contract());
        assert(no_contract()(tree) <==> !(tree is ExternalContract));
        if let Ok(behind) = placement(tree, false, levels, count) {
            lemma_all_placed(trees, index + 1, levels, behind);
        }
    }
}

/// The external contracts of a tree are accepted exactly where none stands below
/// the root, and none at the root unless it may stand there; and the tree is
/// bounded by 65 levels and 1024 nodes.
pub proof fn law_contracts_placed_exactly(expression: Expression, allow_root: bool)
    ensures
        contract_placement(expression, allow_root) is Ok <==> {
            &&& tree_levels(expression) <= 65
            &&& node_count(expression) <= 1024
            &&& contract_only_at_root(expression)
            &&& expression is ExternalContract ==> allow_root
        },
{
    lemma_placed(expression, allow_root, 65, 0);
    let list = children(expression);
    if contract_only_at_root(expression) {
        assert forall|place: int| 0 <= place < list.len() implies everywhere(
            #[trigger] list[place],
            no_contract(),
        ) by {
            assert forall|path: Seq<int>|
                (#[trigger] node_at(list[place], path)) is Some implies no_contract()(
                node_at(list[place], path)->Some_0,
            ) by {
                let longer = seq![place] + path;
                assert(longer.drop_first() =~= path);
                assert(node_at(expression, longer) == node_at(list[place], path));
            }
        }
    }
    if forall|place: int| 0 <= place < list.len() ==> everywhere(#[trigger] list[place], no_contract()) {
        assert forall|path: Seq<int>|
            path.len() > 0 && (#[trigger] node_at(expression, path)) is Some implies !(node_at(expression, path)->Some_0
            is ExternalContract) by {
            assert(everywhere(list[path[0]], no_contract()));
            assert(node_at(list[path[0]], path.drop_first()) == node_at(expression, path));
            assert(no_contract()(node_at(expression, path)->Some_0));
        }
    }
}

/// The arguments of an action are placed exactly where each is bounded and holds
/// no external contract.
pub proof fn law_argument_contracts_placed_exactly(arguments: Seq<(ParameterId, Expression)>, index: nat)
    ensures
        arguments_placement_from(arguments, index) is Ok <==> forall|place: int|
            index <= place < arguments.len() ==> {
                &&& tree_levels((#[trigger] arguments[place]).1) <= 65
                &&& node_count(arguments[place].1) <= 1024
                &&& everywhere(arguments[place].1, no_contract())
            },
    decreases arguments.len() - index,
{
    if index < arguments.len() {
        let value = arguments[index as int].1;
        law_argument_contracts_placed_exactly(arguments, index + 1);
        lemma_placed(value, false, 65, 0);
        lemma_everywhere(value, no_contract());
        assert(no_contract()(value) <==> !(value is ExternalContract));
    }
}

/// The rule that a node of a version-6 tree below the awaited operation is plain.
pub open spec fn plain() -> spec_fn(Expression) -> bool {
    |node: Expression|
        !(node is Await || node is Resource || node is Action || node is Inspect || node is Unary || node is Binary)
}

/// A tree stands below an awaited operation exactly where every node of it is
/// plain.
proof fn lemma_plain(expression: Expression)
    ensures
        await_placement(expression, false, false) is Ok <==> everywhere(expression, plain()),
    decreases expression, operands(expression).len() + 1,
{
    law_operands_are_children(expression);
    lemma_everywhere(expression, plain());
    lemma_plain_operands(expression, 0);
    assert(plain()(expression) <==> !(expression is Await || expression is Resource || expression is Action
        || expression is Inspect || expression is Unary || expression is Binary));
}

/// The same of the operands from `index` on.
proof fn lemma_plain_operands(expression: Expression, index: nat)
    ensures
        await_placement_of_operands(expression, index) is Ok <==> forall|place: int|
            index <= place < children(expression).len() ==> everywhere(
                #[trigger] children(expression)[place],
                plain(),
            ),
    decreases expression, operands(expression).len() - index,
{
    law_operands_are_children(expression);
    if index < operands(expression).len() {
        lemma_operand_decreases(expression, index as int);
        lemma_plain(children(expression)[index as int]);
        lemma_plain_operands(expression, index + 1);
    }
}

/// A tree with a suspension is placed exactly where it is one await over one
/// resource operation whose arguments hold only plain nodes.
pub proof fn law_suspension_placed_exactly(expression: Expression, awaited: Expression)
    requires
        expression == (Expression::Await { expression: Box::new(awaited) }),
    ensures
        await_placement(expression, true, false) is Ok <==> awaited is Resource && forall|place: int|
            0 <= place < children(awaited).len() ==> everywhere(#[trigger] children(awaited)[place], plain()),
{
    reveal_with_fuel(await_placement, 2);
    lemma_plain_operands(awaited, 0);
}

} // verus!
