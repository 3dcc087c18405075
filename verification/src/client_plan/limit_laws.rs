//! The limits that every decoded plan keeps.
//!
//! An untrusted artefact cannot exhaust an evaluator: whatever tree a decoded
//! plan holds is bounded in levels and nodes, the trees of one procedural or
//! programmable plan are bounded together, and the body of a programmable plan
//! is bounded in statements, block levels and branches.

use vstd::prelude::*;

use crate::client_plan::control_flow::{decoded_flow_plan, law_flow_plan_canonical, FlowBranch, FlowStatement};
use crate::client_plan::control_flow_codec::{
    block_admitted, branches_admitted, flow_statement_admitted, flow_statements_admitted, tree_admitted, FlowTally,
    BLOCK_LEVELS,
};
use crate::client_plan::error::ClientPlanError;
use crate::client_plan::expression::{lemma_operand_decreases, operands, Expression};
use crate::client_plan::grammar::{
    admitted, all_admitted, encoded_operands, node_tally, operand_grammar, Grammar, Tally,
};
use crate::client_plan::placement::EXPRESSION_LEVELS;
use crate::client_plan::plan_laws::{law_admitted_tree_bounded, node_count, tree_levels, tree_within};
use crate::client_plan::procedural::{
    decoded_procedural_plan, law_procedural_plan_canonical, statements_admitted, ProceduralPlan,
};
use crate::client_plan::resource::{decoded_resource_plan, law_resource_plan_canonical};
use crate::client_plan::state::{
    decoded_state_plan, defaults_valid, law_state_plan_canonical, state_tree_valid, InitialState, Slot,
};
use crate::client_plan::{
    MAX_CONTROL_FLOW_BLOCK_DEPTH, MAX_CONTROL_FLOW_BRANCHES, MAX_CONTROL_FLOW_LOCALS, MAX_CONTROL_FLOW_STATEMENTS,
    MAX_EXPRESSION_NODES, MAX_PROCEDURAL_LOCALS, MAX_PROCEDURAL_STATEMENTS, MAX_RESOURCE_OPERATIONS, MAX_STATE_SLOTS,
};

verus! {

/// Tells whether a tree keeps the depth cap, the node cap and a node set.
pub open spec fn tree_bounded(expression: Expression, grammar: Grammar) -> bool {
    &&& tree_levels(expression) <= EXPRESSION_LEVELS
    &&& node_count(expression) <= MAX_EXPRESSION_NODES
    &&& tree_within(expression, grammar)
}

/// The number of resource operations of a tree.
pub open spec fn resource_count(expression: Expression) -> nat
    decreases expression, operands(expression).len() + 1,
{
    (if expression is Resource {
        1nat
    } else {
        0nat
    }) + operand_resources(expression, 0)
}

/// The number of resource operations of the operands from `index` on.
pub open spec fn operand_resources(expression: Expression, index: nat) -> nat
    decreases expression, operands(expression).len() - index,
{
    if index < operands(expression).len() {
        proof {
            lemma_operand_decreases(expression, index as int);
        }
        resource_count(operands(expression)[index as int]) + operand_resources(expression, index + 1)
    } else {
        0
    }
}

/// The number of nodes of the trees from `index` on.
pub open spec fn total_nodes(trees: Seq<Expression>, index: nat) -> nat
    decreases trees.len() - index,
{
    if index < trees.len() {
        node_count(trees[index as int]) + total_nodes(trees, index + 1)
    } else {
        0
    }
}

/// The number of resource operations of the trees from `index` on.
pub open spec fn total_resources(trees: Seq<Expression>, index: nat) -> nat
    decreases trees.len() - index,
{
    if index < trees.len() {
        resource_count(trees[index as int]) + total_resources(trees, index + 1)
    } else {
        0
    }
}

/// Tells whether the trees of one plan are bounded each and together.
pub open spec fn trees_bounded(trees: Seq<Expression>, grammar: Grammar) -> bool {
    &&& forall|place: int| 0 <= place < trees.len() ==> tree_bounded(#[trigger] trees[place], grammar)
    &&& total_nodes(trees, 0) <= MAX_EXPRESSION_NODES
    &&& total_resources(trees, 0) <= MAX_RESOURCE_OPERATIONS
}

/// The resource operations of an admitted tree are counted one by one within
/// the limit.
proof fn lemma_tree_resources(expression: Expression, levels: nat, tally: Tally, grammar: Grammar)
    requires
        admitted(expression, levels, tally, grammar) is Ok,
        tally.resources <= MAX_RESOURCE_OPERATIONS,
    ensures
        admitted(expression, levels, tally, grammar)->Ok_0.resources == tally.resources + resource_count(expression),
        tally.resources + resource_count(expression) <= MAX_RESOURCE_OPERATIONS,
    decreases levels, 0nat,
{
    assert(encoded_operands(expression) =~= operands(expression));
    lemma_operand_resources(
        expression,
        0,
        (levels - 1) as nat,
        node_tally(expression, tally),
        operand_grammar(expression, grammar),
    );
}

/// The same of the operands from `index` on.
proof fn lemma_operand_resources(expression: Expression, index: nat, levels: nat, tally: Tally, grammar: Grammar)
    requires
        all_admitted(operands(expression), index, levels, tally, grammar) is Ok,
        tally.resources <= MAX_RESOURCE_OPERATIONS,
    ensures
        all_admitted(operands(expression), index, levels, tally, grammar)->Ok_0.resources == tally.resources
            + operand_resources(expression, index),
        tally.resources + operand_resources(expression, index) <= MAX_RESOURCE_OPERATIONS,
    decreases levels, 1 + operands(expression).len() - index,
{
    if index < operands(expression).len() {
        let operand = operands(expression)[index as int];
        lemma_tree_resources(operand, levels, tally, grammar);
        let behind = admitted(operand, levels, tally, grammar)->Ok_0;
        lemma_operand_resources(expression, index + 1, levels, behind, grammar);
    }
}

/// Admitted trees are bounded each, and counted together within the limits.
proof fn lemma_all_bounded(trees: Seq<Expression>, index: nat, tally: Tally, grammar: Grammar)
    requires
        all_admitted(trees, index, EXPRESSION_LEVELS as nat, tally, grammar) is Ok,
        tally.nodes <= MAX_EXPRESSION_NODES,
        tally.resources <= MAX_RESOURCE_OPERATIONS,
    ensures
        forall|place: int| index <= place < trees.len() ==> tree_bounded(#[trigger] trees[place], grammar),
        tally.nodes + total_nodes(trees, index) <= MAX_EXPRESSION_NODES,
        tally.resources + total_resources(trees, index) <= MAX_RESOURCE_OPERATIONS,
    decreases trees.len() - index,
{
    if index < trees.len() {
        let levels = EXPRESSION_LEVELS as nat;
        let tree = trees[index as int];
        law_admitted_tree_bounded(tree, levels, tally, grammar);
        lemma_tree_resources(tree, levels, tally, grammar);
        lemma_all_bounded(trees, index + 1, admitted(tree, levels, tally, grammar)->Ok_0, grammar);
    }
}

/// Trees that are admitted from an empty tally are bounded.
pub proof fn law_admitted_trees_bounded(trees: Seq<Expression>, grammar: Grammar)
    requires
        all_admitted(trees, 0, EXPRESSION_LEVELS as nat, Tally::zero(), grammar) is Ok,
    ensures
        trees_bounded(trees, grammar),
{
    lemma_all_bounded(trees, 0, Tally::zero(), grammar);
}

/// A default of a valid slot list is a valid tree.
proof fn lemma_default_valid(slots: Seq<Slot>, index: nat, place: int)
    requires
        defaults_valid(slots, index) is Ok,
        index <= place < slots.len(),
    ensures
        slots[place].default matches InitialState::Expression(expression) ==> state_tree_valid(expression) is Ok,
    decreases place - index,
{
    if index < place {
        lemma_default_valid(slots, index + 1, place);
    }
}

/// The returned tree of a decoded state plan and the tree of every default are
/// bounded and closed, and the plan has a bounded number of slots, and one at
/// least.
pub proof fn law_decoded_state_bounded(bytes: Seq<u8>, place: int)
    requires
        decoded_state_plan(bytes) is Ok,
    ensures
        tree_bounded(decoded_state_plan(bytes)->Ok_0.expression, Grammar::closed_set()),
        1 <= decoded_state_plan(bytes)->Ok_0.slots.len() <= MAX_STATE_SLOTS,
        0 <= place < decoded_state_plan(bytes)->Ok_0.slots.len() ==> (
        decoded_state_plan(bytes)->Ok_0.slots[place].default matches InitialState::Expression(expression)
            ==> tree_bounded(expression, Grammar::closed_set())),
{
    let plan = decoded_state_plan(bytes)->Ok_0;
    let levels = EXPRESSION_LEVELS as nat;
    law_state_plan_canonical(bytes);
    law_admitted_tree_bounded(plan.expression, levels, Tally::zero(), Grammar::closed_set());
    if 0 <= place < plan.slots.len() {
        lemma_default_valid(plan.slots, 0, place);
        if let InitialState::Expression(expression) = plan.slots[place].default {
            law_admitted_tree_bounded(expression, levels, Tally::zero(), Grammar::closed_set());
        }
    }
}

/// The tree of a decoded resource plan is bounded, and holds a bounded number of
/// resource operations, and one at least.
pub proof fn law_decoded_resource_bounded(bytes: Seq<u8>)
    requires
        decoded_resource_plan(bytes) is Ok,
    ensures
        tree_bounded(decoded_resource_plan(bytes)->Ok_0, Grammar::resource_set()),
        1 <= resource_count(decoded_resource_plan(bytes)->Ok_0) <= MAX_RESOURCE_OPERATIONS,
{
    let expression = decoded_resource_plan(bytes)->Ok_0;
    law_resource_plan_canonical(bytes);
    law_admitted_tree_bounded(expression, EXPRESSION_LEVELS as nat, Tally::zero(), Grammar::resource_set());
    lemma_tree_resources(expression, EXPRESSION_LEVELS as nat, Tally::zero(), Grammar::resource_set());
}

/// The trees of a procedural plan: those of its statements in order, and the
/// returned one.
pub open spec fn procedural_trees(plan: ProceduralPlan) -> Seq<Expression> {
    Seq::new(plan.statements.len(), |index: int| plan.statements[index].expression()).push(plan.return_expression)
}

/// The trees of a plan are admitted one behind the other exactly where those of
/// its statements are and the returned one behind them.
pub proof fn lemma_statements_trees(plan: ProceduralPlan, index: nat, tally: Tally)
    requires
        index <= plan.statements.len(),
    ensures
        all_admitted(procedural_trees(plan), index, EXPRESSION_LEVELS as nat, tally, Grammar::procedural_set())
            == match statements_admitted(plan.statements, index, tally) {
            Err(error) => Err(error),
            Ok(behind) => admitted(
                plan.return_expression,
                EXPRESSION_LEVELS as nat,
                behind,
                Grammar::procedural_set(),
            ),
        },
    decreases plan.statements.len() - index,
{
    let levels = EXPRESSION_LEVELS as nat;
    let trees = procedural_trees(plan);
    let tree = trees[index as int];
    if index < plan.statements.len() {
        assert(tree == plan.statements[index as int].expression());
        if let Ok(behind) = admitted(tree, levels, tally, Grammar::procedural_set()) {
            lemma_statements_trees(plan, index + 1, behind);
        }
    } else {
        assert(tree == plan.return_expression);
        if let Ok(behind) = admitted(tree, levels, tally, Grammar::procedural_set()) {
            assert(all_admitted(trees, index + 1, levels, behind, Grammar::procedural_set()) == Ok::<
                Tally,
                ClientPlanError,
            >(behind));
        }
    }
}

/// The trees of a decoded procedural plan are bounded each and together, and so
/// are its locals and its statements.
pub proof fn law_decoded_procedural_bounded(bytes: Seq<u8>)
    requires
        decoded_procedural_plan(bytes) is Ok,
    ensures
        trees_bounded(procedural_trees(decoded_procedural_plan(bytes)->Ok_0), Grammar::procedural_set()),
        decoded_procedural_plan(bytes)->Ok_0.locals.len() <= MAX_PROCEDURAL_LOCALS,
        decoded_procedural_plan(bytes)->Ok_0.statements.len() <= MAX_PROCEDURAL_STATEMENTS,
{
    let plan = decoded_procedural_plan(bytes)->Ok_0;
    law_procedural_plan_canonical(bytes);
    lemma_statements_trees(plan, 0, Tally::zero());
    law_admitted_trees_bounded(procedural_trees(plan), Grammar::procedural_set());
}

/// The trees of the statements from `index` on, those of nested blocks
/// included, in encoding order.
pub open spec fn block_trees(statements: Seq<FlowStatement>, index: nat) -> Seq<Expression>
    decreases statements, statements.len() - index,
{
    if index >= statements.len() {
        Seq::empty()
    } else {
        statement_trees(statements[index as int]) + block_trees(statements, index + 1)
    }
}

/// The trees of a statement.
pub open spec fn statement_trees(statement: FlowStatement) -> Seq<Expression>
    decreases statement, 0nat,
{
    match statement {
        FlowStatement::Let { expression, .. } => seq![expression],
        FlowStatement::Assignment { expression, .. } => seq![expression],
        FlowStatement::Return { expression } => match expression {
            Some(expression) => seq![expression],
            None => Seq::empty(),
        },
        FlowStatement::If { branches, otherwise } => branch_trees(branches, 0) + match otherwise {
            Some(body) => block_trees(body, 0),
            None => Seq::empty(),
        },
        FlowStatement::While { condition, body } => seq![condition] + block_trees(body, 0),
    }
}

/// The trees of the branches from `index` on.
pub open spec fn branch_trees(branches: Seq<FlowBranch>, index: nat) -> Seq<Expression>
    decreases branches, branches.len() - index,
{
    if index >= branches.len() {
        Seq::empty()
    } else {
        seq![branches[index as int].condition] + block_trees(branches[index as int].body, 0) + branch_trees(
            branches,
            index + 1,
        )
    }
}

/// The number of statements from `index` on, those of nested blocks included.
pub open spec fn statement_count(statements: Seq<FlowStatement>, index: nat) -> nat
    decreases statements, statements.len() - index,
{
    if index >= statements.len() {
        0
    } else {
        1 + nested_count(statements[index as int]) + statement_count(statements, index + 1)
    }
}

/// The number of statements in the blocks of a statement.
pub open spec fn nested_count(statement: FlowStatement) -> nat
    decreases statement, 0nat,
{
    match statement {
        FlowStatement::If { branches, otherwise } => branch_count(branches, 0) + match otherwise {
            Some(body) => statement_count(body, 0),
            None => 0,
        },
        FlowStatement::While { body, .. } => statement_count(body, 0),
        _ => 0,
    }
}

/// The number of statements in the branches from `index` on.
pub open spec fn branch_count(branches: Seq<FlowBranch>, index: nat) -> nat
    decreases branches, branches.len() - index,
{
    if index >= branches.len() {
        0
    } else {
        statement_count(branches[index as int].body, 0) + branch_count(branches, index + 1)
    }
}

/// The larger of two numbers.
pub open spec fn larger(left: nat, right: nat) -> nat {
    if left > right {
        left
    } else {
        right
    }
}

/// The number of levels of blocks of a block, itself included.
pub open spec fn block_levels(statements: Seq<FlowStatement>) -> nat
    decreases statements, statements.len() + 1,
{
    1 + inner_levels(statements, 0)
}

/// The number of levels of the deepest block in the statements from `index` on.
pub open spec fn inner_levels(statements: Seq<FlowStatement>, index: nat) -> nat
    decreases statements, statements.len() - index,
{
    if index >= statements.len() {
        0
    } else {
        larger(statement_levels(statements[index as int]), inner_levels(statements, index + 1))
    }
}

/// The number of levels of the deepest block of a statement.
pub open spec fn statement_levels(statement: FlowStatement) -> nat
    decreases statement, 0nat,
{
    match statement {
        FlowStatement::If { branches, otherwise } => larger(
            branch_levels(branches, 0),
            match otherwise {
                Some(body) => block_levels(body),
                None => 0,
            },
        ),
        FlowStatement::While { body, .. } => block_levels(body),
        _ => 0,
    }
}

/// The number of levels of the deepest block in the branches from `index` on.
pub open spec fn branch_levels(branches: Seq<FlowBranch>, index: nat) -> nat
    decreases branches, branches.len() - index,
{
    if index >= branches.len() {
        0
    } else {
        larger(block_levels(branches[index as int].body), branch_levels(branches, index + 1))
    }
}

/// Tells whether every IF in the statements from `index` on, those of nested
/// blocks included, has a branch and no more than it may have.
pub open spec fn ifs_bounded(statements: Seq<FlowStatement>, index: nat) -> bool
    decreases statements, statements.len() - index,
{
    if index >= statements.len() {
        true
    } else {
        statement_ifs_bounded(statements[index as int]) && ifs_bounded(statements, index + 1)
    }
}

/// The same of a statement.
pub open spec fn statement_ifs_bounded(statement: FlowStatement) -> bool
    decreases statement, 0nat,
{
    match statement {
        FlowStatement::If { branches, otherwise } => {
            &&& 1 <= branches.len() <= MAX_CONTROL_FLOW_BRANCHES
            &&& branch_ifs_bounded(branches, 0)
            &&& match otherwise {
                Some(body) => ifs_bounded(body, 0),
                None => true,
            }
        },
        FlowStatement::While { body, .. } => ifs_bounded(body, 0),
        _ => true,
    }
}

/// The same of the branches from `index` on.
pub open spec fn branch_ifs_bounded(branches: Seq<FlowBranch>, index: nat) -> bool
    decreases branches, branches.len() - index,
{
    if index >= branches.len() {
        true
    } else {
        ifs_bounded(branches[index as int].body, 0) && branch_ifs_bounded(branches, index + 1)
    }
}

/// Tells whether trees of a programmable plan lead from one tally to another.
pub open spec fn trees_lead(trees: Seq<Expression>, before: Tally, behind: Tally) -> bool {
    all_admitted(trees, 0, EXPRESSION_LEVELS as nat, before, Grammar::programmable_set()) == Ok::<
        Tally,
        ClientPlanError,
    >(behind)
}

/// Tells whether `trees` and `count` statements lead from one tally to another.
pub open spec fn counts_lead(trees: Seq<Expression>, count: nat, before: FlowTally, behind: FlowTally) -> bool {
    &&& trees_lead(trees, before.trees, behind.trees)
    &&& behind.statements == before.statements + count
    &&& behind.statements <= MAX_CONTROL_FLOW_STATEMENTS
}

/// Behind a first list, the trees of two joined lists are those of the second.
proof fn lemma_second_list(first: Seq<Expression>, second: Seq<Expression>, index: nat, tally: Tally)
    ensures
        all_admitted(
            first + second,
            first.len() + index,
            EXPRESSION_LEVELS as nat,
            tally,
            Grammar::programmable_set(),
        ) == all_admitted(second, index, EXPRESSION_LEVELS as nat, tally, Grammar::programmable_set()),
    decreases second.len() - index,
{
    if index < second.len() {
        let tree = second[index as int];
        assert((first + second)[(first.len() + index) as int] == tree);
        if let Ok(behind) = admitted(tree, EXPRESSION_LEVELS as nat, tally, Grammar::programmable_set()) {
            lemma_second_list(first, second, index + 1, behind);
        }
    }
}

/// The trees of two joined lists are admitted where those of the first are, from
/// `index` on, and those of the second behind them.
proof fn lemma_lists_joined(
    first: Seq<Expression>,
    second: Seq<Expression>,
    index: nat,
    before: Tally,
    between: Tally,
    behind: Tally,
)
    requires
        index <= first.len(),
        all_admitted(first, index, EXPRESSION_LEVELS as nat, before, Grammar::programmable_set()) == Ok::<
            Tally,
            ClientPlanError,
        >(between),
        trees_lead(second, between, behind),
    ensures
        all_admitted(first + second, index, EXPRESSION_LEVELS as nat, before, Grammar::programmable_set()) == Ok::<
            Tally,
            ClientPlanError,
        >(behind),
    decreases first.len() - index,
{
    if index < first.len() {
        let tree = first[index as int];
        assert((first + second)[index as int] == tree);
        let next = admitted(tree, EXPRESSION_LEVELS as nat, before, Grammar::programmable_set())->Ok_0;
        lemma_lists_joined(first, second, index + 1, next, between, behind);
    } else {
        lemma_second_list(first, second, 0, before);
    }
}

/// An admitted tree leads to the tally behind it.
proof fn lemma_tree_leads(expression: Expression, tally: FlowTally)
    requires
        tree_admitted(expression, tally) is Ok,
    ensures
        trees_lead(seq![expression], tally.trees, tree_admitted(expression, tally)->Ok_0.trees),
        tree_admitted(expression, tally)->Ok_0.statements == tally.statements,
{
    let behind = tree_admitted(expression, tally)->Ok_0.trees;
    assert(all_admitted(seq![expression], 1, EXPRESSION_LEVELS as nat, behind, Grammar::programmable_set()) == Ok::<
        Tally,
        ClientPlanError,
    >(behind));
}

/// An admitted block keeps its levels and the limit of branches, and leads to
/// the tally behind it.
pub proof fn lemma_block_bounded(statements: Seq<FlowStatement>, levels: nat, tally: FlowTally)
    requires
        block_admitted(statements, levels, tally) is Ok,
        tally.statements <= MAX_CONTROL_FLOW_STATEMENTS,
    ensures
        block_levels(statements) <= levels,
        ifs_bounded(statements, 0),
        counts_lead(
            block_trees(statements, 0),
            statement_count(statements, 0),
            tally,
            block_admitted(statements, levels, tally)->Ok_0,
        ),
    decreases levels, 0nat, 0nat,
{
    lemma_statements_bounded(statements, 0, (levels - 1) as nat, tally);
}

/// The same of the statements from `index` on.
proof fn lemma_statements_bounded(statements: Seq<FlowStatement>, index: nat, levels: nat, tally: FlowTally)
    requires
        flow_statements_admitted(statements, index, levels, tally) is Ok,
        tally.statements <= MAX_CONTROL_FLOW_STATEMENTS,
    ensures
        inner_levels(statements, index) <= levels,
        ifs_bounded(statements, index),
        counts_lead(
            block_trees(statements, index),
            statement_count(statements, index),
            tally,
            flow_statements_admitted(statements, index, levels, tally)->Ok_0,
        ),
    decreases levels, 3nat, statements.len() - index,
{
    if index < statements.len() {
        let statement = statements[index as int];
        lemma_statement_bounded(statement, levels, tally.with_statement());
        let between = flow_statement_admitted(statement, levels, tally.with_statement())->Ok_0;
        lemma_statements_bounded(statements, index + 1, levels, between);
        let behind = flow_statements_admitted(statements, index + 1, levels, between)->Ok_0;
        lemma_lists_joined(
            statement_trees(statement),
            block_trees(statements, index + 1),
            0,
            tally.trees,
            between.trees,
            behind.trees,
        );
    }
}

/// The same of one counted statement.
proof fn lemma_statement_bounded(statement: FlowStatement, levels: nat, tally: FlowTally)
    requires
        flow_statement_admitted(statement, levels, tally) is Ok,
        tally.statements <= MAX_CONTROL_FLOW_STATEMENTS,
    ensures
        statement_levels(statement) <= levels,
        statement_ifs_bounded(statement),
        counts_lead(
            statement_trees(statement),
            nested_count(statement),
            tally,
            flow_statement_admitted(statement, levels, tally)->Ok_0,
        ),
    decreases levels, 2nat, 0nat,
{
    match statement {
        FlowStatement::Let { expression, .. } => {
            lemma_tree_leads(expression, tally);
        },
        FlowStatement::Assignment { expression, .. } => {
            lemma_tree_leads(expression, tally);
        },
        FlowStatement::Return { expression } => {
            if let Some(expression) = expression {
                lemma_tree_leads(expression, tally);
            }
        },
        FlowStatement::If { branches, otherwise } => {
            lemma_branches_bounded(branches, 0, levels, tally);
            let between = branches_admitted(branches, 0, levels, tally)->Ok_0;
            if let Some(body) = otherwise {
                lemma_block_bounded(body, levels, between);
                let behind = block_admitted(body, levels, between)->Ok_0;
                lemma_lists_joined(
                    branch_trees(branches, 0),
                    block_trees(body, 0),
                    0,
                    tally.trees,
                    between.trees,
                    behind.trees,
                );
            } else {
                assert(statement_trees(statement) =~= branch_trees(branches, 0));
            }
        },
        FlowStatement::While { condition, body } => {
            lemma_tree_leads(condition, tally);
            let between = tree_admitted(condition, tally)->Ok_0;
            lemma_block_bounded(body, levels, between);
            let behind = block_admitted(body, levels, between)->Ok_0;
            lemma_lists_joined(
                seq![condition],
                block_trees(body, 0),
                0,
                tally.trees,
                between.trees,
                behind.trees,
            );
        },
    }
}

/// The same of the branches from `index` on.
proof fn lemma_branches_bounded(branches: Seq<FlowBranch>, index: nat, levels: nat, tally: FlowTally)
    requires
        branches_admitted(branches, index, levels, tally) is Ok,
        tally.statements <= MAX_CONTROL_FLOW_STATEMENTS,
    ensures
        branch_levels(branches, index) <= levels,
        branch_ifs_bounded(branches, index),
        counts_lead(
            branch_trees(branches, index),
            branch_count(branches, index),
            tally,
            branches_admitted(branches, index, levels, tally)->Ok_0,
        ),
    decreases levels, 1nat, branches.len() - index,
{
    if index < branches.len() {
        let branch = branches[index as int];
        lemma_tree_leads(branch.condition, tally);
        let entry = tree_admitted(branch.condition, tally)->Ok_0;
        lemma_block_bounded(branch.body, levels, entry);
        let between = block_admitted(branch.body, levels, entry)->Ok_0;
        lemma_branches_bounded(branches, index + 1, levels, between);
        let behind = branches_admitted(branches, index + 1, levels, between)->Ok_0;
        let body = block_trees(branch.body, 0);
        lemma_lists_joined(seq![branch.condition], body, 0, tally.trees, entry.trees, between.trees);
        lemma_lists_joined(
            seq![branch.condition] + body,
            branch_trees(branches, index + 1),
            0,
            tally.trees,
            between.trees,
            behind.trees,
        );
    }
}

/// The trees of a decoded programmable plan, those of nested blocks included,
/// are bounded each and together.
pub proof fn law_decoded_flow_trees_bounded(bytes: Seq<u8>)
    requires
        decoded_flow_plan(bytes) is Ok,
    ensures
        trees_bounded(block_trees(decoded_flow_plan(bytes)->Ok_0.statements, 0), Grammar::programmable_set()),
{
    let plan = decoded_flow_plan(bytes)->Ok_0;
    law_flow_plan_canonical(bytes);
    lemma_block_bounded(plan.statements, BLOCK_LEVELS as nat, FlowTally::zero());
    law_admitted_trees_bounded(block_trees(plan.statements, 0), Grammar::programmable_set());
}

/// The body of a decoded programmable plan is bounded as a whole: in its
/// statements, those of nested blocks included, in its levels of blocks, the
/// root included, and in the branches of every IF. So are its locals.
pub proof fn law_decoded_flow_body_bounded(bytes: Seq<u8>)
    requires
        decoded_flow_plan(bytes) is Ok,
    ensures
        statement_count(decoded_flow_plan(bytes)->Ok_0.statements, 0) <= MAX_CONTROL_FLOW_STATEMENTS,
        block_levels(decoded_flow_plan(bytes)->Ok_0.statements) <= MAX_CONTROL_FLOW_BLOCK_DEPTH + 1,
        ifs_bounded(decoded_flow_plan(bytes)->Ok_0.statements, 0),
        decoded_flow_plan(bytes)->Ok_0.locals.len() <= MAX_CONTROL_FLOW_LOCALS,
{
    let plan = decoded_flow_plan(bytes)->Ok_0;
    law_flow_plan_canonical(bytes);
    lemma_block_bounded(plan.statements, BLOCK_LEVELS as nat, FlowTally::zero());
}

} // verus!
