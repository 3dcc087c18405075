//! The canonical encoding of programmable blocks.

use vstd::prelude::*;

use crate::artifact_codec::{lemma_identity_read, lemma_u32_read, lemma_u8_read};
use crate::artifact_codec::{lemma_read_identity, lemma_read_u32, lemma_read_u8};
use crate::artifact_codec::{read_identity, read_u32, read_u8, u32_bytes, Reader, Writer};
use crate::client_plan::control_flow::{
    block_of, branches_of, lemma_block_of, lemma_branches_of, ControlFlowIfBranch, ControlFlowIfStatement,
    ControlFlowReturnStatement, ControlFlowStatement, ControlFlowWhileStatement, FlowBranch, FlowStatement,
};
use crate::client_plan::error::ClientPlanError;
use crate::client_plan::expression::{ClientExpressionNode, Expression};
use crate::client_plan::grammar::{admit_node, admitted, Grammar, Tally};
use crate::client_plan::header::{take_identity, take_u32, take_u8};
use crate::client_plan::node_codec::{node_then, parsed_node};
use crate::client_plan::node_decode::decode_node;
use crate::client_plan::node_encode::{lemma_node_then, put_node};
use crate::client_plan::node_laws::{law_node_canonical, law_node_round_trip};
use crate::client_plan::placement::{counted, EXPRESSION_LEVELS};
use crate::client_plan::{
    CONTROL_FLOW_ELSE_BODY, CONTROL_FLOW_ELSE_NONE, CONTROL_FLOW_RETURN_EXPRESSION, CONTROL_FLOW_RETURN_NONE,
    CONTROL_FLOW_STATEMENT_ASSIGNMENT, CONTROL_FLOW_STATEMENT_IF, CONTROL_FLOW_STATEMENT_LET,
    CONTROL_FLOW_STATEMENT_RETURN, CONTROL_FLOW_STATEMENT_WHILE, MAX_CONTROL_FLOW_BLOCK_DEPTH,
    MAX_CONTROL_FLOW_BRANCHES, MAX_CONTROL_FLOW_STATEMENTS,
};
use crate::identity::{identity_bytes, LocalId};

verus! {

/// The number of levels that nested blocks may have.
pub const BLOCK_LEVELS: usize = MAX_CONTROL_FLOW_BLOCK_DEPTH + 1;

/// Counts of what a programmable plan holds so far.
#[derive(Clone, Copy, Debug, PartialEq, Eq, Structural)]
pub struct FlowTally {
    /// Nodes and resource operations.
    pub trees: Tally,
    /// Statements of all blocks.
    pub statements: usize,
}

impl FlowTally {
    /// Nothing counted.
    pub open spec fn zero() -> FlowTally {
        FlowTally { trees: Tally::zero(), statements: 0 }
    }

    /// This tally after one more statement.
    pub open spec fn with_statement(self) -> FlowTally {
        FlowTally { trees: self.trees, statements: counted(self.statements) }
    }

    /// This tally with other counts of nodes.
    pub open spec fn with_trees(self, trees: Tally) -> FlowTally {
        FlowTally { trees, statements: self.statements }
    }

    /// Starts counting.
    pub fn new() -> (tally: FlowTally)
        ensures
            tally == FlowTally::zero(),
    {
        FlowTally { trees: Tally::new(), statements: 0 }
    }

    /// Counts one more statement.
    fn count_statement(self) -> (result: Result<FlowTally, ClientPlanError>)
        ensures
            result == if self.with_statement().statements > MAX_CONTROL_FLOW_STATEMENTS {
                Err::<FlowTally, ClientPlanError>(
                    ClientPlanError::ControlFlowStatementLimitExceeded { limit: MAX_CONTROL_FLOW_STATEMENTS },
                )
            } else {
                Ok(self.with_statement())
            },
    {
        let statements: usize = self.statements.saturating_add(1);
        if statements > MAX_CONTROL_FLOW_STATEMENTS {
            return Err(ClientPlanError::ControlFlowStatementLimitExceeded { limit: MAX_CONTROL_FLOW_STATEMENTS });
        }
        Ok(FlowTally { trees: self.trees, statements })
    }
}

/// The tally behind a tree.
pub open spec fn tree_admitted(expression: Expression, tally: FlowTally) -> Result<FlowTally, ClientPlanError> {
    match admitted(expression, EXPRESSION_LEVELS as nat, tally.trees, Grammar::programmable_set()) {
        Err(error) => Err(error),
        Ok(trees) => Ok(tally.with_trees(trees)),
    }
}

/// The tally behind a block with at most `levels` levels of blocks, or the first
/// violation in encoding order.
pub open spec fn block_admitted(statements: Seq<FlowStatement>, levels: nat, tally: FlowTally) -> Result<
    FlowTally,
    ClientPlanError,
>
    decreases levels, 0nat, 0nat,
{
    if levels == 0 {
        Err(ClientPlanError::ControlFlowBlockDepthExceeded)
    } else if statements.len() > MAX_CONTROL_FLOW_STATEMENTS {
        Err(ClientPlanError::ControlFlowStatementLimitExceeded { limit: MAX_CONTROL_FLOW_STATEMENTS })
    } else {
        flow_statements_admitted(statements, 0, (levels - 1) as nat, tally)
    }
}

/// The tally behind the statements from `index` on.
pub open spec fn flow_statements_admitted(
    statements: Seq<FlowStatement>,
    index: nat,
    levels: nat,
    tally: FlowTally,
) -> Result<FlowTally, ClientPlanError>
    decreases levels, 3nat, statements.len() - index,
{
    if index >= statements.len() {
        Ok(tally)
    } else if tally.with_statement().statements > MAX_CONTROL_FLOW_STATEMENTS {
        Err(ClientPlanError::ControlFlowStatementLimitExceeded { limit: MAX_CONTROL_FLOW_STATEMENTS })
    } else {
        match flow_statement_admitted(statements[index as int], levels, tally.with_statement()) {
            Err(error) => Err(error),
            Ok(tally) => flow_statements_admitted(statements, index + 1, levels, tally),
        }
    }
}

/// The tally behind a counted statement.
pub open spec fn flow_statement_admitted(statement: FlowStatement, levels: nat, tally: FlowTally) -> Result<
    FlowTally,
    ClientPlanError,
>
    decreases levels, 2nat, 0nat,
{
    match statement {
        FlowStatement::Let { expression, .. } => tree_admitted(expression, tally),
        FlowStatement::Assignment { expression, .. } => tree_admitted(expression, tally),
        FlowStatement::Return { expression } => match expression {
            None => Ok(tally),
            Some(expression) => tree_admitted(expression, tally),
        },
        FlowStatement::If { branches, otherwise } => if branches.len() == 0 {
            Err(ClientPlanError::InvalidControlFlowBranchCount { actual: 0 })
        } else if branches.len() > MAX_CONTROL_FLOW_BRANCHES {
            Err(ClientPlanError::ControlFlowBranchLimitExceeded { limit: MAX_CONTROL_FLOW_BRANCHES })
        } else {
            match branches_admitted(branches, 0, levels, tally) {
                Err(error) => Err(error),
                Ok(tally) => match otherwise {
                    None => Ok(tally),
                    Some(body) => block_admitted(body, levels, tally),
                },
            }
        },
        FlowStatement::While { condition, body } => match tree_admitted(condition, tally) {
            Err(error) => Err(error),
            Ok(tally) => block_admitted(body, levels, tally),
        },
    }
}

/// The tally behind the branches from `index` on.
pub open spec fn branches_admitted(branches: Seq<FlowBranch>, index: nat, levels: nat, tally: FlowTally) -> Result<
    FlowTally,
    ClientPlanError,
>
    decreases levels, 1nat, branches.len() - index,
{
    if index >= branches.len() {
        Ok(tally)
    } else {
        match tree_admitted(branches[index as int].condition, tally) {
            Err(error) => Err(error),
            Ok(tally) => match block_admitted(branches[index as int].body, levels, tally) {
                Err(error) => Err(error),
                Ok(tally) => branches_admitted(branches, index + 1, levels, tally),
            },
        }
    }
}

/// A block in front of `rest`.
pub open spec fn block_then(statements: Seq<FlowStatement>, rest: Seq<u8>) -> Seq<u8>
    decreases statements, statements.len() + 1,
{
    u32_bytes(statements.len() as u32) + flow_statements_then(statements, 0, rest)
}

/// The statements from `index` on in front of `rest`.
pub open spec fn flow_statements_then(statements: Seq<FlowStatement>, index: nat, rest: Seq<u8>) -> Seq<u8>
    decreases statements, statements.len() - index,
{
    if index >= statements.len() {
        rest
    } else {
        flow_statement_then(statements[index as int], flow_statements_then(statements, index + 1, rest))
    }
}

/// A statement in front of `rest`.
pub open spec fn flow_statement_then(statement: FlowStatement, rest: Seq<u8>) -> Seq<u8>
    decreases statement, 0nat,
{
    match statement {
        FlowStatement::Let { local, expression } => seq![CONTROL_FLOW_STATEMENT_LET] + (identity_bytes(local.0)
            + node_then(expression, rest)),
        FlowStatement::Assignment { local, expression } => seq![CONTROL_FLOW_STATEMENT_ASSIGNMENT] + (identity_bytes(
            local.0,
        ) + node_then(expression, rest)),
        FlowStatement::Return { expression } => seq![CONTROL_FLOW_STATEMENT_RETURN] + match expression {
            None => seq![CONTROL_FLOW_RETURN_NONE] + rest,
            Some(expression) => seq![CONTROL_FLOW_RETURN_EXPRESSION] + node_then(expression, rest),
        },
        FlowStatement::If { branches, otherwise } => seq![CONTROL_FLOW_STATEMENT_IF] + (u32_bytes(
            branches.len() as u32,
        ) + branches_then(
            branches,
            0,
            match otherwise {
                None => seq![CONTROL_FLOW_ELSE_NONE] + rest,
                Some(body) => seq![CONTROL_FLOW_ELSE_BODY] + block_then(body, rest),
            },
        )),
        FlowStatement::While { condition, body } => seq![CONTROL_FLOW_STATEMENT_WHILE] + node_then(
            condition,
            block_then(body, rest),
        ),
    }
}

/// The branches from `index` on in front of `rest`.
pub open spec fn branches_then(branches: Seq<FlowBranch>, index: nat, rest: Seq<u8>) -> Seq<u8>
    decreases branches, branches.len() - index,
{
    if index >= branches.len() {
        rest
    } else {
        node_then(
            branches[index as int].condition,
            block_then(branches[index as int].body, branches_then(branches, index + 1, rest)),
        )
    }
}

/// What was read, what follows it, and the tally behind it.
pub type ParsedFlow<T> = Result<(T, Seq<u8>, FlowTally), ClientPlanError>;

/// A tree of a programmable plan.
pub open spec fn parsed_tree(input: Seq<u8>, tally: FlowTally) -> ParsedFlow<Expression> {
    match parsed_node(input, EXPRESSION_LEVELS as nat, tally.trees, Grammar::programmable_set()) {
        Err(error) => Err(error),
        Ok((expression, rest, trees)) => Ok((expression, rest, tally.with_trees(trees))),
    }
}

/// A block with at most `levels` levels of blocks.
pub open spec fn parsed_block(input: Seq<u8>, levels: nat, tally: FlowTally) -> ParsedFlow<Seq<FlowStatement>>
    decreases levels, 0nat, 0nat,
{
    if levels == 0 {
        Err(ClientPlanError::ControlFlowBlockDepthExceeded)
    } else {
        match read_u32(input) {
            None => Err(ClientPlanError::Truncated),
            Some((count, rest)) => if count > MAX_CONTROL_FLOW_STATEMENTS {
                Err(ClientPlanError::ControlFlowStatementLimitExceeded { limit: MAX_CONTROL_FLOW_STATEMENTS })
            } else {
                parsed_flow_statements(rest, Seq::empty(), count as nat, (levels - 1) as nat, tally)
            },
        }
    }
}

/// Statements up to `total`, the first of which are `done`.
pub open spec fn parsed_flow_statements(
    input: Seq<u8>,
    done: Seq<FlowStatement>,
    total: nat,
    levels: nat,
    tally: FlowTally,
) -> ParsedFlow<Seq<FlowStatement>>
    decreases levels, 4nat, total - done.len(),
{
    if done.len() >= total {
        Ok((done, input, tally))
    } else if tally.with_statement().statements > MAX_CONTROL_FLOW_STATEMENTS {
        Err(ClientPlanError::ControlFlowStatementLimitExceeded { limit: MAX_CONTROL_FLOW_STATEMENTS })
    } else {
        match parsed_flow_statement(input, levels, tally.with_statement()) {
            Err(error) => Err(error),
            Ok((statement, rest, tally)) => parsed_flow_statements(rest, done.push(statement), total, levels, tally),
        }
    }
}

/// A counted statement whose blocks have at most `levels` levels.
pub open spec fn parsed_flow_statement(input: Seq<u8>, levels: nat, tally: FlowTally) -> ParsedFlow<FlowStatement>
    decreases levels, 3nat, 0nat,
{
    match read_u8(input) {
        None => Err(ClientPlanError::Truncated),
        Some((tag, rest)) => if tag == CONTROL_FLOW_STATEMENT_LET || tag == CONTROL_FLOW_STATEMENT_ASSIGNMENT {
            match read_identity(rest) {
                None => Err(ClientPlanError::Truncated),
                Some((local, rest)) => match parsed_tree(rest, tally) {
                    Err(error) => Err(error),
                    Ok((expression, rest, tally)) => Ok(
                        (
                            if tag == CONTROL_FLOW_STATEMENT_LET {
                                FlowStatement::Let { local: LocalId(local), expression }
                            } else {
                                FlowStatement::Assignment { local: LocalId(local), expression }
                            },
                            rest,
                            tally,
                        ),
                    ),
                },
            }
        } else if tag == CONTROL_FLOW_STATEMENT_RETURN {
            parsed_return(rest, tally)
        } else if tag == CONTROL_FLOW_STATEMENT_IF {
            parsed_if(rest, levels, tally)
        } else if tag == CONTROL_FLOW_STATEMENT_WHILE {
            match parsed_tree(rest, tally) {
                Err(error) => Err(error),
                Ok((condition, rest, tally)) => match parsed_block(rest, levels, tally) {
                    Err(error) => Err(error),
                    Ok((body, rest, tally)) => Ok((FlowStatement::While { condition, body }, rest, tally)),
                },
            }
        } else {
            Err(ClientPlanError::InvalidControlFlowStatement(tag))
        },
    }
}

/// A `RETURN` behind its tag.
pub open spec fn parsed_return(input: Seq<u8>, tally: FlowTally) -> ParsedFlow<FlowStatement> {
    match read_u8(input) {
        None => Err(ClientPlanError::Truncated),
        Some((tag, rest)) => if tag == CONTROL_FLOW_RETURN_NONE {
            Ok((FlowStatement::Return { expression: None }, rest, tally))
        } else if tag == CONTROL_FLOW_RETURN_EXPRESSION {
            match parsed_tree(rest, tally) {
                Err(error) => Err(error),
                Ok((expression, rest, tally)) => Ok(
                    (FlowStatement::Return { expression: Some(expression) }, rest, tally),
                ),
            }
        } else {
            Err(ClientPlanError::InvalidControlFlowReturnTag(tag))
        },
    }
}

/// An `IF` behind its tag.
pub open spec fn parsed_if(input: Seq<u8>, levels: nat, tally: FlowTally) -> ParsedFlow<FlowStatement>
    decreases levels, 2nat, 0nat,
{
    match read_u32(input) {
        None => Err(ClientPlanError::Truncated),
        Some((count, rest)) => if count == 0 {
            Err(ClientPlanError::InvalidControlFlowBranchCount { actual: 0 })
        } else if count > MAX_CONTROL_FLOW_BRANCHES {
            Err(ClientPlanError::ControlFlowBranchLimitExceeded { limit: MAX_CONTROL_FLOW_BRANCHES })
        } else {
            match parsed_branches(rest, Seq::empty(), count as nat, levels, tally) {
                Err(error) => Err(error),
                Ok((branches, rest, tally)) => match read_u8(rest) {
                    None => Err(ClientPlanError::Truncated),
                    Some((tag, rest)) => if tag == CONTROL_FLOW_ELSE_NONE {
                        Ok((FlowStatement::If { branches, otherwise: None }, rest, tally))
                    } else if tag == CONTROL_FLOW_ELSE_BODY {
                        match parsed_block(rest, levels, tally) {
                            Err(error) => Err(error),
                            Ok((body, rest, tally)) => Ok(
                                (FlowStatement::If { branches, otherwise: Some(body) }, rest, tally),
                            ),
                        }
                    } else {
                        Err(ClientPlanError::InvalidControlFlowElseTag(tag))
                    },
                },
            }
        },
    }
}

/// Branches up to `total`, the first of which are `done`.
pub open spec fn parsed_branches(
    input: Seq<u8>,
    done: Seq<FlowBranch>,
    total: nat,
    levels: nat,
    tally: FlowTally,
) -> ParsedFlow<Seq<FlowBranch>>
    decreases levels, 1nat, total - done.len(),
{
    if done.len() >= total {
        Ok((done, input, tally))
    } else {
        match parsed_tree(input, tally) {
            Err(error) => Err(error),
            Ok((condition, rest, tally)) => match parsed_block(rest, levels, tally) {
                Err(error) => Err(error),
                Ok((body, rest, tally)) => parsed_branches(
                    rest,
                    done.push(FlowBranch { condition, body }),
                    total,
                    levels,
                    tally,
                ),
            },
        }
    }
}

/// An admitted tree is read back.
proof fn lemma_tree_round_trip(expression: Expression, tally: FlowTally, rest: Seq<u8>)
    requires
        tree_admitted(expression, tally) is Ok,
    ensures
        parsed_tree(node_then(expression, rest), tally) == Ok::<(Expression, Seq<u8>, FlowTally), ClientPlanError>(
            (expression, rest, tree_admitted(expression, tally)->Ok_0),
        ),
{
    law_node_round_trip(expression, EXPRESSION_LEVELS as nat, tally.trees, Grammar::programmable_set(), rest);
}

/// What a tree was read from.
proof fn lemma_tree_canonical(input: Seq<u8>, tally: FlowTally)
    ensures
        parsed_tree(input, tally) matches Ok((expression, rest, behind)) ==> {
            &&& input == node_then(expression, rest)
            &&& tree_admitted(expression, tally) == Ok::<FlowTally, ClientPlanError>(behind)
        },
{
    law_node_canonical(input, EXPRESSION_LEVELS as nat, tally.trees, Grammar::programmable_set());
}

/// An admitted block is read back.
pub proof fn law_block_round_trip(statements: Seq<FlowStatement>, levels: nat, tally: FlowTally, rest: Seq<u8>)
    requires
        block_admitted(statements, levels, tally) is Ok,
    ensures
        parsed_block(block_then(statements, rest), levels, tally) == Ok::<
            (Seq<FlowStatement>, Seq<u8>, FlowTally),
            ClientPlanError,
        >((statements, rest, block_admitted(statements, levels, tally)->Ok_0)),
    decreases levels, 0nat, 0nat,
{
    let list = flow_statements_then(statements, 0, rest);
    lemma_read_u32(statements.len() as u32, list);
    lemma_flow_statements_round_trip(statements, 0, (levels - 1) as nat, tally, rest);
    assert(statements.take(0) =~= Seq::empty());
}

/// Admitted statements are read back.
proof fn lemma_flow_statements_round_trip(
    statements: Seq<FlowStatement>,
    index: nat,
    levels: nat,
    tally: FlowTally,
    rest: Seq<u8>,
)
    requires
        index <= statements.len(),
        flow_statements_admitted(statements, index, levels, tally) is Ok,
    ensures
        parsed_flow_statements(
            flow_statements_then(statements, index, rest),
            statements.take(index as int),
            statements.len(),
            levels,
            tally,
        ) == Ok::<(Seq<FlowStatement>, Seq<u8>, FlowTally), ClientPlanError>(
            (statements, rest, flow_statements_admitted(statements, index, levels, tally)->Ok_0),
        ),
    decreases levels, 3nat, statements.len() - index,
{
    let done = statements.take(index as int);
    if index < statements.len() {
        let statement = statements[index as int];
        let later = flow_statements_then(statements, index + 1, rest);
        lemma_flow_statement_round_trip(statement, levels, tally.with_statement(), later);
        let behind = flow_statement_admitted(statement, levels, tally.with_statement())->Ok_0;
        lemma_flow_statements_round_trip(statements, index + 1, levels, behind, rest);
        assert(done.push(statement) =~= statements.take((index + 1) as int));
    } else {
        assert(done =~= statements);
    }
}

/// An admitted statement is read back.
proof fn lemma_flow_statement_round_trip(statement: FlowStatement, levels: nat, tally: FlowTally, rest: Seq<u8>)
    requires
        flow_statement_admitted(statement, levels, tally) is Ok,
    ensures
        parsed_flow_statement(flow_statement_then(statement, rest), levels, tally) == Ok::<
            (FlowStatement, Seq<u8>, FlowTally),
            ClientPlanError,
        >((statement, rest, flow_statement_admitted(statement, levels, tally)->Ok_0)),
    decreases levels, 2nat, 0nat,
{
    match statement {
        FlowStatement::Let { local, expression } => {
            let encoded = node_then(expression, rest);
            lemma_read_u8(CONTROL_FLOW_STATEMENT_LET, identity_bytes(local.0) + encoded);
            lemma_read_identity(local.0, encoded);
            lemma_tree_round_trip(expression, tally, rest);
        },
        FlowStatement::Assignment { local, expression } => {
            let encoded = node_then(expression, rest);
            lemma_read_u8(CONTROL_FLOW_STATEMENT_ASSIGNMENT, identity_bytes(local.0) + encoded);
            lemma_read_identity(local.0, encoded);
            lemma_tree_round_trip(expression, tally, rest);
        },
        FlowStatement::Return { expression } => match expression {
            None => {
                lemma_read_u8(CONTROL_FLOW_STATEMENT_RETURN, seq![CONTROL_FLOW_RETURN_NONE] + rest);
                lemma_read_u8(CONTROL_FLOW_RETURN_NONE, rest);
            },
            Some(expression) => {
                let encoded = node_then(expression, rest);
                lemma_read_u8(CONTROL_FLOW_STATEMENT_RETURN, seq![CONTROL_FLOW_RETURN_EXPRESSION] + encoded);
                lemma_read_u8(CONTROL_FLOW_RETURN_EXPRESSION, encoded);
                lemma_tree_round_trip(expression, tally, rest);
            },
        },
        FlowStatement::If { branches, otherwise } => {
            let last = match otherwise {
                None => seq![CONTROL_FLOW_ELSE_NONE] + rest,
                Some(body) => seq![CONTROL_FLOW_ELSE_BODY] + block_then(body, rest),
            };
            let count = branches.len() as u32;
            let list = branches_then(branches, 0, last);
            lemma_read_u8(CONTROL_FLOW_STATEMENT_IF, u32_bytes(count) + list);
            lemma_read_u32(count, list);
            lemma_branches_round_trip(branches, 0, levels, tally, last);
            assert(branches.take(0) =~= Seq::empty());
            let behind = branches_admitted(branches, 0, levels, tally)->Ok_0;
            match otherwise {
                None => lemma_read_u8(CONTROL_FLOW_ELSE_NONE, rest),
                Some(body) => {
                    lemma_read_u8(CONTROL_FLOW_ELSE_BODY, block_then(body, rest));
                    law_block_round_trip(body, levels, behind, rest);
                },
            }
            assert(parsed_if(u32_bytes(count) + list, levels, tally) is Ok);
        },
        FlowStatement::While { condition, body } => {
            let encoded = block_then(body, rest);
            lemma_read_u8(CONTROL_FLOW_STATEMENT_WHILE, node_then(condition, encoded));
            lemma_tree_round_trip(condition, tally, encoded);
            let behind = tree_admitted(condition, tally)->Ok_0;
            law_block_round_trip(body, levels, behind, rest);
        },
    }
}

/// Admitted branches are read back.
proof fn lemma_branches_round_trip(
    branches: Seq<FlowBranch>,
    index: nat,
    levels: nat,
    tally: FlowTally,
    rest: Seq<u8>,
)
    requires
        index <= branches.len(),
        branches_admitted(branches, index, levels, tally) is Ok,
    ensures
        parsed_branches(
            branches_then(branches, index, rest),
            branches.take(index as int),
            branches.len(),
            levels,
            tally,
        ) == Ok::<(Seq<FlowBranch>, Seq<u8>, FlowTally), ClientPlanError>(
            (branches, rest, branches_admitted(branches, index, levels, tally)->Ok_0),
        ),
    decreases levels, 1nat, branches.len() - index,
{
    let done = branches.take(index as int);
    if index < branches.len() {
        let branch = branches[index as int];
        let later = branches_then(branches, index + 1, rest);
        let encoded = block_then(branch.body, later);
        lemma_tree_round_trip(branch.condition, tally, encoded);
        let inside = tree_admitted(branch.condition, tally)->Ok_0;
        law_block_round_trip(branch.body, levels, inside, later);
        let behind = block_admitted(branch.body, levels, inside)->Ok_0;
        lemma_branches_round_trip(branches, index + 1, levels, behind, rest);
        assert(done.push(branch) =~= branches.take((index + 1) as int));
    } else {
        assert(done =~= branches);
    }
}

/// A block that was read is what stood at the front of the input, and the limits
/// admit it: every block has exactly one encoding.
pub proof fn law_block_canonical(input: Seq<u8>, levels: nat, tally: FlowTally)
    ensures
        parsed_block(input, levels, tally) matches Ok((statements, rest, behind)) ==> {
            &&& input == block_then(statements, rest)
            &&& block_admitted(statements, levels, tally) == Ok::<FlowTally, ClientPlanError>(behind)
        },
    decreases levels, 0nat, 0nat,
{
    if parsed_block(input, levels, tally) is Ok {
        lemma_u32_read(input);
        let (count, list) = read_u32(input)->Some_0;
        lemma_flow_statements_canonical(list, Seq::empty(), count as nat, (levels - 1) as nat, tally);
    }
}

/// What statements were read from.
proof fn lemma_flow_statements_canonical(
    input: Seq<u8>,
    done: Seq<FlowStatement>,
    total: nat,
    levels: nat,
    tally: FlowTally,
)
    requires
        done.len() <= total,
    ensures
        parsed_flow_statements(input, done, total, levels, tally) matches Ok((statements, rest, behind)) ==> {
            &&& statements.len() == total
            &&& statements.take(done.len() as int) == done
            &&& input == flow_statements_then(statements, done.len(), rest)
            &&& flow_statements_admitted(statements, done.len(), levels, tally) == Ok::<FlowTally, ClientPlanError>(
                behind,
            )
        },
    decreases levels, 4nat, total - done.len(),
{
    if done.len() < total {
        if parsed_flow_statements(input, done, total, levels, tally) is Ok {
            lemma_flow_statement_canonical(input, levels, tally.with_statement());
            let (statement, later, behind) = parsed_flow_statement(input, levels, tally.with_statement())->Ok_0;
            let next = done.push(statement);
            lemma_flow_statements_canonical(later, next, total, levels, behind);
            let statements = parsed_flow_statements(later, next, total, levels, behind)->Ok_0.0;
            let position = done.len() as int;
            assert(statements[position] == statements.take(next.len() as int)[position]);
            assert(statements.take(position) =~= statements.take(next.len() as int).take(position));
            assert(next.take(position) =~= done);
        }
    } else {
        assert(done.take(done.len() as int) =~= done);
    }
}

/// What a statement was read from.
proof fn lemma_flow_statement_canonical(input: Seq<u8>, levels: nat, tally: FlowTally)
    ensures
        parsed_flow_statement(input, levels, tally) matches Ok((statement, rest, behind)) ==> {
            &&& input == flow_statement_then(statement, rest)
            &&& flow_statement_admitted(statement, levels, tally) == Ok::<FlowTally, ClientPlanError>(behind)
        },
    decreases levels, 3nat, 0nat,
{
    if parsed_flow_statement(input, levels, tally) is Ok {
        lemma_u8_read(input);
        let (tag, payload) = read_u8(input)->Some_0;
        if tag == CONTROL_FLOW_STATEMENT_LET || tag == CONTROL_FLOW_STATEMENT_ASSIGNMENT {
            lemma_identity_read(payload);
            lemma_tree_canonical(read_identity(payload)->Some_0.1, tally);
        } else if tag == CONTROL_FLOW_STATEMENT_RETURN {
            lemma_u8_read(payload);
            lemma_tree_canonical(read_u8(payload)->Some_0.1, tally);
        } else if tag == CONTROL_FLOW_STATEMENT_IF {
            lemma_if_canonical(payload, levels, tally);
        } else {
            lemma_tree_canonical(payload, tally);
            let (_, encoded, inside) = parsed_tree(payload, tally)->Ok_0;
            law_block_canonical(encoded, levels, inside);
        }
    }
}

/// What an `IF` was read from.
proof fn lemma_if_canonical(payload: Seq<u8>, levels: nat, tally: FlowTally)
    ensures
        parsed_if(payload, levels, tally) matches Ok((statement, rest, behind)) ==> {
            &&& statement is If
            &&& seq![CONTROL_FLOW_STATEMENT_IF] + payload == flow_statement_then(statement, rest)
            &&& flow_statement_admitted(statement, levels, tally) == Ok::<FlowTally, ClientPlanError>(behind)
        },
    decreases levels, 2nat, 0nat,
{
    if parsed_if(payload, levels, tally) is Ok {
        lemma_u32_read(payload);
        let (count, list) = read_u32(payload)->Some_0;
        lemma_branches_canonical(list, Seq::empty(), count as nat, levels, tally);
        let (_, last, inside) = parsed_branches(list, Seq::empty(), count as nat, levels, tally)->Ok_0;
        lemma_u8_read(last);
        let (tag, encoded) = read_u8(last)->Some_0;
        if tag == CONTROL_FLOW_ELSE_BODY {
            law_block_canonical(encoded, levels, inside);
        }
    }
}

/// What branches were read from.
proof fn lemma_branches_canonical(
    input: Seq<u8>,
    done: Seq<FlowBranch>,
    total: nat,
    levels: nat,
    tally: FlowTally,
)
    requires
        done.len() <= total,
    ensures
        parsed_branches(input, done, total, levels, tally) matches Ok((branches, rest, behind)) ==> {
            &&& branches.len() == total
            &&& branches.take(done.len() as int) == done
            &&& input == branches_then(branches, done.len(), rest)
            &&& branches_admitted(branches, done.len(), levels, tally) == Ok::<FlowTally, ClientPlanError>(behind)
        },
    decreases levels, 1nat, total - done.len(),
{
    if done.len() < total {
        if parsed_branches(input, done, total, levels, tally) is Ok {
            lemma_tree_canonical(input, tally);
            let (condition, encoded, inside) = parsed_tree(input, tally)->Ok_0;
            law_block_canonical(encoded, levels, inside);
            let (body, later, behind) = parsed_block(encoded, levels, inside)->Ok_0;
            let next = done.push(FlowBranch { condition, body });
            lemma_branches_canonical(later, next, total, levels, behind);
            let branches = parsed_branches(later, next, total, levels, behind)->Ok_0.0;
            let position = done.len() as int;
            assert(branches[position] == branches.take(next.len() as int)[position]);
            assert(branches.take(position) =~= branches.take(next.len() as int).take(position));
            assert(next.take(position) =~= done);
        }
    } else {
        assert(done.take(done.len() as int) =~= done);
    }
}

/// Refuses a tree outside the node set or the limits.
fn validate_tree(node: &ClientExpressionNode, tally: FlowTally) -> (result: Result<FlowTally, ClientPlanError>)
    ensures
        result == tree_admitted(node@, tally),
{
    let grammar = Grammar { resources: true, locals: true, inspect: true, programmable: true };
    let trees = admit_node(node, EXPRESSION_LEVELS, tally.trees, grammar)?;
    Ok(FlowTally { trees, statements: tally.statements })
}

/// Refuses a block outside the node set or the limits.
pub fn validate_block_trees(statements: &Vec<ControlFlowStatement>, levels: usize, tally: FlowTally) -> (result:
    Result<FlowTally, ClientPlanError>)
    ensures
        result == block_admitted(block_of(statements@), levels as nat, tally),
    decreases levels, 0nat,
{
    if levels == 0 {
        return Err(ClientPlanError::ControlFlowBlockDepthExceeded);
    }
    let ghost list = block_of(statements@);
    proof {
        lemma_block_of(statements@);
    }
    if statements.len() > MAX_CONTROL_FLOW_STATEMENTS {
        return Err(ClientPlanError::ControlFlowStatementLimitExceeded { limit: MAX_CONTROL_FLOW_STATEMENTS });
    }
    let mut behind = tally;
    let mut index: usize = 0;
    while index < statements.len()
        invariant
            levels > 0,
            index <= statements.len(),
            list == block_of(statements@),
            list.len() == statements.len(),
            block_admitted(list, levels as nat, tally) == flow_statements_admitted(
                list,
                index as nat,
                (levels - 1) as nat,
                behind,
            ),
        decreases statements.len() - index,
    {
        proof {
            lemma_block_of(statements@);
        }
        assert(list[index as int] == statements[index as int]@);
        let with_statement = behind.count_statement()?;
        behind = validate_statement_trees(&statements[index], levels - 1, with_statement)?;
        index = index + 1;
    }
    Ok(behind)
}

/// Refuses a statement outside the node set or the limits.
fn validate_statement_trees(statement: &ControlFlowStatement, levels: usize, tally: FlowTally) -> (result: Result<
    FlowTally,
    ClientPlanError,
>)
    ensures
        result == flow_statement_admitted(statement@, levels as nat, tally),
    decreases levels, 2nat,
{
    match statement {
        ControlFlowStatement::Let { expression, .. } => validate_tree(expression, tally),
        ControlFlowStatement::Assignment { expression, .. } => validate_tree(expression, tally),
        ControlFlowStatement::Return(returned) => match &returned.expression {
            None => Ok(tally),
            Some(expression) => validate_tree(expression, tally),
        },
        ControlFlowStatement::If(conditional) => {
            proof {
                lemma_branches_of(conditional.branches@);
            }
            if conditional.branches.len() == 0 {
                return Err(ClientPlanError::InvalidControlFlowBranchCount { actual: 0 });
            }
            if conditional.branches.len() > MAX_CONTROL_FLOW_BRANCHES {
                return Err(ClientPlanError::ControlFlowBranchLimitExceeded { limit: MAX_CONTROL_FLOW_BRANCHES });
            }
            let behind = validate_branch_trees(&conditional.branches, levels, tally)?;
            match &conditional.else_statements {
                None => Ok(behind),
                Some(body) => validate_block_trees(body, levels, behind),
            }
        },
        ControlFlowStatement::While(repeated) => {
            let inside = validate_tree(&repeated.condition, tally)?;
            validate_block_trees(&repeated.statements, levels, inside)
        },
    }
}

/// Refuses branches outside the node set or the limits.
fn validate_branch_trees(branches: &Vec<ControlFlowIfBranch>, levels: usize, tally: FlowTally) -> (result: Result<
    FlowTally,
    ClientPlanError,
>)
    ensures
        result == branches_admitted(branches_of(branches@), 0, levels as nat, tally),
    decreases levels, 1nat,
{
    let ghost list = branches_of(branches@);
    let mut behind = tally;
    let mut index: usize = 0;
    while index < branches.len()
        invariant
            index <= branches.len(),
            list == branches_of(branches@),
            list.len() == branches.len(),
            branches_admitted(list, 0, levels as nat, tally) == branches_admitted(
                list,
                index as nat,
                levels as nat,
                behind,
            ),
        decreases branches.len() - index,
    {
        proof {
            lemma_branches_of(branches@);
        }
        assert(list[index as int] == branches[index as int]@);
        let inside = validate_tree(&branches[index].condition, behind)?;
        behind = validate_block_trees(&branches[index].statements, levels, inside)?;
        index = index + 1;
    }
    Ok(behind)
}

/// An encoding in front of other bytes is the encoding followed by them.
proof fn lemma_block_then(statements: Seq<FlowStatement>, rest: Seq<u8>)
    ensures
        block_then(statements, rest) == block_then(statements, Seq::empty()) + rest,
    decreases statements, statements.len() + 1,
{
    lemma_flow_statements_then(statements, 0, rest);
    assert(block_then(statements, rest) =~= block_then(statements, Seq::empty()) + rest);
}

/// Encoded statements in front of other bytes are followed by them.
proof fn lemma_flow_statements_then(statements: Seq<FlowStatement>, index: nat, rest: Seq<u8>)
    ensures
        flow_statements_then(statements, index, rest) == flow_statements_then(statements, index, Seq::empty()) + rest,
    decreases statements, statements.len() - index,
{
    if index < statements.len() {
        let statement = statements[index as int];
        let none = Seq::<u8>::empty();
        lemma_flow_statements_then(statements, index + 1, rest);
        lemma_flow_statement_then(statement, flow_statements_then(statements, index + 1, rest));
        lemma_flow_statement_then(statement, flow_statements_then(statements, index + 1, none));
    }
    assert(flow_statements_then(statements, index, rest) =~= flow_statements_then(statements, index, Seq::empty())
        + rest);
}

/// An encoded statement in front of other bytes is followed by them.
proof fn lemma_flow_statement_then(statement: FlowStatement, rest: Seq<u8>)
    ensures
        flow_statement_then(statement, rest) == flow_statement_then(statement, Seq::empty()) + rest,
    decreases statement, 0nat,
{
    let none = Seq::<u8>::empty();
    match statement {
        FlowStatement::Let { expression, .. } => lemma_node_then(expression, rest),
        FlowStatement::Assignment { expression, .. } => lemma_node_then(expression, rest),
        FlowStatement::Return { expression } => {
            if let Some(expression) = expression {
                lemma_node_then(expression, rest);
            }
        },
        FlowStatement::If { branches, otherwise } => match otherwise {
            None => {
                lemma_branches_then(branches, 0, seq![CONTROL_FLOW_ELSE_NONE] + rest);
                lemma_branches_then(branches, 0, seq![CONTROL_FLOW_ELSE_NONE] + none);
            },
            Some(body) => {
                lemma_block_then(body, rest);
                lemma_branches_then(branches, 0, seq![CONTROL_FLOW_ELSE_BODY] + block_then(body, rest));
                lemma_branches_then(branches, 0, seq![CONTROL_FLOW_ELSE_BODY] + block_then(body, none));
            },
        },
        FlowStatement::While { condition, body } => {
            lemma_block_then(body, rest);
            lemma_node_then(condition, block_then(body, rest));
            lemma_node_then(condition, block_then(body, none));
        },
    }
    assert(flow_statement_then(statement, rest) =~= flow_statement_then(statement, none) + rest);
}

/// Encoded branches in front of other bytes are followed by them.
proof fn lemma_branches_then(branches: Seq<FlowBranch>, index: nat, rest: Seq<u8>)
    ensures
        branches_then(branches, index, rest) == branches_then(branches, index, Seq::empty()) + rest,
    decreases branches, branches.len() - index,
{
    if index < branches.len() {
        let branch = branches[index as int];
        let none = Seq::<u8>::empty();
        let later = branches_then(branches, index + 1, rest);
        let alone = branches_then(branches, index + 1, none);
        lemma_branches_then(branches, index + 1, rest);
        lemma_block_then(branch.body, later);
        lemma_block_then(branch.body, alone);
        lemma_node_then(branch.condition, block_then(branch.body, later));
        lemma_node_then(branch.condition, block_then(branch.body, alone));
    }
    assert(branches_then(branches, index, rest) =~= branches_then(branches, index, Seq::empty()) + rest);
}

/// Writes a block.
pub fn put_block(writer: &mut Writer, statements: &Vec<ControlFlowStatement>)
    ensures
        final(writer)@ == old(writer)@ + block_then(block_of(statements@), Seq::empty()),
    decreases statements,
{
    let ghost list = block_of(statements@);
    let ghost none = Seq::<u8>::empty();
    #[verifier::truncate]
    let count: u32 = statements.len() as u32;
    writer.u32(count);
    let ghost start = writer@;
    let mut index: usize = 0;
    while index < statements.len()
        invariant
            index <= statements.len(),
            list == block_of(statements@),
            none == Seq::<u8>::empty(),
            writer@ + flow_statements_then(list, index as nat, none) == start + flow_statements_then(list, 0, none),
        decreases statements.len() - index,
    {
        proof {
            lemma_block_of(statements@);
        }
        let ghost before = writer@;
        assert(list[index as int] == statements[index as int]@);
        put_flow_statement(writer, &statements[index]);
        proof {
            let later = flow_statements_then(list, (index + 1) as nat, none);
            lemma_flow_statement_then(list[index as int], later);
            assert(writer@ + later =~= before + flow_statements_then(list, index as nat, none));
        }
        index = index + 1;
    }
    assert(writer@ =~= writer@ + flow_statements_then(list, index as nat, none));
    assert(writer@ =~= old(writer)@ + block_then(list, none));
}

/// Writes a statement.
fn put_flow_statement(writer: &mut Writer, statement: &ControlFlowStatement)
    ensures
        final(writer)@ == old(writer)@ + flow_statement_then(statement@, Seq::empty()),
    decreases statement,
{
    let ghost none = Seq::<u8>::empty();
    match statement {
        ControlFlowStatement::Let { local, expression } => {
            writer.u8(CONTROL_FLOW_STATEMENT_LET);
            writer.identity(local.0);
            put_node(writer, expression);
        },
        ControlFlowStatement::Assignment { local, expression } => {
            writer.u8(CONTROL_FLOW_STATEMENT_ASSIGNMENT);
            writer.identity(local.0);
            put_node(writer, expression);
        },
        ControlFlowStatement::Return(returned) => {
            writer.u8(CONTROL_FLOW_STATEMENT_RETURN);
            match &returned.expression {
                None => writer.u8(CONTROL_FLOW_RETURN_NONE),
                Some(expression) => {
                    writer.u8(CONTROL_FLOW_RETURN_EXPRESSION);
                    put_node(writer, expression);
                },
            }
        },
        ControlFlowStatement::If(conditional) => {
            writer.u8(CONTROL_FLOW_STATEMENT_IF);
            #[verifier::truncate]
            let count: u32 = conditional.branches.len() as u32;
            writer.u32(count);
            put_branches(writer, &conditional.branches);
            match &conditional.else_statements {
                None => {
                    writer.u8(CONTROL_FLOW_ELSE_NONE);
                    proof {
                        lemma_branches_then(
                            branches_of(conditional.branches@),
                            0,
                            seq![CONTROL_FLOW_ELSE_NONE] + none,
                        );
                    }
                },
                Some(body) => {
                    writer.u8(CONTROL_FLOW_ELSE_BODY);
                    put_block(writer, body);
                    proof {
                        lemma_branches_then(
                            branches_of(conditional.branches@),
                            0,
                            seq![CONTROL_FLOW_ELSE_BODY] + block_then(block_of(body@), none),
                        );
                    }
                },
            }
        },
        ControlFlowStatement::While(repeated) => {
            writer.u8(CONTROL_FLOW_STATEMENT_WHILE);
            put_node(writer, &repeated.condition);
            put_block(writer, &repeated.statements);
            proof {
                lemma_node_then(repeated.condition@, block_then(block_of(repeated.statements@), none));
            }
        },
    }
    assert(writer@ =~= old(writer)@ + flow_statement_then(statement@, none));
}

/// Writes branches.
fn put_branches(writer: &mut Writer, branches: &Vec<ControlFlowIfBranch>)
    ensures
        final(writer)@ == old(writer)@ + branches_then(branches_of(branches@), 0, Seq::empty()),
    decreases branches,
{
    let ghost list = branches_of(branches@);
    let ghost none = Seq::<u8>::empty();
    let ghost start = writer@;
    let mut index: usize = 0;
    while index < branches.len()
        invariant
            index <= branches.len(),
            list == branches_of(branches@),
            none == Seq::<u8>::empty(),
            writer@ + branches_then(list, index as nat, none) == start + branches_then(list, 0, none),
        decreases branches.len() - index,
    {
        proof {
            lemma_branches_of(branches@);
        }
        let ghost before = writer@;
        assert(list[index as int] == branches[index as int]@);
        put_node(writer, &branches[index].condition);
        put_block(writer, &branches[index].statements);
        proof {
            let later = branches_then(list, (index + 1) as nat, none);
            let body = list[index as int].body;
            lemma_block_then(body, later);
            lemma_node_then(list[index as int].condition, block_then(body, later));
            assert(writer@ + later =~= before + branches_then(list, index as nat, none));
        }
        index = index + 1;
    }
    assert(writer@ =~= writer@ + branches_then(list, index as nat, none));
}

/// Reads a tree.
fn decode_tree(reader: &mut Reader, tally: FlowTally) -> (result: Result<
    (ClientExpressionNode, FlowTally),
    ClientPlanError,
>)
    ensures
        match parsed_tree(old(reader)@, tally) {
            Ok((expression, rest, behind)) => {
                &&& result is Ok
                &&& result->Ok_0.0@ == expression
                &&& result->Ok_0.1 == behind
                &&& final(reader)@ == rest
            },
            Err(error) => result == Err::<(ClientExpressionNode, FlowTally), ClientPlanError>(error),
        },
{
    let grammar = Grammar { resources: true, locals: true, inspect: true, programmable: true };
    let (expression, trees) = decode_node(reader, EXPRESSION_LEVELS, tally.trees, grammar)?;
    Ok((expression, FlowTally { trees, statements: tally.statements }))
}

/// Reads a block with at most `levels` levels of blocks.
pub fn decode_block(reader: &mut Reader, levels: usize, tally: FlowTally) -> (result: Result<
    (Vec<ControlFlowStatement>, FlowTally),
    ClientPlanError,
>)
    ensures
        match parsed_block(old(reader)@, levels as nat, tally) {
            Ok((statements, rest, behind)) => {
                &&& result is Ok
                &&& block_of(result->Ok_0.0@) == statements
                &&& result->Ok_0.1 == behind
                &&& final(reader)@ == rest
            },
            Err(error) => result == Err::<(Vec<ControlFlowStatement>, FlowTally), ClientPlanError>(error),
        },
    decreases levels, 0nat,
{
    if levels == 0 {
        return Err(ClientPlanError::ControlFlowBlockDepthExceeded);
    }
    let count: u32 = take_u32(reader)?;
    let total: usize = count as usize;
    if total > MAX_CONTROL_FLOW_STATEMENTS {
        return Err(ClientPlanError::ControlFlowStatementLimitExceeded { limit: MAX_CONTROL_FLOW_STATEMENTS });
    }
    let mut statements: Vec<ControlFlowStatement> = Vec::with_capacity(total);
    let mut behind = tally;
    assert(block_of(statements@) =~= Seq::empty());
    while statements.len() < total
        invariant
            levels > 0,
            statements.len() <= total,
            parsed_block(old(reader)@, levels as nat, tally) == parsed_flow_statements(
                reader@,
                block_of(statements@),
                total as nat,
                (levels - 1) as nat,
                behind,
            ),
        decreases total - statements.len(),
    {
        let ghost done = block_of(statements@);
        let with_statement = behind.count_statement()?;
        let (statement, next) = decode_flow_statement(reader, levels - 1, with_statement)?;
        let ghost value = statement@;
        statements.push(statement);
        behind = next;
        assert(block_of(statements@) =~= done.push(value));
    }
    Ok((statements, behind))
}

/// Reads a counted statement.
fn decode_flow_statement(reader: &mut Reader, levels: usize, tally: FlowTally) -> (result: Result<
    (ControlFlowStatement, FlowTally),
    ClientPlanError,
>)
    ensures
        match parsed_flow_statement(old(reader)@, levels as nat, tally) {
            Ok((statement, rest, behind)) => {
                &&& result is Ok
                &&& result->Ok_0.0@ == statement
                &&& result->Ok_0.1 == behind
                &&& final(reader)@ == rest
            },
            Err(error) => result == Err::<(ControlFlowStatement, FlowTally), ClientPlanError>(error),
        },
    decreases levels, 3nat,
{
    let tag: u8 = take_u8(reader)?;
    if tag == CONTROL_FLOW_STATEMENT_LET || tag == CONTROL_FLOW_STATEMENT_ASSIGNMENT {
        let local: u128 = take_identity(reader)?;
        let (expression, behind) = decode_tree(reader, tally)?;
        if tag == CONTROL_FLOW_STATEMENT_LET {
            Ok((ControlFlowStatement::Let { local: LocalId(local), expression }, behind))
        } else {
            Ok((ControlFlowStatement::Assignment { local: LocalId(local), expression }, behind))
        }
    } else if tag == CONTROL_FLOW_STATEMENT_RETURN {
        let presence: u8 = take_u8(reader)?;
        if presence == CONTROL_FLOW_RETURN_NONE {
            Ok((ControlFlowStatement::Return(ControlFlowReturnStatement { expression: None }), tally))
        } else if presence == CONTROL_FLOW_RETURN_EXPRESSION {
            let (expression, behind) = decode_tree(reader, tally)?;
            Ok(
                (
                    ControlFlowStatement::Return(ControlFlowReturnStatement { expression: Some(expression) }),
                    behind,
                ),
            )
        } else {
            Err(ClientPlanError::InvalidControlFlowReturnTag(presence))
        }
    } else if tag == CONTROL_FLOW_STATEMENT_IF {
        assert(parsed_flow_statement(old(reader)@, levels as nat, tally) == parsed_if(reader@, levels as nat, tally));
        decode_if(reader, levels, tally)
    } else if tag == CONTROL_FLOW_STATEMENT_WHILE {
        let (condition, inside) = decode_tree(reader, tally)?;
        let (statements, behind) = decode_block(reader, levels, inside)?;
        Ok((ControlFlowStatement::While(ControlFlowWhileStatement { condition, statements }), behind))
    } else {
        Err(ClientPlanError::InvalidControlFlowStatement(tag))
    }
}

/// Reads an `IF` behind its tag.
fn decode_if(reader: &mut Reader, levels: usize, tally: FlowTally) -> (result: Result<
    (ControlFlowStatement, FlowTally),
    ClientPlanError,
>)
    ensures
        match parsed_if(old(reader)@, levels as nat, tally) {
            Ok((statement, rest, behind)) => {
                &&& result is Ok
                &&& result->Ok_0.0@ == statement
                &&& result->Ok_0.1 == behind
                &&& final(reader)@ == rest
            },
            Err(error) => result == Err::<(ControlFlowStatement, FlowTally), ClientPlanError>(error),
        },
    decreases levels, 2nat,
{
    let count: u32 = take_u32(reader)?;
    let total: usize = count as usize;
    if total == 0 {
        return Err(ClientPlanError::InvalidControlFlowBranchCount { actual: 0 });
    }
    if total > MAX_CONTROL_FLOW_BRANCHES {
        return Err(ClientPlanError::ControlFlowBranchLimitExceeded { limit: MAX_CONTROL_FLOW_BRANCHES });
    }
    let (branches, inside) = decode_branches(reader, total, levels, tally)?;
    let presence: u8 = take_u8(reader)?;
    if presence == CONTROL_FLOW_ELSE_NONE {
        Ok((ControlFlowStatement::If(ControlFlowIfStatement { branches, else_statements: None }), inside))
    } else if presence == CONTROL_FLOW_ELSE_BODY {
        let (body, behind) = decode_block(reader, levels, inside)?;
        Ok((ControlFlowStatement::If(ControlFlowIfStatement { branches, else_statements: Some(body) }), behind))
    } else {
        Err(ClientPlanError::InvalidControlFlowElseTag(presence))
    }
}

/// Reads `total` branches.
fn decode_branches(reader: &mut Reader, total: usize, levels: usize, tally: FlowTally) -> (result: Result<
    (Vec<ControlFlowIfBranch>, FlowTally),
    ClientPlanError,
>)
    ensures
        match parsed_branches(old(reader)@, Seq::empty(), total as nat, levels as nat, tally) {
            Ok((branches, rest, behind)) => {
                &&& result is Ok
                &&& branches_of(result->Ok_0.0@) == branches
                &&& result->Ok_0.1 == behind
                &&& final(reader)@ == rest
            },
            Err(error) => result == Err::<(Vec<ControlFlowIfBranch>, FlowTally), ClientPlanError>(error),
        },
    decreases levels, 1nat,
{
    let mut branches: Vec<ControlFlowIfBranch> = Vec::with_capacity(total);
    let mut behind = tally;
    assert(branches_of(branches@) =~= Seq::empty());
    while branches.len() < total
        invariant
            branches.len() <= total,
            parsed_branches(old(reader)@, Seq::empty(), total as nat, levels as nat, tally) == parsed_branches(
                reader@,
                branches_of(branches@),
                total as nat,
                levels as nat,
                behind,
            ),
        decreases total - branches.len(),
    {
        let ghost done = branches_of(branches@);
        let (condition, inside) = decode_tree(reader, behind)?;
        let (statements, next) = decode_block(reader, levels, inside)?;
        let ghost value = FlowBranch { condition: condition@, body: block_of(statements@) };
        branches.push(ControlFlowIfBranch { condition, statements });
        behind = next;
        assert(branches_of(branches@) =~= done.push(value));
    }
    Ok((branches, behind))
}

} // verus!
