//! The placement rule of external contracts.
//!
//! An external contract stands for a whole function body, so it is valid only
//! as the root of a tree, and only where the format admits it there. Checking
//! the rule also enforces the depth and node-count limits.

use vstd::prelude::*;

use crate::client_plan::error::ClientPlanError;
use crate::client_plan::expression::{operands, ClientExpressionNode, Expression};
use crate::client_plan::{MAX_EXPRESSION_DEPTH, MAX_EXPRESSION_NODES, NODE_EXTERNAL_CONTRACT};

verus! {

/// The number of levels that an expression tree may have.
pub const EXPRESSION_LEVELS: usize = MAX_EXPRESSION_DEPTH + 1;

/// A count after one more item.
pub open spec fn counted(count: usize) -> usize {
    if count < usize::MAX {
        (count + 1) as usize
    } else {
        count
    }
}

/// Counts the nodes of a tree with at most `levels` levels, or gives the first
/// violation of the placement rule or of a limit.
pub open spec fn placement(expression: Expression, allow_root: bool, levels: nat, count: usize) -> Result<
    usize,
    ClientPlanError,
>
    decreases levels, 0nat,
{
    if levels == 0 {
        Err(ClientPlanError::ExpressionDepthExceeded)
    } else if counted(count) > MAX_EXPRESSION_NODES {
        Err(ClientPlanError::ExpressionNodeCountExceeded)
    } else if expression is ExternalContract && !allow_root {
        Err(ClientPlanError::InvalidExpressionNode(NODE_EXTERNAL_CONTRACT))
    } else {
        placement_of_all(operands(expression), 0, (levels - 1) as nat, counted(count))
    }
}

/// Counts the nodes of the trees from `index` on, none of which may be an
/// external contract.
pub open spec fn placement_of_all(expressions: Seq<Expression>, index: nat, levels: nat, count: usize) -> Result<
    usize,
    ClientPlanError,
>
    decreases levels, 1 + expressions.len() - index,
{
    if index >= expressions.len() {
        Ok(count)
    } else {
        match placement(expressions[index as int], false, levels, count) {
            Err(error) => Err(error),
            Ok(count) => placement_of_all(expressions, index + 1, levels, count),
        }
    }
}

/// Whether a tree keeps the placement rule and the limits, and if not, why.
pub open spec fn contract_placement(expression: Expression, allow_root: bool) -> Result<(), ClientPlanError> {
    match placement(expression, allow_root, EXPRESSION_LEVELS as nat, 0) {
        Err(error) => Err(error),
        Ok(_) => Ok(()),
    }
}

/// A tree without a contract at its root is placed wherever one with it is.
pub proof fn lemma_placement_allows_root(expression: Expression)
    ensures
        contract_placement(expression, false) is Ok ==> contract_placement(expression, true) is Ok,
{
}

/// Refuses a misplaced external contract or an oversized tree.
pub fn validate_external_contract_placement(node: &ClientExpressionNode, allow_root: bool) -> (result: Result<
    (),
    ClientPlanError,
>)
    ensures
        result == contract_placement(node@, allow_root),
{
    match placed_nodes(node, allow_root, EXPRESSION_LEVELS, 0) {
        Ok(_) => Ok(()),
        Err(error) => Err(error),
    }
}

/// Counts the nodes of a tree that keeps the placement rule.
fn placed_nodes(node: &ClientExpressionNode, allow_root: bool, levels: usize, count: usize) -> (result: Result<
    usize,
    ClientPlanError,
>)
    ensures
        result == placement(node@, allow_root, levels as nat, count),
    decreases levels,
{
    if levels == 0 {
        return Err(ClientPlanError::ExpressionDepthExceeded);
    }
    let mut nodes: usize = count.saturating_add(1);
    if nodes > MAX_EXPRESSION_NODES {
        return Err(ClientPlanError::ExpressionNodeCountExceeded);
    }
    if let ClientExpressionNode::ExternalContract { .. } = node {
        if !allow_root {
            return Err(ClientPlanError::InvalidExpressionNode(NODE_EXTERNAL_CONTRACT));
        }
    }
    let mut index: usize = 0;
    loop
        invariant
            levels > 0,
            index <= operands(node@).len(),
            placement(node@, allow_root, levels as nat, count) == placement_of_all(
                operands(node@),
                index as nat,
                (levels - 1) as nat,
                nodes,
            ),
        decreases operands(node@).len() - index,
    {
        match node.operand(index) {
            None => return Ok(nodes),
            Some(operand) => {
                nodes = placed_nodes(operand, false, levels - 1, nodes)?;
            },
        }
        index = index + 1;
    }
}

} // verus!
