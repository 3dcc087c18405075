//! The node sets and limits of expression trees.
//!
//! A [`Grammar`] says which of the optional nodes a format version admits. A
//! [`Tally`] counts nodes and resource operations, often over several trees of
//! one plan. [`admitted`] walks a tree in encoding order and gives the tally
//! behind it, or the first violation.

use vstd::prelude::*;
use vstd::utf8::encode_utf8;

use crate::client_plan::contract::{valid_contract_identity, validate_external_contract_identity};
use crate::client_plan::error::ClientPlanError;
use crate::client_plan::expression::{
    operands, ClientExpressionNode, Expression, InspectOperation, InspectOperationNode,
};
use crate::client_plan::operation::{action_refusal, resource_refusal};
use crate::client_plan::placement::counted;
use crate::client_plan::{
    MAX_ARTIFACT_BYTES, MAX_CALL_ARGUMENTS, MAX_EXPRESSION_NODES, MAX_FIELD_PATH_LENGTH, MAX_RESOURCE_OPERATIONS,
};
use crate::client_plan::{
    NODE_ACTION, NODE_AWAIT, NODE_BINARY, NODE_EXTERNAL_CONTRACT, NODE_FIELD_PATH, NODE_INSPECT, NODE_LOCAL_READ,
    NODE_RESOURCE, NODE_UNARY,
};

verus! {

/// The optional nodes that a format version admits.
#[derive(Clone, Copy, Debug, PartialEq, Eq, Structural)]
pub struct Grammar {
    /// AWAIT and resource operation nodes.
    pub resources: bool,
    /// Reads of declared locals.
    pub locals: bool,
    /// Inspector nodes.
    pub inspect: bool,
    /// The action, unary and binary nodes of version 10.
    pub programmable: bool,
}

impl Grammar {
    /// The closed node set of versions 3, 4 and 8.
    pub open spec fn closed_set() -> Grammar {
        Grammar { resources: false, locals: false, inspect: false, programmable: false }
    }

    /// The closed node set, with Inspector nodes where `inspect` says so.
    pub open spec fn inspector_set(inspect: bool) -> Grammar {
        Grammar { resources: false, locals: false, inspect, programmable: false }
    }

    /// The node set of version 6.
    pub open spec fn resource_set() -> Grammar {
        Grammar { resources: true, locals: false, inspect: false, programmable: false }
    }

    /// The node set of version 7.
    pub open spec fn procedural_set() -> Grammar {
        Grammar { resources: true, locals: true, inspect: true, programmable: false }
    }

    /// The node set of version 10.
    pub open spec fn programmable_set() -> Grammar {
        Grammar { resources: true, locals: true, inspect: true, programmable: true }
    }

    /// The node set of the arguments of a resource operation: before version
    /// 10 they hold no Inspector nodes.
    pub open spec fn of_arguments(self) -> Grammar {
        if self.programmable {
            self
        } else {
            Grammar { resources: true, locals: self.locals, inspect: false, programmable: false }
        }
    }

    /// Returns the node set of the arguments of a resource operation.
    pub fn arguments(self) -> (grammar: Grammar)
        ensures
            grammar == self.of_arguments(),
    {
        if self.programmable {
            self
        } else {
            Grammar { resources: true, locals: self.locals, inspect: false, programmable: false }
        }
    }
}

/// Counts of what a plan holds so far.
#[derive(Clone, Copy, Debug, PartialEq, Eq, Structural)]
pub struct Tally {
    /// Expression nodes.
    pub nodes: usize,
    /// Resource operation nodes.
    pub resources: usize,
}

impl Tally {
    /// Nothing counted.
    pub open spec fn zero() -> Tally {
        Tally { nodes: 0, resources: 0 }
    }

    /// This tally after one more node.
    pub open spec fn with_node(self) -> Tally {
        Tally { nodes: counted(self.nodes), resources: self.resources }
    }

    /// This tally after one more resource operation.
    pub open spec fn with_resource(self) -> Tally {
        Tally { nodes: self.nodes, resources: counted(self.resources) }
    }

    /// Starts counting.
    pub fn new() -> (tally: Tally)
        ensures
            tally == Tally::zero(),
    {
        Tally { nodes: 0, resources: 0 }
    }

    /// Counts one more node.
    pub fn count_node(self) -> (result: Result<Tally, ClientPlanError>)
        ensures
            result == if self.with_node().nodes > MAX_EXPRESSION_NODES {
                Err::<Tally, ClientPlanError>(ClientPlanError::ExpressionNodeCountExceeded)
            } else {
                Ok(self.with_node())
            },
    {
        let nodes: usize = self.nodes.saturating_add(1);
        if nodes > MAX_EXPRESSION_NODES {
            return Err(ClientPlanError::ExpressionNodeCountExceeded);
        }
        Ok(Tally { nodes, resources: self.resources })
    }

    /// Counts one more resource operation.
    pub fn count_resource(self) -> (result: Result<Tally, ClientPlanError>)
        ensures
            result == if self.with_resource().resources > MAX_RESOURCE_OPERATIONS {
                Err::<Tally, ClientPlanError>(
                    ClientPlanError::ResourceOperationLimitExceeded { limit: MAX_RESOURCE_OPERATIONS },
                )
            } else {
                Ok(self.with_resource())
            },
    {
        let resources: usize = self.resources.saturating_add(1);
        if resources > MAX_RESOURCE_OPERATIONS {
            return Err(ClientPlanError::ResourceOperationLimitExceeded { limit: MAX_RESOURCE_OPERATIONS });
        }
        Ok(Tally { nodes: self.nodes, resources })
    }
}

/// The failure of a text whose length does not fit its length prefix.
pub open spec fn text_refusal(text: Seq<char>) -> Option<ClientPlanError> {
    if encode_utf8(text).len() > u32::MAX {
        Some(ClientPlanError::ExpressionCollectionExceeded { limit: MAX_ARTIFACT_BYTES })
    } else {
        None
    }
}

/// Why a node itself, apart from its operands, cannot be encoded, if it cannot.
pub open spec fn node_refusal(expression: Expression, tally: Tally, grammar: Grammar) -> Option<ClientPlanError> {
    match expression {
        Expression::Await { .. } => if grammar.resources {
            None
        } else {
            Some(ClientPlanError::InvalidExpressionNode(NODE_AWAIT))
        },
        Expression::Resource { operation } => if !grammar.resources {
            Some(ClientPlanError::InvalidExpressionNode(NODE_RESOURCE))
        } else if tally.with_resource().resources > MAX_RESOURCE_OPERATIONS {
            Some(ClientPlanError::ResourceOperationLimitExceeded { limit: MAX_RESOURCE_OPERATIONS })
        } else {
            resource_refusal(operation)
        },
        Expression::Inspect { .. } => if grammar.inspect {
            None
        } else {
            Some(ClientPlanError::InvalidExpressionNode(NODE_INSPECT))
        },
        Expression::Action { operation } => if grammar.programmable {
            action_refusal(operation)
        } else {
            Some(ClientPlanError::InvalidExpressionNode(NODE_ACTION))
        },
        Expression::Call { arguments, .. } => if arguments.len() > MAX_CALL_ARGUMENTS {
            Some(ClientPlanError::ExpressionCollectionExceeded { limit: MAX_CALL_ARGUMENTS })
        } else {
            None
        },
        Expression::String { value } => text_refusal(value),
        Expression::LocalRead { .. } => if grammar.locals {
            None
        } else {
            Some(ClientPlanError::InvalidExpressionNode(NODE_LOCAL_READ))
        },
        Expression::FieldPath { fields, .. } => if fields.len() == 0 || fields.len() > MAX_FIELD_PATH_LENGTH {
            Some(ClientPlanError::InvalidExpressionNode(NODE_FIELD_PATH))
        } else {
            None
        },
        Expression::ExternalContract { identity } => if !valid_contract_identity(identity) {
            Some(ClientPlanError::InvalidExpressionNode(NODE_EXTERNAL_CONTRACT))
        } else {
            text_refusal(identity)
        },
        Expression::Unary { .. } => if grammar.programmable {
            None
        } else {
            Some(ClientPlanError::InvalidExpressionNode(NODE_UNARY))
        },
        Expression::Binary { .. } => if grammar.programmable {
            None
        } else {
            Some(ClientPlanError::InvalidExpressionNode(NODE_BINARY))
        },
        _ => None,
    }
}

/// The operands that an encoding holds: snapshot options are never encoded.
pub open spec fn encoded_operands(expression: Expression) -> Seq<Expression> {
    match expression {
        Expression::Inspect { operation: InspectOperation::Snapshot { target, .. } } => seq![*target],
        _ => operands(expression),
    }
}

/// Tells whether a node is a snapshot with options.
pub open spec fn has_snapshot_options(expression: Expression) -> bool {
    match expression {
        Expression::Inspect { operation: InspectOperation::Snapshot { options, .. } } => options is Some,
        _ => false,
    }
}

/// The node set of the operands of a node.
pub open spec fn operand_grammar(expression: Expression, grammar: Grammar) -> Grammar {
    if expression is Resource {
        grammar.of_arguments()
    } else {
        grammar
    }
}

/// The tally behind a node, before its operands.
pub open spec fn node_tally(expression: Expression, tally: Tally) -> Tally {
    if expression is Resource {
        tally.with_node().with_resource()
    } else {
        tally.with_node()
    }
}

/// The tally behind a tree with at most `levels` levels, or the first violation
/// in encoding order.
pub open spec fn admitted(expression: Expression, levels: nat, tally: Tally, grammar: Grammar) -> Result<
    Tally,
    ClientPlanError,
>
    decreases levels, 0nat,
{
    if levels == 0 {
        Err(ClientPlanError::ExpressionDepthExceeded)
    } else if tally.with_node().nodes > MAX_EXPRESSION_NODES {
        Err(ClientPlanError::ExpressionNodeCountExceeded)
    } else {
        match node_refusal(expression, tally, grammar) {
            Some(error) => Err(error),
            None => match all_admitted(
                encoded_operands(expression),
                0,
                (levels - 1) as nat,
                node_tally(expression, tally),
                operand_grammar(expression, grammar),
            ) {
                Err(error) => Err(error),
                Ok(tally) => if has_snapshot_options(expression) {
                    Err(ClientPlanError::UnsupportedInspectOptions)
                } else {
                    Ok(tally)
                },
            },
        }
    }
}

/// The tally behind the trees from `index` on.
pub open spec fn all_admitted(
    expressions: Seq<Expression>,
    index: nat,
    levels: nat,
    tally: Tally,
    grammar: Grammar,
) -> Result<Tally, ClientPlanError>
    decreases levels, 1 + expressions.len() - index,
{
    if index >= expressions.len() {
        Ok(tally)
    } else {
        match admitted(expressions[index as int], levels, tally, grammar) {
            Err(error) => Err(error),
            Ok(tally) => all_admitted(expressions, index + 1, levels, tally, grammar),
        }
    }
}

/// Refuses a text whose length does not fit its length prefix.
fn validate_text_length(text: &str) -> (result: Result<(), ClientPlanError>)
    ensures
        match text_refusal(text@) {
            Some(error) => result == Err::<(), ClientPlanError>(error),
            None => result == Ok::<(), ClientPlanError>(()),
        },
{
    if text.as_bytes().len() > u32::MAX as usize {
        return Err(ClientPlanError::ExpressionCollectionExceeded { limit: MAX_ARTIFACT_BYTES });
    }
    Ok(())
}

/// Refuses a node that cannot be encoded, apart from its operands.
fn validate_node(node: &ClientExpressionNode, tally: Tally, grammar: Grammar) -> (result: Result<(), ClientPlanError>)
    ensures
        match node_refusal(node@, tally, grammar) {
            Some(error) => result == Err::<(), ClientPlanError>(error),
            None => result == Ok::<(), ClientPlanError>(()),
        },
{
    match node {
        ClientExpressionNode::Await { .. } => if grammar.resources {
            Ok(())
        } else {
            Err(ClientPlanError::InvalidExpressionNode(NODE_AWAIT))
        },
        ClientExpressionNode::Resource { operation } => if !grammar.resources {
            Err(ClientPlanError::InvalidExpressionNode(NODE_RESOURCE))
        } else {
            tally.count_resource()?;
            operation.validate()
        },
        ClientExpressionNode::Inspect { .. } => if grammar.inspect {
            Ok(())
        } else {
            Err(ClientPlanError::InvalidExpressionNode(NODE_INSPECT))
        },
        ClientExpressionNode::Action { operation } => if grammar.programmable {
            operation.validate()
        } else {
            Err(ClientPlanError::InvalidExpressionNode(NODE_ACTION))
        },
        ClientExpressionNode::Call { arguments, .. } => {
            proof {
                crate::client_plan::expression::lemma_arguments_of(arguments@);
            }
            if arguments.len() > MAX_CALL_ARGUMENTS {
                Err(ClientPlanError::ExpressionCollectionExceeded { limit: MAX_CALL_ARGUMENTS })
            } else {
                Ok(())
            }
        },
        ClientExpressionNode::String { value } => validate_text_length(value.as_str()),
        ClientExpressionNode::LocalRead { .. } => if grammar.locals {
            Ok(())
        } else {
            Err(ClientPlanError::InvalidExpressionNode(NODE_LOCAL_READ))
        },
        ClientExpressionNode::FieldPath { fields, .. } => if fields.len() == 0 || fields.len()
            > MAX_FIELD_PATH_LENGTH {
            Err(ClientPlanError::InvalidExpressionNode(NODE_FIELD_PATH))
        } else {
            Ok(())
        },
        ClientExpressionNode::ExternalContract { identity } => {
            validate_external_contract_identity(identity.as_str())?;
            validate_text_length(identity.as_str())
        },
        ClientExpressionNode::Unary { .. } => if grammar.programmable {
            Ok(())
        } else {
            Err(ClientPlanError::InvalidExpressionNode(NODE_UNARY))
        },
        ClientExpressionNode::Binary { .. } => if grammar.programmable {
            Ok(())
        } else {
            Err(ClientPlanError::InvalidExpressionNode(NODE_BINARY))
        },
        _ => Ok(()),
    }
}

/// Walks a tree in encoding order and returns the tally behind it.
pub fn admit_node(node: &ClientExpressionNode, levels: usize, tally: Tally, grammar: Grammar) -> (result: Result<
    Tally,
    ClientPlanError,
>)
    ensures
        result == admitted(node@, levels as nat, tally, grammar),
    decreases levels, 0nat,
{
    if levels == 0 {
        return Err(ClientPlanError::ExpressionDepthExceeded);
    }
    let with_node = tally.count_node()?;
    validate_node(node, tally, grammar)?;
    match node {
        ClientExpressionNode::Inspect { operation: InspectOperationNode::Snapshot { target, options } } => {
            let behind = admit_node(target, levels - 1, with_node, grammar)?;
            proof {
                reveal_with_fuel(all_admitted, 3);
            }
            match options {
                Some(_) => Err(ClientPlanError::UnsupportedInspectOptions),
                None => Ok(behind),
            }
        },
        ClientExpressionNode::Resource { .. } => {
            let with_resource = with_node.count_resource()?;
            admit_operands(node, levels - 1, with_resource, grammar.arguments())
        },
        _ => admit_operands(node, levels - 1, with_node, grammar),
    }
}

/// Walks the operands of a node in order.
fn admit_operands(node: &ClientExpressionNode, levels: usize, tally: Tally, grammar: Grammar) -> (result: Result<
    Tally,
    ClientPlanError,
>)
    ensures
        result == all_admitted(operands(node@), 0, levels as nat, tally, grammar),
    decreases levels, 1nat,
{
    let mut behind = tally;
    let mut index: usize = 0;
    loop
        invariant
            index <= operands(node@).len(),
            all_admitted(operands(node@), 0, levels as nat, tally, grammar) == all_admitted(
                operands(node@),
                index as nat,
                levels as nat,
                behind,
                grammar,
            ),
        decreases operands(node@).len() - index,
    {
        match node.operand(index) {
            None => return Ok(behind),
            Some(operand) => {
                behind = admit_node(operand, levels, behind, grammar)?;
            },
        }
        index = index + 1;
    }
}

} // verus!
