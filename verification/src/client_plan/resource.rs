//! Version 6: an expression tree that awaits one SERVER resource operation.
//!
//! ```text
//! header: version 6, operation 6
//! tree: canonical recursive node encoding
//! ```

use vstd::prelude::*;

use crate::artifact_codec::{viewed, Reader, Writer};
use crate::client_plan::error::{first_failure, ClientPlanError};
use crate::client_plan::expression::{lemma_operand_decreases, operands, ClientExpressionNode, Expression};
use crate::client_plan::grammar::{admit_node, admitted, Grammar, Tally};
use crate::client_plan::header::{
    after_header, finish_artifact, header_bytes, lemma_header, lemma_header_read, put_header, require_finished,
    size_error, sized, take_header, validate_artifact_size,
};
use crate::client_plan::node_codec::parsed_node;
use crate::client_plan::node_decode::decode_node;
use crate::client_plan::node_encode::{node_bytes, put_node};
use crate::client_plan::node_laws::{law_node_canonical, law_node_round_trip};
use crate::client_plan::placement::{contract_placement, validate_external_contract_placement, EXPRESSION_LEVELS};
use crate::client_plan::{
    MAX_ARTIFACT_BYTES, NODE_ACTION, NODE_AWAIT, NODE_BINARY, NODE_INSPECT, NODE_RESOURCE, NODE_UNARY,
    RESOURCE_FORMAT_VERSION, RETURN_RESOURCE_OPERATION,
};

verus! {

/// A checked version-6 CLIENT plan containing resource operation nodes in a
/// closed expression tree.
#[derive(Clone, Debug, Eq, PartialEq)]
pub struct ResourceClientPlan {
    pub expression: ClientExpressionNode,
}

impl View for ResourceClientPlan {
    type V = Expression;

    open spec fn view(&self) -> Expression {
        self.expression@
    }
}

/// Whether awaits and resource operations stand where they may: a resource
/// operation is only meaningful as the direct operand of one await at the root.
/// A bare resource value, an await over an ordinary expression and a suspension
/// inside another expression are refused.
pub open spec fn await_placement(expression: Expression, allow_await: bool, awaited_operand: bool) -> Result<
    (),
    ClientPlanError,
>
    decreases expression, operands(expression).len() + 1,
{
    match expression {
        Expression::Await { expression: awaited } => if !allow_await || !(*awaited is Resource) {
            Err(ClientPlanError::InvalidExpressionNode(NODE_AWAIT))
        } else {
            proof {
                lemma_operand_decreases(expression, 0);
            }
            await_placement(*awaited, false, true)
        },
        Expression::Resource { .. } => if awaited_operand {
            await_placement_of_operands(expression, 0)
        } else {
            Err(ClientPlanError::InvalidExpressionNode(NODE_RESOURCE))
        },
        Expression::Action { .. } => Err(ClientPlanError::InvalidExpressionNode(NODE_ACTION)),
        Expression::Inspect { .. } => Err(ClientPlanError::InvalidExpressionNode(NODE_INSPECT)),
        Expression::Unary { .. } => Err(ClientPlanError::InvalidExpressionNode(NODE_UNARY)),
        Expression::Binary { .. } => Err(ClientPlanError::InvalidExpressionNode(NODE_BINARY)),
        _ => await_placement_of_operands(expression, 0),
    }
}

/// Whether the operands from `index` on hold no suspension.
pub open spec fn await_placement_of_operands(expression: Expression, index: nat) -> Result<(), ClientPlanError>
    decreases expression, operands(expression).len() - index,
{
    if index < operands(expression).len() {
        proof {
            lemma_operand_decreases(expression, index as int);
        }
        match await_placement(operands(expression)[index as int], false, false) {
            Err(error) => Err(error),
            Ok(()) => await_placement_of_operands(expression, index + 1),
        }
    } else {
        Ok(())
    }
}

/// Whether the nodes of a version-6 tree stand where they may.
pub open spec fn resource_tree_placement(expression: Expression) -> Result<(), ClientPlanError> {
    first_failure(contract_placement(expression, false), await_placement(expression, true, false))
}

/// The complete version-6 artefact.
pub open spec fn resource_plan_bytes(expression: Expression) -> Seq<u8> {
    header_bytes(RESOURCE_FORMAT_VERSION, RETURN_RESOURCE_OPERATION) + node_bytes(expression)
}

/// What encoding a resource plan gives.
pub open spec fn encoded_resource_plan(expression: Expression) -> Result<Seq<u8>, ClientPlanError> {
    match resource_tree_placement(expression) {
        Err(error) => Err(error),
        Ok(()) => match admitted(expression, EXPRESSION_LEVELS as nat, Tally::zero(), Grammar::resource_set()) {
            Err(error) => Err(error),
            Ok(tally) => if tally.resources == 0 {
                Err(ClientPlanError::InvalidResourceOperationCount { actual: 0 })
            } else {
                sized(resource_plan_bytes(expression))
            },
        },
    }
}

/// What decoding `bytes` as version 6 gives.
pub open spec fn decoded_resource_plan(bytes: Seq<u8>) -> Result<Expression, ClientPlanError> {
    if bytes.len() > MAX_ARTIFACT_BYTES {
        Err(size_error(bytes.len()))
    } else {
        match after_header(bytes, RESOURCE_FORMAT_VERSION, RETURN_RESOURCE_OPERATION) {
            Err(error) => Err(error),
            Ok(rest) => match parsed_node(rest, EXPRESSION_LEVELS as nat, Tally::zero(), Grammar::resource_set()) {
                Err(error) => Err(error),
                Ok((expression, rest, tally)) => if rest.len() != 0 {
                    Err(ClientPlanError::TrailingBytes)
                } else {
                    match resource_tree_placement(expression) {
                        Err(error) => Err(error),
                        Ok(()) => if tally.resources == 0 {
                            Err(ClientPlanError::InvalidResourceOperationCount { actual: 0 })
                        } else {
                            Ok(expression)
                        },
                    }
                },
            },
        }
    }
}

/// Decoding an encoded resource plan gives that plan back.
pub proof fn law_resource_plan_round_trip(expression: Expression)
    ensures
        encoded_resource_plan(expression) matches Ok(bytes) ==> decoded_resource_plan(bytes) == Ok::<
            Expression,
            ClientPlanError,
        >(expression),
{
    if encoded_resource_plan(expression) is Ok {
        lemma_header(RESOURCE_FORMAT_VERSION, RETURN_RESOURCE_OPERATION, node_bytes(expression));
        law_node_round_trip(
            expression,
            EXPRESSION_LEVELS as nat,
            Tally::zero(),
            Grammar::resource_set(),
            Seq::empty(),
        );
    }
}

/// An artefact that decodes is the encoding of what it decodes to.
pub proof fn law_resource_plan_canonical(bytes: Seq<u8>)
    ensures
        decoded_resource_plan(bytes) matches Ok(expression) ==> encoded_resource_plan(expression) == Ok::<
            Seq<u8>,
            ClientPlanError,
        >(bytes),
{
    if decoded_resource_plan(bytes) is Ok {
        let expression = decoded_resource_plan(bytes)->Ok_0;
        lemma_header_read(bytes, RESOURCE_FORMAT_VERSION, RETURN_RESOURCE_OPERATION);
        let tree = after_header(bytes, RESOURCE_FORMAT_VERSION, RETURN_RESOURCE_OPERATION)->Ok_0;
        law_node_canonical(tree, EXPRESSION_LEVELS as nat, Tally::zero(), Grammar::resource_set());
        let rest = parsed_node(tree, EXPRESSION_LEVELS as nat, Tally::zero(), Grammar::resource_set())->Ok_0.1;
        assert(rest =~= Seq::empty());
        assert(bytes =~= resource_plan_bytes(expression));
    }
}

/// Every encodable resource plan awaits one resource operation at its root: its
/// tree is an await whose operand is a resource operation.
pub proof fn law_resource_plan_awaits_root(expression: Expression)
    ensures
        encoded_resource_plan(expression) is Ok ==> match expression {
            Expression::Await { expression: awaited } => *awaited is Resource,
            _ => false,
        },
{
    if encoded_resource_plan(expression) is Ok && !(expression is Await) {
        lemma_without_suspension(expression, EXPRESSION_LEVELS as nat, Tally::zero(), Grammar::resource_set());
    }
}

/// A tree without a suspension counts no resource operation.
proof fn lemma_without_suspension(expression: Expression, levels: nat, tally: Tally, grammar: Grammar)
    requires
        await_placement(expression, false, false) is Ok || (await_placement(expression, true, false) is Ok
            && !(expression is Await)),
    ensures
        admitted(expression, levels, tally, grammar) matches Ok(behind) ==> behind.resources == tally.resources,
    decreases levels, 0nat,
{
    if admitted(expression, levels, tally, grammar) is Ok {
        assert(await_placement_of_operands(expression, 0) is Ok);
        lemma_operands_without_suspension(
            expression,
            0,
            (levels - 1) as nat,
            tally.with_node(),
            crate::client_plan::grammar::operand_grammar(expression, grammar),
        );
    }
}

/// Operands without a suspension count no resource operation.
proof fn lemma_operands_without_suspension(
    expression: Expression,
    index: nat,
    levels: nat,
    tally: Tally,
    grammar: Grammar,
)
    requires
        await_placement_of_operands(expression, index) is Ok,
    ensures
        crate::client_plan::grammar::all_admitted(operands(expression), index, levels, tally, grammar) matches Ok(
            behind,
        ) ==> behind.resources == tally.resources,
    decreases levels, 1 + operands(expression).len() - index,
{
    if index < operands(expression).len() {
        let operand = operands(expression)[index as int];
        lemma_without_suspension(operand, levels, tally, grammar);
        if admitted(operand, levels, tally, grammar) is Ok {
            let behind = admitted(operand, levels, tally, grammar)->Ok_0;
            lemma_operands_without_suspension(expression, index + 1, levels, behind, grammar);
        }
    }
}

/// Refuses a misplaced await or resource operation.
fn validate_resource_await_placement(node: &ClientExpressionNode, allow_await: bool, awaited_operand: bool) -> (result:
    Result<(), ClientPlanError>)
    ensures
        result == await_placement(node@, allow_await, awaited_operand),
    decreases node@,
{
    match node {
        ClientExpressionNode::Await { expression: awaited } => {
            let resource = match &**awaited {
                ClientExpressionNode::Resource { .. } => true,
                _ => false,
            };
            assert(resource == (awaited@ is Resource));
            if !allow_await || !resource {
                return Err(ClientPlanError::InvalidExpressionNode(NODE_AWAIT));
            }
            proof {
                lemma_operand_decreases(node@, 0);
            }
            return validate_resource_await_placement(awaited, false, true);
        },
        ClientExpressionNode::Resource { .. } => {
            if !awaited_operand {
                return Err(ClientPlanError::InvalidExpressionNode(NODE_RESOURCE));
            }
        },
        ClientExpressionNode::Action { .. } => return Err(ClientPlanError::InvalidExpressionNode(NODE_ACTION)),
        ClientExpressionNode::Inspect { .. } => return Err(ClientPlanError::InvalidExpressionNode(NODE_INSPECT)),
        ClientExpressionNode::Unary { .. } => return Err(ClientPlanError::InvalidExpressionNode(NODE_UNARY)),
        ClientExpressionNode::Binary { .. } => return Err(ClientPlanError::InvalidExpressionNode(NODE_BINARY)),
        _ => {},
    }
    let mut index: usize = 0;
    loop
        invariant
            index <= operands(node@).len(),
            await_placement(node@, allow_await, awaited_operand) == await_placement_of_operands(node@, index as nat),
        decreases operands(node@).len() - index,
    {
        match node.operand(index) {
            None => return Ok(()),
            Some(operand) => {
                proof {
                    lemma_operand_decreases(node@, index as int);
                }
                validate_resource_await_placement(operand, false, false)?;
            },
        }
        index = index + 1;
    }
}

impl ResourceClientPlan {
    /// Creates a resource plan from a checked expression tree.
    pub fn new(expression: ClientExpressionNode) -> (plan: ResourceClientPlan)
        ensures
            plan@ == expression@,
    {
        ResourceClientPlan { expression }
    }

    /// Returns the closed expression tree.
    pub fn expression(&self) -> (expression: &ClientExpressionNode)
        ensures
            expression@ == self@,
    {
        &self.expression
    }

    /// Returns the canonical artefact version for this plan.
    pub fn format_version(&self) -> (version: u32)
        ensures
            version == RESOURCE_FORMAT_VERSION,
    {
        RESOURCE_FORMAT_VERSION
    }

    /// Encodes this plan into its exact version-6 bytes.
    pub fn encode(&self) -> (result: Result<Vec<u8>, ClientPlanError>)
        ensures
            viewed(result) == encoded_resource_plan(self@),
    {
        validate_external_contract_placement(&self.expression, false)?;
        validate_resource_await_placement(&self.expression, true, false)?;
        let grammar = Grammar { resources: true, locals: false, inspect: false, programmable: false };
        let tally = admit_node(&self.expression, EXPRESSION_LEVELS, Tally::new(), grammar)?;
        if tally.resources == 0 {
            return Err(ClientPlanError::InvalidResourceOperationCount { actual: 0 });
        }
        let mut writer = Writer::new();
        put_header(&mut writer, RESOURCE_FORMAT_VERSION, RETURN_RESOURCE_OPERATION);
        put_node(&mut writer, &self.expression);
        assert(writer@ =~= resource_plan_bytes(self@));
        finish_artifact(writer)
    }

    /// Decodes exactly one canonical version-6 resource client-plan.
    pub fn decode(bytes: &[u8]) -> (result: Result<ResourceClientPlan, ClientPlanError>)
        ensures
            viewed(result) == decoded_resource_plan(bytes@),
    {
        validate_artifact_size(bytes.len())?;
        let mut reader = Reader::new(bytes);
        take_header(&mut reader, RESOURCE_FORMAT_VERSION, RETURN_RESOURCE_OPERATION)?;
        let grammar = Grammar { resources: true, locals: false, inspect: false, programmable: false };
        let (expression, tally) = decode_node(&mut reader, EXPRESSION_LEVELS, Tally::new(), grammar)?;
        require_finished(&reader)?;
        validate_external_contract_placement(&expression, false)?;
        validate_resource_await_placement(&expression, true, false)?;
        if tally.resources == 0 {
            return Err(ClientPlanError::InvalidResourceOperationCount { actual: 0 });
        }
        Ok(ResourceClientPlan::new(expression))
    }
}

} // verus!
