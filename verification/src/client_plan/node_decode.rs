//! Reading expression trees.

use vstd::prelude::*;

use crate::artifact_codec::Reader;
use crate::client_plan::contract::validate_external_contract_identity;
use crate::client_plan::error::ClientPlanError;
use crate::client_plan::expression::{
    arguments_of, ActionOperationNode, ClientExpressionNode, Expression, InspectOperationNode, ResourceOperationNode,
};
use crate::client_plan::grammar::{Grammar, Tally};
use crate::client_plan::header::{take_bytes, take_i64, take_identity, take_u32, take_u8};
use crate::client_plan::node_codec::{
    parsed_action, parsed_action_head, parsed_arguments, parsed_boolean, parsed_contract, parsed_field_path,
    parsed_fields, parsed_inspect, parsed_node, parsed_payload, parsed_pinned, parsed_pins, parsed_resource,
    parsed_text, Parsed, ParsedTree, Pins,
};
use crate::client_plan::operation::{previous_parameter, validate_argument, ArgumentRule};
use crate::client_plan::operator::{
    ActionTargetDomain, ControlFlowBinaryOperator, ControlFlowUnaryOperator, InspectProjection, ResourceKind,
};
use crate::client_plan::{
    INSPECT_OPERATION_PROJECTION, INSPECT_OPERATION_SNAPSHOT, MAX_ACTION_ARGUMENTS, MAX_CALL_ARGUMENTS,
    MAX_FIELD_PATH_LENGTH, MAX_RESOURCE_ARGUMENTS,
};
use crate::client_plan::{
    NODE_ACTION, NODE_AWAIT, NODE_BINARY, NODE_BOOLEAN, NODE_CALL, NODE_CONCAT, NODE_EVALUATE, NODE_EXTERNAL_CONTRACT,
    NODE_FIELD_PATH, NODE_INPUT, NODE_INSPECT, NODE_INTEGER, NODE_LOCAL_READ, NODE_PARAMETER_READ, NODE_RESOURCE,
    NODE_SOURCE_INTROSPECTION, NODE_STRING, NODE_UNARY,
};
use crate::identity::{
    CallSiteId, CatalogueRevisionId, FieldId, FunctionId, LocalId, ParameterId, RevisionPair, SourceRevisionId, TypeId,
};
use crate::text::decode_text;

verus! {

/// Tells that a decoding result, behind which `rest` is left unread, is what
/// was parsed.
pub open spec fn decodes<T>(result: Result<T, ClientPlanError>, rest: Seq<u8>, parsed: Parsed<T>) -> bool {
    match parsed {
        Ok((value, left)) => result == Ok::<T, ClientPlanError>(value) && rest == left,
        Err(error) => result == Err::<T, ClientPlanError>(error),
    }
}

/// Tells that a decoding result, behind which `rest` is left unread, stands for
/// what was parsed.
pub open spec fn decodes_tree<T: View>(
    result: Result<(T, Tally), ClientPlanError>,
    rest: Seq<u8>,
    parsed: ParsedTree<T::V>,
) -> bool {
    match parsed {
        Ok((value, left, tally)) => {
            &&& result is Ok
            &&& result->Ok_0.0@ == value
            &&& result->Ok_0.1 == tally
            &&& rest == left
        },
        Err(error) => result == Err::<(T, Tally), ClientPlanError>(error),
    }
}

/// Reads a length-prefixed text of the node `tag`.
fn decode_node_text(reader: &mut Reader, tag: u8) -> (result: Result<String, ClientPlanError>)
    ensures
        match parsed_text(old(reader)@, tag) {
            Ok((text, rest)) => result is Ok && result->Ok_0@ == text && final(reader)@ == rest,
            Err(error) => result == Err::<String, ClientPlanError>(error),
        },
{
    let length: u32 = take_u32(reader)?;
    let bytes = take_bytes(reader, length as usize)?;
    match decode_text(bytes) {
        Some(text) => Ok(text),
        None => Err(ClientPlanError::InvalidExpressionNode(tag)),
    }
}

/// Reads a contract identity.
fn decode_contract(reader: &mut Reader) -> (result: Result<ClientExpressionNode, ClientPlanError>)
    ensures
        match parsed_contract(old(reader)@) {
            Ok((expression, rest)) => result is Ok && result->Ok_0@ == expression && final(reader)@ == rest,
            Err(error) => result == Err::<ClientExpressionNode, ClientPlanError>(error),
        },
{
    let identity = decode_node_text(reader, NODE_EXTERNAL_CONTRACT)?;
    validate_external_contract_identity(identity.as_str())?;
    Ok(ClientExpressionNode::ExternalContract { identity })
}

/// Reads a Boolean literal.
fn decode_boolean(reader: &mut Reader) -> (result: Result<ClientExpressionNode, ClientPlanError>)
    ensures
        match parsed_boolean(old(reader)@) {
            Ok((expression, rest)) => result is Ok && result->Ok_0@ == expression && final(reader)@ == rest,
            Err(error) => result == Err::<ClientExpressionNode, ClientPlanError>(error),
        },
{
    let byte: u8 = take_u8(reader)?;
    if byte > 1 {
        return Err(ClientPlanError::InvalidExpressionNode(NODE_BOOLEAN));
    }
    Ok(ClientExpressionNode::Boolean { value: byte == 1 })
}

/// Reads a field path.
fn decode_field_path(reader: &mut Reader) -> (result: Result<ClientExpressionNode, ClientPlanError>)
    ensures
        match parsed_field_path(old(reader)@) {
            Ok((expression, rest)) => result is Ok && result->Ok_0@ == expression && final(reader)@ == rest,
            Err(error) => result == Err::<ClientExpressionNode, ClientPlanError>(error),
        },
{
    let root: u128 = take_identity(reader)?;
    let length: u32 = take_u32(reader)?;
    if length == 0 {
        return Err(ClientPlanError::InvalidExpressionNode(NODE_FIELD_PATH));
    }
    let total: usize = length as usize;
    if total > MAX_FIELD_PATH_LENGTH {
        return Err(ClientPlanError::ExpressionCollectionExceeded { limit: MAX_FIELD_PATH_LENGTH });
    }
    let ghost parsed = parsed_fields(reader@, Seq::empty(), total as nat);
    let mut fields: Vec<FieldId> = Vec::with_capacity(total);
    while fields.len() < total
        invariant
            fields.len() <= total,
            parsed == parsed_fields(reader@, fields@, total as nat),
            match parsed_field_path(old(reader)@) {
                Ok((expression, rest)) => parsed is Ok && rest == parsed->Ok_0.1 && expression
                    == (Expression::FieldPath { root: ParameterId(root), fields: parsed->Ok_0.0 }),
                Err(error) => parsed == Err::<(Seq<FieldId>, Seq<u8>), ClientPlanError>(error),
            },
        decreases total - fields.len(),
    {
        let field: u128 = take_identity(reader)?;
        fields.push(FieldId(field));
    }
    Ok(ClientExpressionNode::FieldPath { root: ParameterId(root), fields })
}

/// Reads an identity that must not be zero.
fn take_pinned(reader: &mut Reader, rule: ArgumentRule) -> (result: Result<u128, ClientPlanError>)
    ensures
        decodes(result, final(reader)@, parsed_pinned(old(reader)@, rule.identity_error())),
{
    let identity: u128 = take_identity(reader)?;
    if identity == 0 {
        return match rule {
            ArgumentRule::Action => Err(ClientPlanError::InvalidActionIdentity),
            _ => Err(ClientPlanError::InvalidResourceIdentity),
        };
    }
    Ok(identity)
}

/// Reads the target function, revisions and call site of an operation.
fn take_pins(reader: &mut Reader, rule: ArgumentRule) -> (result: Result<Pins, ClientPlanError>)
    ensures
        decodes(result, final(reader)@, parsed_pins(old(reader)@, rule.identity_error())),
{
    let target: u128 = take_pinned(reader, rule)?;
    let source: u128 = take_pinned(reader, rule)?;
    let catalogue: u128 = take_pinned(reader, rule)?;
    let call_site: u128 = take_pinned(reader, rule)?;
    Ok(
        Pins {
            target: FunctionId(target),
            target_revision: RevisionPair {
                source: SourceRevisionId(source),
                catalogue: CatalogueRevisionId(catalogue),
            },
            call_site: CallSiteId(call_site),
        },
    )
}

/// Reads a tree with at most `levels` levels and returns it with the tally
/// behind it.
pub fn decode_node(reader: &mut Reader, levels: usize, tally: Tally, grammar: Grammar) -> (result: Result<
    (ClientExpressionNode, Tally),
    ClientPlanError,
>)
    ensures
        decodes_tree(result, final(reader)@, parsed_node(old(reader)@, levels as nat, tally, grammar)),
    decreases levels, 0nat,
{
    if levels == 0 {
        return Err(ClientPlanError::ExpressionDepthExceeded);
    }
    let tally = tally.count_node()?;
    let tag: u8 = take_u8(reader)?;
    decode_payload(reader, tag, levels - 1, tally, grammar)
}

/// Reads the payload of a node.
fn decode_payload(reader: &mut Reader, tag: u8, levels: usize, tally: Tally, grammar: Grammar) -> (result: Result<
    (ClientExpressionNode, Tally),
    ClientPlanError,
>)
    ensures
        decodes_tree(result, final(reader)@, parsed_payload(tag, old(reader)@, levels as nat, tally, grammar)),
    decreases levels, 3nat,
{
    if tag == NODE_AWAIT && grammar.resources {
        let (expression, tally) = decode_node(reader, levels, tally, grammar)?;
        Ok((ClientExpressionNode::Await { expression: Box::new(expression) }, tally))
    } else if tag == NODE_RESOURCE && grammar.resources {
        let (operation, tally) = decode_resource_operation(reader, levels, tally, grammar)?;
        Ok((ClientExpressionNode::Resource { operation }, tally))
    } else if tag == NODE_ACTION && grammar.programmable {
        let (operation, tally) = decode_action_operation(reader, levels, tally, grammar)?;
        Ok((ClientExpressionNode::Action { operation }, tally))
    } else if tag == NODE_INSPECT && grammar.inspect {
        let (operation, tally) = decode_inspect_operation(reader, levels, tally, grammar)?;
        Ok((ClientExpressionNode::Inspect { operation }, tally))
    } else if tag == NODE_CALL {
        let function: u128 = take_identity(reader)?;
        let length: u32 = take_u32(reader)?;
        if length as usize > MAX_CALL_ARGUMENTS {
            return Err(ClientPlanError::ExpressionCollectionExceeded { limit: MAX_CALL_ARGUMENTS });
        }
        let (arguments, tally) = decode_arguments(
            reader,
            length as usize,
            ArgumentRule::Call,
            levels,
            tally,
            grammar,
        )?;
        Ok((ClientExpressionNode::Call { function: FunctionId(function), arguments }, tally))
    } else if tag == NODE_STRING {
        let value = decode_node_text(reader, NODE_STRING)?;
        Ok((ClientExpressionNode::String { value }, tally))
    } else if tag == NODE_INTEGER {
        let value: i64 = take_i64(reader)?;
        Ok((ClientExpressionNode::Integer { value }, tally))
    } else if tag == NODE_BOOLEAN {
        let expression = decode_boolean(reader)?;
        Ok((expression, tally))
    } else if tag == NODE_PARAMETER_READ {
        let parameter: u128 = take_identity(reader)?;
        Ok((ClientExpressionNode::ParameterRead { parameter: ParameterId(parameter) }, tally))
    } else if tag == NODE_LOCAL_READ && grammar.locals {
        let local: u128 = take_identity(reader)?;
        Ok((ClientExpressionNode::LocalRead { local: LocalId(local) }, tally))
    } else if tag == NODE_FIELD_PATH {
        let expression = decode_field_path(reader)?;
        Ok((expression, tally))
    } else if tag == NODE_CONCAT {
        let (left, tally) = decode_node(reader, levels, tally, grammar)?;
        let (right, tally) = decode_node(reader, levels, tally, grammar)?;
        Ok((ClientExpressionNode::Concat { left: Box::new(left), right: Box::new(right) }, tally))
    } else if tag == NODE_EXTERNAL_CONTRACT {
        let expression = decode_contract(reader)?;
        Ok((expression, tally))
    } else if tag == NODE_SOURCE_INTROSPECTION {
        Ok((ClientExpressionNode::SourceIntrospection, tally))
    } else if tag == NODE_INPUT {
        Ok((ClientExpressionNode::Input, tally))
    } else if tag == NODE_EVALUATE {
        let (expression, tally) = decode_node(reader, levels, tally, grammar)?;
        Ok((ClientExpressionNode::Evaluate { expression: Box::new(expression) }, tally))
    } else if tag == NODE_UNARY && grammar.programmable {
        let operator_tag: u8 = take_u8(reader)?;
        let operator = ControlFlowUnaryOperator::from_tag(operator_tag)?;
        let (expression, tally) = decode_node(reader, levels, tally, grammar)?;
        Ok((ClientExpressionNode::Unary { operator, expression: Box::new(expression) }, tally))
    } else if tag == NODE_BINARY && grammar.programmable {
        let operator_tag: u8 = take_u8(reader)?;
        let operator = ControlFlowBinaryOperator::from_tag(operator_tag)?;
        let (left, tally) = decode_node(reader, levels, tally, grammar)?;
        let (right, tally) = decode_node(reader, levels, tally, grammar)?;
        Ok((ClientExpressionNode::Binary { operator, left: Box::new(left), right: Box::new(right) }, tally))
    } else {
        Err(ClientPlanError::InvalidExpressionNode(tag))
    }
}

/// Reads a resource operation.
fn decode_resource_operation(reader: &mut Reader, levels: usize, tally: Tally, grammar: Grammar) -> (result: Result<
    (ResourceOperationNode, Tally),
    ClientPlanError,
>)
    ensures
        decodes_tree(result, final(reader)@, parsed_resource(old(reader)@, levels as nat, tally, grammar)),
    decreases levels, 2nat,
{
    let tally = tally.count_resource()?;
    let kind_tag: u8 = take_u8(reader)?;
    let kind = ResourceKind::from_tag(kind_tag)?;
    let pins = take_pins(reader, ArgumentRule::Resource)?;
    let count: u32 = take_u32(reader)?;
    if count as usize > MAX_RESOURCE_ARGUMENTS {
        return Err(ClientPlanError::ResourceArgumentLimitExceeded { limit: MAX_RESOURCE_ARGUMENTS });
    }
    let (arguments, tally) = decode_arguments(
        reader,
        count as usize,
        ArgumentRule::Resource,
        levels,
        tally,
        grammar.arguments(),
    )?;
    let result_type: u128 = take_pinned(reader, ArgumentRule::Resource)?;
    Ok(
        (
            ResourceOperationNode {
                kind,
                target: pins.target,
                target_revision: pins.target_revision,
                call_site: pins.call_site,
                arguments,
                result_type: TypeId(result_type),
            },
            tally,
        ),
    )
}

/// Reads an action operation without its node tag.
pub fn decode_action_operation(reader: &mut Reader, levels: usize, tally: Tally, grammar: Grammar) -> (result: Result<
    (ActionOperationNode, Tally),
    ClientPlanError,
>)
    ensures
        decodes_tree(result, final(reader)@, parsed_action(old(reader)@, levels as nat, tally, grammar)),
    decreases levels, 2nat,
{
    let (domain, pins, result_type, count) = decode_action_head(reader)?;
    let (arguments, tally) = decode_arguments(reader, count, ArgumentRule::Action, levels, tally, grammar)?;
    Ok(
        (
            ActionOperationNode {
                domain,
                target: pins.target,
                target_revision: pins.target_revision,
                call_site: pins.call_site,
                arguments,
                result_type,
            },
            tally,
        ),
    )
}

/// Reads the domain, pinned identities, result type and argument count of an
/// action operation.
pub fn decode_action_head(reader: &mut Reader) -> (result: Result<
    (ActionTargetDomain, Pins, TypeId, usize),
    ClientPlanError,
>)
    ensures
        match parsed_action_head(old(reader)@) {
            Ok(((domain, pins, result_type, count), rest)) => {
                &&& result is Ok
                &&& result->Ok_0.0 == domain
                &&& result->Ok_0.1 == pins
                &&& result->Ok_0.2 == result_type
                &&& result->Ok_0.3 == count
                &&& final(reader)@ == rest
            },
            Err(error) => result == Err::<(ActionTargetDomain, Pins, TypeId, usize), ClientPlanError>(error),
        },
{
    let domain_tag: u8 = take_u8(reader)?;
    let domain = ActionTargetDomain::from_tag(domain_tag)?;
    let pins = take_pins(reader, ArgumentRule::Action)?;
    let result_type: u128 = take_pinned(reader, ArgumentRule::Action)?;
    let count: u32 = take_u32(reader)?;
    if count as usize > MAX_ACTION_ARGUMENTS {
        return Err(ClientPlanError::ActionArgumentLimitExceeded { limit: MAX_ACTION_ARGUMENTS });
    }
    Ok((domain, pins, TypeId(result_type), count as usize))
}

/// Reads an Inspector operation.
fn decode_inspect_operation(reader: &mut Reader, levels: usize, tally: Tally, grammar: Grammar) -> (result: Result<
    (InspectOperationNode, Tally),
    ClientPlanError,
>)
    ensures
        decodes_tree(result, final(reader)@, parsed_inspect(old(reader)@, levels as nat, tally, grammar)),
    decreases levels, 2nat,
{
    let tag: u8 = take_u8(reader)?;
    if tag == INSPECT_OPERATION_SNAPSHOT {
        let (target, tally) = decode_node(reader, levels, tally, grammar)?;
        let marker: u8 = take_u8(reader)?;
        match marker {
            0 => Ok((InspectOperationNode::Snapshot { target: Box::new(target), options: None }, tally)),
            1 => Err(ClientPlanError::UnsupportedInspectOptions),
            marker => Err(ClientPlanError::InvalidInspectOperation(marker)),
        }
    } else if tag == INSPECT_OPERATION_PROJECTION {
        let projection_tag: u8 = take_u8(reader)?;
        let projection = InspectProjection::from_tag(projection_tag)?;
        let (snapshot, tally) = decode_node(reader, levels, tally, grammar)?;
        Ok((InspectOperationNode::Projection { projection, snapshot: Box::new(snapshot) }, tally))
    } else {
        Err(ClientPlanError::InvalidInspectOperation(tag))
    }
}

/// Reads `total` arguments.
fn decode_arguments(
    reader: &mut Reader,
    total: usize,
    rule: ArgumentRule,
    levels: usize,
    tally: Tally,
    grammar: Grammar,
) -> (result: Result<(Vec<(ParameterId, ClientExpressionNode)>, Tally), ClientPlanError>)
    ensures
        match parsed_arguments(old(reader)@, Seq::empty(), total as nat, rule, levels as nat, tally, grammar) {
            Ok((arguments, rest, behind)) => {
                &&& result is Ok
                &&& arguments_of(result->Ok_0.0@) == arguments
                &&& result->Ok_0.1 == behind
                &&& final(reader)@ == rest
            },
            Err(error) => result == Err::<(Vec<(ParameterId, ClientExpressionNode)>, Tally), ClientPlanError>(error),
        },
    decreases levels, 1nat,
{
    let mut arguments: Vec<(ParameterId, ClientExpressionNode)> = Vec::with_capacity(total);
    let mut behind = tally;
    let mut previous: Option<ParameterId> = None;
    assert(arguments_of(arguments@) =~= Seq::empty());
    while arguments.len() < total
        invariant
            arguments.len() <= total,
            previous == previous_parameter(arguments_of(arguments@), arguments.len() as int),
            parsed_arguments(old(reader)@, Seq::empty(), total as nat, rule, levels as nat, tally, grammar)
                == parsed_arguments(
                reader@,
                arguments_of(arguments@),
                total as nat,
                rule,
                levels as nat,
                behind,
                grammar,
            ),
        decreases total - arguments.len(),
    {
        let ghost done = arguments_of(arguments@);
        let identity: u128 = take_identity(reader)?;
        let parameter = ParameterId(identity);
        validate_argument(rule, previous, parameter)?;
        let (value, next) = decode_node(reader, levels, behind, grammar)?;
        let ghost expression = value@;
        arguments.push((parameter, value));
        behind = next;
        previous = Some(parameter);
        assert(arguments_of(arguments@) =~= done.push((parameter, expression)));
    }
    Ok((arguments, behind))
}

} // verus!
