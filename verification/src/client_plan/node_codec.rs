//! The canonical encoding of expression trees.
//!
//! A node is a tag byte followed by its exact payload. [`node_then`] gives the
//! encoding of a tree in front of other bytes, and [`parsed_node`] reads a tree
//! from the front of an input, enforcing the node set and the limits on the
//! way.

use vstd::prelude::*;
use vstd::utf8::encode_utf8;

use crate::artifact_codec::{
    boolean_byte, i64_bytes, read_bytes, read_i64, read_identity, read_u32, read_u8, u32_bytes,
};
use crate::client_plan::contract::valid_contract_identity;
use crate::client_plan::error::ClientPlanError;
use crate::client_plan::expression::{ActionOperation, Expression, InspectOperation, ResourceOperation};
use crate::client_plan::grammar::{Grammar, Tally};
use crate::client_plan::operation::{argument_refusal, previous_parameter, ArgumentRule};
use crate::client_plan::operator::{
    ActionTargetDomain, ControlFlowBinaryOperator, ControlFlowUnaryOperator, InspectProjection, ResourceKind,
};
use crate::client_plan::{
    INSPECT_OPERATION_PROJECTION, INSPECT_OPERATION_SNAPSHOT, MAX_ACTION_ARGUMENTS, MAX_CALL_ARGUMENTS,
    MAX_EXPRESSION_NODES, MAX_FIELD_PATH_LENGTH, MAX_RESOURCE_ARGUMENTS, MAX_RESOURCE_OPERATIONS,
};
use crate::client_plan::{
    NODE_ACTION, NODE_AWAIT, NODE_BINARY, NODE_BOOLEAN, NODE_CALL, NODE_CONCAT, NODE_EVALUATE, NODE_EXTERNAL_CONTRACT,
    NODE_FIELD_PATH, NODE_INPUT, NODE_INSPECT, NODE_INTEGER, NODE_LOCAL_READ, NODE_PARAMETER_READ, NODE_RESOURCE,
    NODE_SOURCE_INTROSPECTION, NODE_STRING, NODE_UNARY,
};
use crate::identity::{
    identity_bytes, CallSiteId, CatalogueRevisionId, FieldId, FunctionId, LocalId, ParameterId, RevisionPair,
    SourceRevisionId, TypeId,
};
use crate::text::decoded_text;

verus! {

/// A length-prefixed text in front of `rest`.
pub open spec fn text_then(text: Seq<char>, rest: Seq<u8>) -> Seq<u8> {
    u32_bytes(encode_utf8(text).len() as u32) + (encode_utf8(text) + rest)
}

/// The fields from `index` on in front of `rest`.
pub open spec fn fields_then(fields: Seq<FieldId>, index: nat, rest: Seq<u8>) -> Seq<u8>
    decreases fields.len() - index,
{
    if index >= fields.len() {
        rest
    } else {
        identity_bytes(fields[index as int].0) + fields_then(fields, index + 1, rest)
    }
}

/// The encoding of a tree in front of `rest`.
pub open spec fn node_then(expression: Expression, rest: Seq<u8>) -> Seq<u8>
    decreases expression, 0nat,
{
    match expression {
        Expression::Await { expression } => seq![NODE_AWAIT] + node_then(*expression, rest),
        Expression::Resource { operation } => seq![NODE_RESOURCE] + (seq![operation.kind.wire()] + (identity_bytes(
            operation.target.0,
        ) + (identity_bytes(operation.target_revision.source.0) + (identity_bytes(
            operation.target_revision.catalogue.0,
        ) + (identity_bytes(operation.call_site.0) + (u32_bytes(operation.arguments.len() as u32) + arguments_then(
            operation.arguments,
            0,
            identity_bytes(operation.result_type.0) + rest,
        ))))))),
        Expression::Inspect { operation } => match operation {
            InspectOperation::Snapshot { target, .. } => seq![NODE_INSPECT] + (seq![INSPECT_OPERATION_SNAPSHOT]
                + node_then(*target, seq![0u8] + rest)),
            InspectOperation::Projection { projection, snapshot } => seq![NODE_INSPECT] + (
            seq![INSPECT_OPERATION_PROJECTION] + (seq![projection.wire()] + node_then(*snapshot, rest))),
        },
        Expression::Action { operation } => seq![NODE_ACTION] + action_then(operation, rest),
        Expression::Call { function, arguments } => seq![NODE_CALL] + (identity_bytes(function.0) + (u32_bytes(
            arguments.len() as u32,
        ) + arguments_then(arguments, 0, rest))),
        Expression::String { value } => seq![NODE_STRING] + text_then(value, rest),
        Expression::Integer { value } => seq![NODE_INTEGER] + (i64_bytes(value) + rest),
        Expression::Boolean { value } => seq![NODE_BOOLEAN] + (seq![boolean_byte(value)] + rest),
        Expression::SourceIntrospection => seq![NODE_SOURCE_INTROSPECTION] + rest,
        Expression::Input => seq![NODE_INPUT] + rest,
        Expression::Evaluate { expression } => seq![NODE_EVALUATE] + node_then(*expression, rest),
        Expression::ParameterRead { parameter } => seq![NODE_PARAMETER_READ] + (identity_bytes(parameter.0) + rest),
        Expression::LocalRead { local } => seq![NODE_LOCAL_READ] + (identity_bytes(local.0) + rest),
        Expression::FieldPath { root, fields } => seq![NODE_FIELD_PATH] + (identity_bytes(root.0) + (u32_bytes(
            fields.len() as u32,
        ) + fields_then(fields, 0, rest))),
        Expression::Concat { left, right } => seq![NODE_CONCAT] + node_then(*left, node_then(*right, rest)),
        Expression::ExternalContract { identity } => seq![NODE_EXTERNAL_CONTRACT] + text_then(identity, rest),
        Expression::Unary { operator, expression } => seq![NODE_UNARY] + (seq![operator.wire()] + node_then(
            *expression,
            rest,
        )),
        Expression::Binary { operator, left, right } => seq![NODE_BINARY] + (seq![operator.wire()] + node_then(
            *left,
            node_then(*right, rest),
        )),
    }
}

/// The arguments from `index` on, each a parameter and a value, in front of
/// `rest`.
pub open spec fn arguments_then(arguments: Seq<(ParameterId, Expression)>, index: nat, rest: Seq<u8>) -> Seq<u8>
    decreases arguments, arguments.len() - index,
{
    if index >= arguments.len() {
        rest
    } else {
        identity_bytes(arguments[index as int].0.0) + node_then(
            arguments[index as int].1,
            arguments_then(arguments, index + 1, rest),
        )
    }
}

/// An action operation without its node tag, in front of `rest`.
pub open spec fn action_then(operation: ActionOperation, rest: Seq<u8>) -> Seq<u8>
    decreases operation, 0nat,
{
    seq![operation.domain.wire()] + (identity_bytes(operation.target.0) + (identity_bytes(
        operation.target_revision.source.0,
    ) + (identity_bytes(operation.target_revision.catalogue.0) + (identity_bytes(operation.call_site.0) + (
    identity_bytes(operation.result_type.0) + (u32_bytes(operation.arguments.len() as u32) + arguments_then(
        operation.arguments,
        0,
        rest,
    )))))))
}

/// What was read, and what follows it.
pub type Parsed<T> = Result<(T, Seq<u8>), ClientPlanError>;

/// What was read, what follows it, and the tally behind it.
pub type ParsedTree<T> = Result<(T, Seq<u8>, Tally), ClientPlanError>;

/// A length-prefixed text of the node `tag`.
pub open spec fn parsed_text(input: Seq<u8>, tag: u8) -> Parsed<Seq<char>> {
    match read_u32(input) {
        None => Err(ClientPlanError::Truncated),
        Some((length, rest)) => match read_bytes(rest, length as nat) {
            None => Err(ClientPlanError::Truncated),
            Some((bytes, rest)) => match decoded_text(bytes) {
                None => Err(ClientPlanError::InvalidExpressionNode(tag)),
                Some(text) => Ok((text, rest)),
            },
        },
    }
}

/// A contract identity.
pub open spec fn parsed_contract(input: Seq<u8>) -> Parsed<Expression> {
    match parsed_text(input, NODE_EXTERNAL_CONTRACT) {
        Err(error) => Err(error),
        Ok((identity, rest)) => if valid_contract_identity(identity) {
            Ok((Expression::ExternalContract { identity }, rest))
        } else {
            Err(ClientPlanError::InvalidExpressionNode(NODE_EXTERNAL_CONTRACT))
        },
    }
}

/// A Boolean literal.
pub open spec fn parsed_boolean(input: Seq<u8>) -> Parsed<Expression> {
    match read_u8(input) {
        None => Err(ClientPlanError::Truncated),
        Some((byte, rest)) => if byte > 1 {
            Err(ClientPlanError::InvalidExpressionNode(NODE_BOOLEAN))
        } else {
            Ok((Expression::Boolean { value: byte == 1 }, rest))
        },
    }
}

/// Fields up to `total`, the first of which are `done`.
pub open spec fn parsed_fields(input: Seq<u8>, done: Seq<FieldId>, total: nat) -> Parsed<Seq<FieldId>>
    decreases total - done.len(),
{
    if done.len() >= total {
        Ok((done, input))
    } else {
        match read_identity(input) {
            None => Err(ClientPlanError::Truncated),
            Some((field, rest)) => parsed_fields(rest, done.push(FieldId(field)), total),
        }
    }
}

/// A field path.
pub open spec fn parsed_field_path(input: Seq<u8>) -> Parsed<Expression> {
    match read_identity(input) {
        None => Err(ClientPlanError::Truncated),
        Some((root, rest)) => match read_u32(rest) {
            None => Err(ClientPlanError::Truncated),
            Some((length, rest)) => if length == 0 {
                Err(ClientPlanError::InvalidExpressionNode(NODE_FIELD_PATH))
            } else if length > MAX_FIELD_PATH_LENGTH {
                Err(ClientPlanError::ExpressionCollectionExceeded { limit: MAX_FIELD_PATH_LENGTH })
            } else {
                match parsed_fields(rest, Seq::empty(), length as nat) {
                    Err(error) => Err(error),
                    Ok((fields, rest)) => Ok((Expression::FieldPath { root: ParameterId(root), fields }, rest)),
                }
            },
        },
    }
}

/// An identity that must not be zero.
pub open spec fn parsed_pinned(input: Seq<u8>, zero: ClientPlanError) -> Parsed<u128> {
    match read_identity(input) {
        None => Err(ClientPlanError::Truncated),
        Some((identity, rest)) => if identity == 0 {
            Err(zero)
        } else {
            Ok((identity, rest))
        },
    }
}

/// The target function, revisions and call site of an operation.
pub struct Pins {
    pub target: FunctionId,
    pub target_revision: RevisionPair,
    pub call_site: CallSiteId,
}

/// The target function, revisions and call site of an operation.
pub open spec fn parsed_pins(input: Seq<u8>, zero: ClientPlanError) -> Parsed<Pins> {
    match parsed_pinned(input, zero) {
        Err(error) => Err(error),
        Ok((target, rest)) => match parsed_pinned(rest, zero) {
            Err(error) => Err(error),
            Ok((source, rest)) => match parsed_pinned(rest, zero) {
                Err(error) => Err(error),
                Ok((catalogue, rest)) => match parsed_pinned(rest, zero) {
                    Err(error) => Err(error),
                    Ok((call_site, rest)) => Ok(
                        (
                            Pins {
                                target: FunctionId(target),
                                target_revision: RevisionPair {
                                    source: SourceRevisionId(source),
                                    catalogue: CatalogueRevisionId(catalogue),
                                },
                                call_site: CallSiteId(call_site),
                            },
                            rest,
                        ),
                    ),
                },
            },
        },
    }
}

/// An expression without operands, behind the tally of its node.
pub open spec fn leaf(parsed: Parsed<Expression>, tally: Tally) -> ParsedTree<Expression> {
    match parsed {
        Err(error) => Err(error),
        Ok((expression, rest)) => Ok((expression, rest, tally)),
    }
}

/// A tree with at most `levels` levels.
pub open spec fn parsed_node(input: Seq<u8>, levels: nat, tally: Tally, grammar: Grammar) -> ParsedTree<Expression>
    decreases levels, 0nat, 0nat,
{
    if levels == 0 {
        Err(ClientPlanError::ExpressionDepthExceeded)
    } else if tally.with_node().nodes > MAX_EXPRESSION_NODES {
        Err(ClientPlanError::ExpressionNodeCountExceeded)
    } else {
        match read_u8(input) {
            None => Err(ClientPlanError::Truncated),
            Some((tag, rest)) => parsed_payload(tag, rest, (levels - 1) as nat, tally.with_node(), grammar),
        }
    }
}

/// The payload of a node, whose operands have at most `levels` levels.
pub open spec fn parsed_payload(tag: u8, input: Seq<u8>, levels: nat, tally: Tally, grammar: Grammar) -> ParsedTree<
    Expression,
>
    decreases levels, 3nat, 0nat,
{
    if tag == NODE_AWAIT && grammar.resources {
        match parsed_node(input, levels, tally, grammar) {
            Err(error) => Err(error),
            Ok((expression, rest, tally)) => Ok(
                (Expression::Await { expression: Box::new(expression) }, rest, tally),
            ),
        }
    } else if tag == NODE_RESOURCE && grammar.resources {
        match parsed_resource(input, levels, tally, grammar) {
            Err(error) => Err(error),
            Ok((operation, rest, tally)) => Ok((Expression::Resource { operation }, rest, tally)),
        }
    } else if tag == NODE_ACTION && grammar.programmable {
        match parsed_action(input, levels, tally, grammar) {
            Err(error) => Err(error),
            Ok((operation, rest, tally)) => Ok((Expression::Action { operation }, rest, tally)),
        }
    } else if tag == NODE_INSPECT && grammar.inspect {
        match parsed_inspect(input, levels, tally, grammar) {
            Err(error) => Err(error),
            Ok((operation, rest, tally)) => Ok((Expression::Inspect { operation }, rest, tally)),
        }
    } else if tag == NODE_CALL {
        match read_identity(input) {
            None => Err(ClientPlanError::Truncated),
            Some((function, rest)) => match read_u32(rest) {
                None => Err(ClientPlanError::Truncated),
                Some((length, rest)) => if length > MAX_CALL_ARGUMENTS {
                    Err(ClientPlanError::ExpressionCollectionExceeded { limit: MAX_CALL_ARGUMENTS })
                } else {
                    match parsed_arguments(
                        rest,
                        Seq::empty(),
                        length as nat,
                        ArgumentRule::Call,
                        levels,
                        tally,
                        grammar,
                    ) {
                        Err(error) => Err(error),
                        Ok((arguments, rest, tally)) => Ok(
                            (Expression::Call { function: FunctionId(function), arguments }, rest, tally),
                        ),
                    }
                },
            },
        }
    } else if tag == NODE_STRING {
        match parsed_text(input, NODE_STRING) {
            Err(error) => Err(error),
            Ok((value, rest)) => Ok((Expression::String { value }, rest, tally)),
        }
    } else if tag == NODE_INTEGER {
        match read_i64(input) {
            None => Err(ClientPlanError::Truncated),
            Some((value, rest)) => Ok((Expression::Integer { value }, rest, tally)),
        }
    } else if tag == NODE_BOOLEAN {
        leaf(parsed_boolean(input), tally)
    } else if tag == NODE_PARAMETER_READ {
        match read_identity(input) {
            None => Err(ClientPlanError::Truncated),
            Some((parameter, rest)) => Ok(
                (Expression::ParameterRead { parameter: ParameterId(parameter) }, rest, tally),
            ),
        }
    } else if tag == NODE_LOCAL_READ && grammar.locals {
        match read_identity(input) {
            None => Err(ClientPlanError::Truncated),
            Some((local, rest)) => Ok((Expression::LocalRead { local: LocalId(local) }, rest, tally)),
        }
    } else if tag == NODE_FIELD_PATH {
        leaf(parsed_field_path(input), tally)
    } else if tag == NODE_CONCAT {
        match parsed_node(input, levels, tally, grammar) {
            Err(error) => Err(error),
            Ok((left, rest, tally)) => match parsed_node(rest, levels, tally, grammar) {
                Err(error) => Err(error),
                Ok((right, rest, tally)) => Ok(
                    (Expression::Concat { left: Box::new(left), right: Box::new(right) }, rest, tally),
                ),
            },
        }
    } else if tag == NODE_EXTERNAL_CONTRACT {
        leaf(parsed_contract(input), tally)
    } else if tag == NODE_SOURCE_INTROSPECTION {
        Ok((Expression::SourceIntrospection, input, tally))
    } else if tag == NODE_INPUT {
        Ok((Expression::Input, input, tally))
    } else if tag == NODE_EVALUATE {
        match parsed_node(input, levels, tally, grammar) {
            Err(error) => Err(error),
            Ok((expression, rest, tally)) => Ok(
                (Expression::Evaluate { expression: Box::new(expression) }, rest, tally),
            ),
        }
    } else if tag == NODE_UNARY && grammar.programmable {
        match read_u8(input) {
            None => Err(ClientPlanError::Truncated),
            Some((operator, rest)) => match ControlFlowUnaryOperator::of_wire(operator) {
                None => Err(ClientPlanError::InvalidControlFlowUnaryOperator(operator)),
                Some(operator) => match parsed_node(rest, levels, tally, grammar) {
                    Err(error) => Err(error),
                    Ok((expression, rest, tally)) => Ok(
                        (Expression::Unary { operator, expression: Box::new(expression) }, rest, tally),
                    ),
                },
            },
        }
    } else if tag == NODE_BINARY && grammar.programmable {
        match read_u8(input) {
            None => Err(ClientPlanError::Truncated),
            Some((operator, rest)) => match ControlFlowBinaryOperator::of_wire(operator) {
                None => Err(ClientPlanError::InvalidControlFlowBinaryOperator(operator)),
                Some(operator) => match parsed_node(rest, levels, tally, grammar) {
                    Err(error) => Err(error),
                    Ok((left, rest, tally)) => match parsed_node(rest, levels, tally, grammar) {
                        Err(error) => Err(error),
                        Ok((right, rest, tally)) => Ok(
                            (
                                Expression::Binary { operator, left: Box::new(left), right: Box::new(right) },
                                rest,
                                tally,
                            ),
                        ),
                    },
                },
            },
        }
    } else {
        Err(ClientPlanError::InvalidExpressionNode(tag))
    }
}

/// A resource operation.
pub open spec fn parsed_resource(input: Seq<u8>, levels: nat, tally: Tally, grammar: Grammar) -> ParsedTree<
    ResourceOperation,
>
    decreases levels, 2nat, 0nat,
{
    if tally.with_resource().resources > MAX_RESOURCE_OPERATIONS {
        Err(ClientPlanError::ResourceOperationLimitExceeded { limit: MAX_RESOURCE_OPERATIONS })
    } else {
        match read_u8(input) {
            None => Err(ClientPlanError::Truncated),
            Some((kind, rest)) => match ResourceKind::of_wire(kind) {
                None => Err(ClientPlanError::InvalidResourceKind(kind)),
                Some(kind) => match parsed_pins(rest, ClientPlanError::InvalidResourceIdentity) {
                    Err(error) => Err(error),
                    Ok((pins, rest)) => match read_u32(rest) {
                        None => Err(ClientPlanError::Truncated),
                        Some((count, rest)) => if count > MAX_RESOURCE_ARGUMENTS {
                            Err(ClientPlanError::ResourceArgumentLimitExceeded { limit: MAX_RESOURCE_ARGUMENTS })
                        } else {
                            match parsed_arguments(
                                rest,
                                Seq::empty(),
                                count as nat,
                                ArgumentRule::Resource,
                                levels,
                                tally.with_resource(),
                                grammar.of_arguments(),
                            ) {
                                Err(error) => Err(error),
                                Ok((arguments, rest, tally)) => match parsed_pinned(
                                    rest,
                                    ClientPlanError::InvalidResourceIdentity,
                                ) {
                                    Err(error) => Err(error),
                                    Ok((result_type, rest)) => Ok(
                                        (
                                            ResourceOperation {
                                                kind,
                                                target: pins.target,
                                                target_revision: pins.target_revision,
                                                call_site: pins.call_site,
                                                arguments,
                                                result_type: TypeId(result_type),
                                            },
                                            rest,
                                            tally,
                                        ),
                                    ),
                                },
                            }
                        },
                    },
                },
            },
        }
    }
}

/// An action operation without its node tag.
pub open spec fn parsed_action(input: Seq<u8>, levels: nat, tally: Tally, grammar: Grammar) -> ParsedTree<
    ActionOperation,
>
    decreases levels, 2nat, 0nat,
{
    match parsed_action_head(input) {
        Err(error) => Err(error),
        Ok(((domain, pins, result_type, count), rest)) => match parsed_arguments(
            rest,
            Seq::empty(),
            count,
            ArgumentRule::Action,
            levels,
            tally,
            grammar,
        ) {
            Err(error) => Err(error),
            Ok((arguments, rest, tally)) => Ok(
                (
                    ActionOperation {
                        domain,
                        target: pins.target,
                        target_revision: pins.target_revision,
                        call_site: pins.call_site,
                        arguments,
                        result_type,
                    },
                    rest,
                    tally,
                ),
            ),
        },
    }
}

/// The domain, pinned identities, result type and argument count of an action
/// operation.
pub open spec fn parsed_action_head(input: Seq<u8>) -> Parsed<(ActionTargetDomain, Pins, TypeId, nat)> {
    match read_u8(input) {
        None => Err(ClientPlanError::Truncated),
        Some((domain, rest)) => match ActionTargetDomain::of_wire(domain) {
            None => Err(ClientPlanError::InvalidActionDomain(domain)),
            Some(domain) => match parsed_pins(rest, ClientPlanError::InvalidActionIdentity) {
                Err(error) => Err(error),
                Ok((pins, rest)) => match parsed_pinned(rest, ClientPlanError::InvalidActionIdentity) {
                    Err(error) => Err(error),
                    Ok((result_type, rest)) => match read_u32(rest) {
                        None => Err(ClientPlanError::Truncated),
                        Some((count, rest)) => if count > MAX_ACTION_ARGUMENTS {
                            Err(ClientPlanError::ActionArgumentLimitExceeded { limit: MAX_ACTION_ARGUMENTS })
                        } else {
                            Ok(((domain, pins, TypeId(result_type), count as nat), rest))
                        },
                    },
                },
            },
        },
    }
}

/// An Inspector operation.
pub open spec fn parsed_inspect(input: Seq<u8>, levels: nat, tally: Tally, grammar: Grammar) -> ParsedTree<
    InspectOperation,
>
    decreases levels, 2nat, 0nat,
{
    match read_u8(input) {
        None => Err(ClientPlanError::Truncated),
        Some((tag, rest)) => if tag == INSPECT_OPERATION_SNAPSHOT {
            match parsed_node(rest, levels, tally, grammar) {
                Err(error) => Err(error),
                Ok((target, rest, tally)) => match read_u8(rest) {
                    None => Err(ClientPlanError::Truncated),
                    Some((marker, rest)) => if marker == 0 {
                        Ok((InspectOperation::Snapshot { target: Box::new(target), options: None }, rest, tally))
                    } else if marker == 1 {
                        Err(ClientPlanError::UnsupportedInspectOptions)
                    } else {
                        Err(ClientPlanError::InvalidInspectOperation(marker))
                    },
                },
            }
        } else if tag == INSPECT_OPERATION_PROJECTION {
            match read_u8(rest) {
                None => Err(ClientPlanError::Truncated),
                Some((projection, rest)) => match InspectProjection::of_wire(projection) {
                    None => Err(ClientPlanError::InvalidInspectProjection(projection)),
                    Some(projection) => match parsed_node(rest, levels, tally, grammar) {
                        Err(error) => Err(error),
                        Ok((snapshot, rest, tally)) => Ok(
                            (InspectOperation::Projection { projection, snapshot: Box::new(snapshot) }, rest, tally),
                        ),
                    },
                },
            }
        } else {
            Err(ClientPlanError::InvalidInspectOperation(tag))
        },
    }
}

/// Arguments up to `total`, the first of which are `done`.
pub open spec fn parsed_arguments(
    input: Seq<u8>,
    done: Seq<(ParameterId, Expression)>,
    total: nat,
    rule: ArgumentRule,
    levels: nat,
    tally: Tally,
    grammar: Grammar,
) -> ParsedTree<Seq<(ParameterId, Expression)>>
    decreases levels, 1nat, total - done.len(),
{
    if done.len() >= total {
        Ok((done, input, tally))
    } else {
        match read_identity(input) {
            None => Err(ClientPlanError::Truncated),
            Some((parameter, rest)) => match argument_refusal(
                rule,
                previous_parameter(done, done.len() as int),
                ParameterId(parameter),
            ) {
                Some(error) => Err(error),
                None => match parsed_node(rest, levels, tally, grammar) {
                    Err(error) => Err(error),
                    Ok((value, rest, tally)) => parsed_arguments(
                        rest,
                        done.push((ParameterId(parameter), value)),
                        total,
                        rule,
                        levels,
                        tally,
                        grammar,
                    ),
                },
            },
        }
    }
}

} // verus!
