//! Laws of the expression-tree encoding.

use vstd::prelude::*;
use vstd::utf8::encode_utf8;

use crate::artifact_codec::{boolean_byte, i64_bytes, read_bytes, read_identity, read_u32, read_u8, u32_bytes};
use crate::artifact_codec::{lemma_bytes_read, lemma_i64_read, lemma_identity_read, lemma_u32_read, lemma_u8_read};
use crate::artifact_codec::{lemma_read_bytes, lemma_read_i64, lemma_read_identity, lemma_read_u32, lemma_read_u8};
use crate::client_plan::error::ClientPlanError;
use crate::client_plan::expression::{
    argument_values, operands, ActionOperation, Expression, InspectOperation, ResourceOperation,
};
use crate::client_plan::grammar::{admitted, all_admitted, encoded_operands, text_refusal, Grammar, Tally};
use crate::client_plan::node_codec::{
    action_then, arguments_then, fields_then, node_then, parsed_action, parsed_arguments, parsed_fields,
    parsed_inspect, parsed_node, parsed_payload, parsed_pins, parsed_resource, parsed_text, text_then, Pins,
};
use crate::client_plan::operation::{
    action_refusal, argument_refusal, arguments_keep, lemma_action_arguments_keep, lemma_resource_arguments_keep,
    previous_parameter, ArgumentRule,
};
use crate::client_plan::{INSPECT_OPERATION_PROJECTION, INSPECT_OPERATION_SNAPSHOT, MAX_EXPRESSION_NODES};
use crate::client_plan::{
    NODE_ACTION, NODE_AWAIT, NODE_BINARY, NODE_BOOLEAN, NODE_CALL, NODE_CONCAT, NODE_EVALUATE, NODE_EXTERNAL_CONTRACT,
    NODE_FIELD_PATH, NODE_INPUT, NODE_INSPECT, NODE_INTEGER, NODE_LOCAL_READ, NODE_PARAMETER_READ, NODE_RESOURCE,
    NODE_SOURCE_INTROSPECTION, NODE_STRING, NODE_UNARY,
};
use crate::identity::{identity_bytes, FieldId, ParameterId};
use crate::text::law_text_round_trip;

verus! {

/// A text is read back.
proof fn lemma_text_round_trip(text: Seq<char>, tag: u8, rest: Seq<u8>)
    requires
        text_refusal(text) is None,
    ensures
        parsed_text(text_then(text, rest), tag) == Ok::<(Seq<char>, Seq<u8>), ClientPlanError>((text, rest)),
{
    let bytes = encode_utf8(text);
    lemma_read_u32(bytes.len() as u32, bytes + rest);
    lemma_read_bytes(bytes, rest);
    law_text_round_trip(text, bytes);
}

/// What a text was read from.
proof fn lemma_text_canonical(input: Seq<u8>, tag: u8)
    ensures
        parsed_text(input, tag) matches Ok((text, rest)) ==> input == text_then(text, rest) && text_refusal(text)
            is None,
{
    if parsed_text(input, tag) is Ok {
        lemma_u32_read(input);
        let (length, after_length) = read_u32(input)->Some_0;
        lemma_bytes_read(after_length, length as nat);
        let (bytes, rest) = read_bytes(after_length, length as nat)->Some_0;
        law_text_round_trip(Seq::empty(), bytes);
    }
}

/// Fields are read back.
proof fn lemma_fields_round_trip(fields: Seq<FieldId>, index: nat, rest: Seq<u8>)
    requires
        index <= fields.len(),
    ensures
        parsed_fields(fields_then(fields, index, rest), fields.take(index as int), fields.len()) == Ok::<
            (Seq<FieldId>, Seq<u8>),
            ClientPlanError,
        >((fields, rest)),
    decreases fields.len() - index,
{
    if index < fields.len() {
        lemma_read_identity(fields[index as int].0, fields_then(fields, index + 1, rest));
        lemma_fields_round_trip(fields, index + 1, rest);
        assert(fields.take(index as int).push(fields[index as int]) =~= fields.take((index + 1) as int));
    } else {
        assert(fields.take(index as int) =~= fields);
    }
}

/// What fields were read from.
proof fn lemma_fields_canonical(input: Seq<u8>, done: Seq<FieldId>, total: nat)
    requires
        done.len() <= total,
    ensures
        parsed_fields(input, done, total) matches Ok((fields, rest)) ==> {
            &&& fields.len() == total
            &&& fields.take(done.len() as int) == done
            &&& input == fields_then(fields, done.len(), rest)
        },
    decreases total - done.len(),
{
    if done.len() < total {
        if read_identity(input) is Some {
            lemma_identity_read(input);
            let (field, rest) = read_identity(input)->Some_0;
            let next = done.push(FieldId(field));
            lemma_fields_canonical(rest, next, total);
            if parsed_fields(rest, next, total) is Ok {
                let fields = parsed_fields(rest, next, total)->Ok_0.0;
                assert(fields.take(done.len() as int) =~= fields.take(next.len() as int).take(done.len() as int));
                assert(next.take(done.len() as int) =~= done);
                assert(fields[done.len() as int] == fields.take(next.len() as int)[done.len() as int]);
            }
        }
    } else {
        assert(done.take(done.len() as int) =~= done);
    }
}

/// The pinned identities of an operation are read back.
proof fn lemma_pins_round_trip(pins: Pins, zero: ClientPlanError, rest: Seq<u8>)
    requires
        pins.target.0 != 0,
        pins.target_revision.source.0 != 0,
        pins.target_revision.catalogue.0 != 0,
        pins.call_site.0 != 0,
    ensures
        parsed_pins(
            identity_bytes(pins.target.0) + (identity_bytes(pins.target_revision.source.0) + (identity_bytes(
                pins.target_revision.catalogue.0,
            ) + (identity_bytes(pins.call_site.0) + rest))),
            zero,
        ) == Ok::<(Pins, Seq<u8>), ClientPlanError>((pins, rest)),
{
    let after_catalogue = identity_bytes(pins.call_site.0) + rest;
    let after_source = identity_bytes(pins.target_revision.catalogue.0) + after_catalogue;
    let after_target = identity_bytes(pins.target_revision.source.0) + after_source;
    lemma_read_identity(pins.target.0, after_target);
    lemma_read_identity(pins.target_revision.source.0, after_source);
    lemma_read_identity(pins.target_revision.catalogue.0, after_catalogue);
    lemma_read_identity(pins.call_site.0, rest);
}

/// What the pinned identities of an operation were read from.
proof fn lemma_pins_canonical(input: Seq<u8>, zero: ClientPlanError)
    ensures
        parsed_pins(input, zero) matches Ok((pins, rest)) ==> {
            &&& pins.target.0 != 0
            &&& pins.target_revision.source.0 != 0
            &&& pins.target_revision.catalogue.0 != 0
            &&& pins.call_site.0 != 0
            &&& input == identity_bytes(pins.target.0) + (identity_bytes(pins.target_revision.source.0) + (
            identity_bytes(pins.target_revision.catalogue.0) + (identity_bytes(pins.call_site.0) + rest)))
        },
{
    if parsed_pins(input, zero) is Ok {
        lemma_identity_read(input);
        let after_target = read_identity(input)->Some_0.1;
        lemma_identity_read(after_target);
        let after_source = read_identity(after_target)->Some_0.1;
        lemma_identity_read(after_source);
        let after_catalogue = read_identity(after_source)->Some_0.1;
        lemma_identity_read(after_catalogue);
    }
}

/// Reading a node in front of its payload.
proof fn lemma_tagged(tag: u8, payload: Seq<u8>, levels: nat, tally: Tally, grammar: Grammar)
    requires
        levels > 0,
        tally.with_node().nodes <= MAX_EXPRESSION_NODES,
    ensures
        parsed_node(seq![tag] + payload, levels, tally, grammar) == parsed_payload(
            tag,
            payload,
            (levels - 1) as nat,
            tally.with_node(),
            grammar,
        ),
{
    lemma_read_u8(tag, payload);
}

/// A tree that its node set and limits admit is read back from its encoding,
/// whatever follows it, and is counted alike on both sides.
pub proof fn law_node_round_trip(expression: Expression, levels: nat, tally: Tally, grammar: Grammar, rest: Seq<u8>)
    ensures
        admitted(expression, levels, tally, grammar) matches Ok(behind) ==> parsed_node(
            node_then(expression, rest),
            levels,
            tally,
            grammar,
        ) == Ok::<(Expression, Seq<u8>, Tally), ClientPlanError>((expression, rest, behind)),
    decreases levels, 1nat,
{
    if admitted(expression, levels, tally, grammar) is Ok {
        match expression {
            Expression::Await { .. } | Expression::Evaluate { .. } | Expression::Unary { .. } => {
                lemma_single_operand_round_trip(expression, levels, tally, grammar, rest);
            },
            Expression::Concat { .. } => {
                lemma_concat_round_trip(expression, levels, tally, grammar, rest);
            },
            Expression::Binary { .. } => {
                lemma_binary_round_trip(expression, levels, tally, grammar, rest);
            },
            Expression::Inspect { .. } => {
                lemma_inspect_round_trip(expression, levels, tally, grammar, rest);
            },
            Expression::Resource { operation } => {
                lemma_resource_round_trip(operation, levels, tally, grammar, rest);
            },
            Expression::Action { operation } => {
                let inner = (levels - 1) as nat;
                let counted = tally.with_node();
                let payload = action_then(operation, rest);
                lemma_tagged(NODE_ACTION, payload, levels, tally, grammar);
                lemma_action_round_trip(operation, inner, counted, grammar, rest);
                assert(parsed_payload(NODE_ACTION, payload, inner, counted, grammar) is Ok);
            },
            Expression::Call { .. } => {
                lemma_call_round_trip(expression, levels, tally, grammar, rest);
            },
            _ => {
                lemma_leaf_round_trip(expression, levels, tally, grammar, rest);
            },
        }
    }
}

/// An admitted node without operands is read back.
proof fn lemma_leaf_round_trip(expression: Expression, levels: nat, tally: Tally, grammar: Grammar, rest: Seq<u8>)
    requires
        admitted(expression, levels, tally, grammar) is Ok,
        match expression {
            Expression::String { .. }
            | Expression::Integer { .. }
            | Expression::Boolean { .. }
            | Expression::SourceIntrospection
            | Expression::Input
            | Expression::ParameterRead { .. }
            | Expression::LocalRead { .. }
            | Expression::FieldPath { .. }
            | Expression::ExternalContract { .. } => true,
            _ => false,
        },
    ensures
        parsed_node(node_then(expression, rest), levels, tally, grammar) == Ok::<
            (Expression, Seq<u8>, Tally),
            ClientPlanError,
        >((expression, rest, admitted(expression, levels, tally, grammar)->Ok_0)),
{
    let inner = (levels - 1) as nat;
    let counted = tally.with_node();
    assert(all_admitted(operands(expression), 0, inner, counted, grammar) == Ok::<Tally, ClientPlanError>(counted));
    match expression {
        Expression::String { value } => {
            lemma_tagged(NODE_STRING, text_then(value, rest), levels, tally, grammar);
            lemma_text_round_trip(value, NODE_STRING, rest);
        },
        Expression::Integer { value } => {
            lemma_tagged(NODE_INTEGER, i64_bytes(value) + rest, levels, tally, grammar);
            lemma_read_i64(value, rest);
        },
        Expression::Boolean { value } => {
            lemma_tagged(NODE_BOOLEAN, seq![boolean_byte(value)] + rest, levels, tally, grammar);
            lemma_read_u8(boolean_byte(value), rest);
        },
        Expression::SourceIntrospection => {
            lemma_tagged(NODE_SOURCE_INTROSPECTION, rest, levels, tally, grammar);
        },
        Expression::Input => {
            lemma_tagged(NODE_INPUT, rest, levels, tally, grammar);
        },
        Expression::ParameterRead { parameter } => {
            lemma_tagged(NODE_PARAMETER_READ, identity_bytes(parameter.0) + rest, levels, tally, grammar);
            lemma_read_identity(parameter.0, rest);
        },
        Expression::LocalRead { local } => {
            lemma_tagged(NODE_LOCAL_READ, identity_bytes(local.0) + rest, levels, tally, grammar);
            lemma_read_identity(local.0, rest);
        },
        Expression::FieldPath { root, fields } => {
            let count = fields.len() as u32;
            let list = fields_then(fields, 0, rest);
            lemma_tagged(
                NODE_FIELD_PATH,
                identity_bytes(root.0) + (u32_bytes(count) + list),
                levels,
                tally,
                grammar,
            );
            lemma_read_identity(root.0, u32_bytes(count) + list);
            lemma_read_u32(count, list);
            lemma_fields_round_trip(fields, 0, rest);
            assert(fields.take(0) =~= Seq::empty());
        },
        Expression::ExternalContract { identity } => {
            lemma_tagged(NODE_EXTERNAL_CONTRACT, text_then(identity, rest), levels, tally, grammar);
            lemma_text_round_trip(identity, NODE_EXTERNAL_CONTRACT, rest);
        },
        _ => {},
    }
}

/// An admitted node with one operand is read back.
proof fn lemma_single_operand_round_trip(
    expression: Expression,
    levels: nat,
    tally: Tally,
    grammar: Grammar,
    rest: Seq<u8>,
)
    requires
        admitted(expression, levels, tally, grammar) is Ok,
        expression is Await || expression is Evaluate || expression is Unary,
    ensures
        parsed_node(node_then(expression, rest), levels, tally, grammar) == Ok::<
            (Expression, Seq<u8>, Tally),
            ClientPlanError,
        >((expression, rest, admitted(expression, levels, tally, grammar)->Ok_0)),
    decreases levels, 0nat,
{
    let inner = (levels - 1) as nat;
    let counted = tally.with_node();
    let operand = operands(expression)[0];
    let encoded = node_then(operand, rest);
    lemma_one_admitted(operand, inner, counted, grammar);
    law_node_round_trip(operand, inner, counted, grammar, rest);
    match expression {
        Expression::Await { .. } => {
            lemma_tagged(NODE_AWAIT, encoded, levels, tally, grammar);
            assert(parsed_payload(NODE_AWAIT, encoded, inner, counted, grammar) is Ok);
        },
        Expression::Evaluate { .. } => {
            lemma_tagged(NODE_EVALUATE, encoded, levels, tally, grammar);
            assert(parsed_payload(NODE_EVALUATE, encoded, inner, counted, grammar) is Ok);
        },
        Expression::Unary { operator, .. } => {
            lemma_read_u8(operator.wire(), encoded);
            let payload = seq![operator.wire()] + encoded;
            lemma_tagged(NODE_UNARY, payload, levels, tally, grammar);
            assert(parsed_payload(NODE_UNARY, payload, inner, counted, grammar) is Ok);
        },
        _ => {},
    }
}

/// One operand is admitted as its list is.
proof fn lemma_one_admitted(operand: Expression, levels: nat, tally: Tally, grammar: Grammar)
    ensures
        all_admitted(seq![operand], 0, levels, tally, grammar) == admitted(operand, levels, tally, grammar),
{
    reveal_with_fuel(all_admitted, 2);
}

/// Two operands are admitted one after the other.
proof fn lemma_two_admitted(left: Expression, right: Expression, levels: nat, tally: Tally, grammar: Grammar)
    ensures
        all_admitted(seq![left, right], 0, levels, tally, grammar) == match admitted(left, levels, tally, grammar) {
            Err(error) => Err(error),
            Ok(between) => admitted(right, levels, between, grammar),
        },
{
    reveal_with_fuel(all_admitted, 3);
}

/// An admitted concatenation is read back.
proof fn lemma_concat_round_trip(expression: Expression, levels: nat, tally: Tally, grammar: Grammar, rest: Seq<u8>)
    requires
        admitted(expression, levels, tally, grammar) is Ok,
        expression is Concat,
    ensures
        parsed_node(node_then(expression, rest), levels, tally, grammar) == Ok::<
            (Expression, Seq<u8>, Tally),
            ClientPlanError,
        >((expression, rest, admitted(expression, levels, tally, grammar)->Ok_0)),
    decreases levels, 0nat,
{
    if let Expression::Concat { left, right } = expression {
        let inner = (levels - 1) as nat;
        let counted = tally.with_node();
        let second = node_then(*right, rest);
        let encoded = node_then(*left, second);
        lemma_two_admitted(*left, *right, inner, counted, grammar);
        law_node_round_trip(*left, inner, counted, grammar, second);
        let between = admitted(*left, inner, counted, grammar)->Ok_0;
        law_node_round_trip(*right, inner, between, grammar, rest);
        lemma_tagged(NODE_CONCAT, encoded, levels, tally, grammar);
        assert(parsed_payload(NODE_CONCAT, encoded, inner, counted, grammar) is Ok);
    }
}

/// An admitted binary operation is read back.
proof fn lemma_binary_round_trip(expression: Expression, levels: nat, tally: Tally, grammar: Grammar, rest: Seq<u8>)
    requires
        admitted(expression, levels, tally, grammar) is Ok,
        expression is Binary,
    ensures
        parsed_node(node_then(expression, rest), levels, tally, grammar) == Ok::<
            (Expression, Seq<u8>, Tally),
            ClientPlanError,
        >((expression, rest, admitted(expression, levels, tally, grammar)->Ok_0)),
    decreases levels, 0nat,
{
    if let Expression::Binary { operator, left, right } = expression {
        let inner = (levels - 1) as nat;
        let counted = tally.with_node();
        let second = node_then(*right, rest);
        let encoded = node_then(*left, second);
        lemma_two_admitted(*left, *right, inner, counted, grammar);
        law_node_round_trip(*left, inner, counted, grammar, second);
        let between = admitted(*left, inner, counted, grammar)->Ok_0;
        law_node_round_trip(*right, inner, between, grammar, rest);
        lemma_read_u8(operator.wire(), encoded);
        let payload = seq![operator.wire()] + encoded;
        lemma_tagged(NODE_BINARY, payload, levels, tally, grammar);
        assert(parsed_payload(NODE_BINARY, payload, inner, counted, grammar) is Ok);
    }
}

/// An admitted Inspector node is read back.
proof fn lemma_inspect_round_trip(
    expression: Expression,
    levels: nat,
    tally: Tally,
    grammar: Grammar,
    rest: Seq<u8>,
)
    requires
        admitted(expression, levels, tally, grammar) is Ok,
        expression is Inspect,
    ensures
        parsed_node(node_then(expression, rest), levels, tally, grammar) == Ok::<
            (Expression, Seq<u8>, Tally),
            ClientPlanError,
        >((expression, rest, admitted(expression, levels, tally, grammar)->Ok_0)),
    decreases levels, 0nat,
{
    let inner = (levels - 1) as nat;
    let counted = tally.with_node();
    let operand = encoded_operands(expression)[0];
    lemma_one_admitted(operand, inner, counted, grammar);
    match expression {
        Expression::Inspect { operation: InspectOperation::Snapshot { .. } } => {
            let encoded = node_then(operand, seq![0u8] + rest);
            let payload = seq![INSPECT_OPERATION_SNAPSHOT] + encoded;
            law_node_round_trip(operand, inner, counted, grammar, seq![0u8] + rest);
            lemma_read_u8(0, rest);
            lemma_read_u8(INSPECT_OPERATION_SNAPSHOT, encoded);
            lemma_tagged(NODE_INSPECT, payload, levels, tally, grammar);
            assert(parsed_inspect(payload, inner, counted, grammar) is Ok);
            assert(parsed_payload(NODE_INSPECT, payload, inner, counted, grammar) is Ok);
        },
        Expression::Inspect { operation: InspectOperation::Projection { projection, .. } } => {
            let encoded = node_then(operand, rest);
            let after_tag = seq![projection.wire()] + encoded;
            let payload = seq![INSPECT_OPERATION_PROJECTION] + after_tag;
            law_node_round_trip(operand, inner, counted, grammar, rest);
            lemma_read_u8(projection.wire(), encoded);
            lemma_read_u8(INSPECT_OPERATION_PROJECTION, after_tag);
            lemma_tagged(NODE_INSPECT, payload, levels, tally, grammar);
            assert(parsed_inspect(payload, inner, counted, grammar) is Ok);
            assert(parsed_payload(NODE_INSPECT, payload, inner, counted, grammar) is Ok);
        },
        _ => {},
    }
}

/// An admitted call is read back.
proof fn lemma_call_round_trip(expression: Expression, levels: nat, tally: Tally, grammar: Grammar, rest: Seq<u8>)
    requires
        admitted(expression, levels, tally, grammar) is Ok,
        expression is Call,
    ensures
        parsed_node(node_then(expression, rest), levels, tally, grammar) == Ok::<
            (Expression, Seq<u8>, Tally),
            ClientPlanError,
        >((expression, rest, admitted(expression, levels, tally, grammar)->Ok_0)),
    decreases levels, 0nat,
{
    if let Expression::Call { function, arguments } = expression {
        let inner = (levels - 1) as nat;
        let counted = tally.with_node();
        let count = arguments.len() as u32;
        let list = arguments_then(arguments, 0, rest);
        let payload = identity_bytes(function.0) + (u32_bytes(count) + list);
        lemma_read_identity(function.0, u32_bytes(count) + list);
        lemma_read_u32(count, list);
        lemma_arguments_round_trip(arguments, 0, ArgumentRule::Call, inner, counted, grammar, rest);
        assert(arguments.take(0) =~= Seq::empty());
        lemma_tagged(NODE_CALL, payload, levels, tally, grammar);
        assert(parsed_payload(NODE_CALL, payload, inner, counted, grammar) is Ok);
    }
}

/// An admitted resource operation is read back.
proof fn lemma_resource_round_trip(
    operation: ResourceOperation,
    levels: nat,
    tally: Tally,
    grammar: Grammar,
    rest: Seq<u8>,
)
    requires
        admitted(Expression::Resource { operation }, levels, tally, grammar) is Ok,
    ensures
        parsed_node(node_then(Expression::Resource { operation }, rest), levels, tally, grammar) == Ok::<
            (Expression, Seq<u8>, Tally),
            ClientPlanError,
        >(
            (
                Expression::Resource { operation },
                rest,
                admitted(Expression::Resource { operation }, levels, tally, grammar)->Ok_0,
            ),
        ),
    decreases levels, 0nat,
{
    let inner = (levels - 1) as nat;
    let arguments = operation.arguments;
    let count = arguments.len() as u32;
    let last = identity_bytes(operation.result_type.0) + rest;
    let list = arguments_then(arguments, 0, last);
    let after_pins = u32_bytes(count) + list;
    let pins = Pins {
        target: operation.target,
        target_revision: operation.target_revision,
        call_site: operation.call_site,
    };
    let after_kind = identity_bytes(pins.target.0) + (identity_bytes(pins.target_revision.source.0) + (identity_bytes(
        pins.target_revision.catalogue.0,
    ) + (identity_bytes(pins.call_site.0) + after_pins)));
    let payload = seq![operation.kind.wire()] + after_kind;
    lemma_tagged(NODE_RESOURCE, payload, levels, tally, grammar);
    lemma_read_u8(operation.kind.wire(), after_kind);
    lemma_pins_round_trip(pins, ClientPlanError::InvalidResourceIdentity, after_pins);
    lemma_read_u32(count, list);
    lemma_resource_arguments_keep(arguments, 0);
    let counted = tally.with_node().with_resource();
    lemma_arguments_round_trip(
        arguments,
        0,
        ArgumentRule::Resource,
        inner,
        counted,
        grammar.of_arguments(),
        last,
    );
    assert(arguments.take(0) =~= Seq::empty());
    lemma_read_identity(operation.result_type.0, rest);
    assert(parsed_resource(payload, inner, tally.with_node(), grammar) is Ok);
    assert(parsed_payload(NODE_RESOURCE, payload, inner, tally.with_node(), grammar) is Ok);
}

/// An admitted action operation is read back.
pub proof fn lemma_action_round_trip(
    operation: ActionOperation,
    levels: nat,
    tally: Tally,
    grammar: Grammar,
    rest: Seq<u8>,
)
    requires
        action_refusal(operation) is None,
        all_admitted(argument_values(operation.arguments), 0, levels, tally, grammar) is Ok,
    ensures
        parsed_action(action_then(operation, rest), levels, tally, grammar) == Ok::<
            (ActionOperation, Seq<u8>, Tally),
            ClientPlanError,
        >(
            (
                operation,
                rest,
                all_admitted(argument_values(operation.arguments), 0, levels, tally, grammar)->Ok_0,
            ),
        ),
    decreases levels, 3 + operation.arguments.len(),
{
    let arguments = operation.arguments;
    let count = arguments.len() as u32;
    let list = arguments_then(arguments, 0, rest);
    let after_type = u32_bytes(count) + list;
    let after_pins = identity_bytes(operation.result_type.0) + after_type;
    let pins = Pins {
        target: operation.target,
        target_revision: operation.target_revision,
        call_site: operation.call_site,
    };
    let after_domain = identity_bytes(pins.target.0) + (identity_bytes(pins.target_revision.source.0) + (
    identity_bytes(pins.target_revision.catalogue.0) + (identity_bytes(pins.call_site.0) + after_pins)));
    lemma_read_u8(operation.domain.wire(), after_domain);
    lemma_pins_round_trip(pins, ClientPlanError::InvalidActionIdentity, after_pins);
    lemma_read_identity(operation.result_type.0, after_type);
    lemma_read_u32(count, list);
    lemma_action_arguments_keep(arguments);
    lemma_arguments_round_trip(arguments, 0, ArgumentRule::Action, levels, tally, grammar, rest);
    assert(arguments.take(0) =~= Seq::empty());
}

/// An admitted argument list that keeps its rule is read back.
pub proof fn lemma_arguments_round_trip(
    arguments: Seq<(ParameterId, Expression)>,
    index: nat,
    rule: ArgumentRule,
    levels: nat,
    tally: Tally,
    grammar: Grammar,
    rest: Seq<u8>,
)
    requires
        index <= arguments.len(),
        arguments_keep(rule, arguments),
        all_admitted(argument_values(arguments), index, levels, tally, grammar) is Ok,
    ensures
        parsed_arguments(
            arguments_then(arguments, index, rest),
            arguments.take(index as int),
            arguments.len(),
            rule,
            levels,
            tally,
            grammar,
        ) == Ok::<(Seq<(ParameterId, Expression)>, Seq<u8>, Tally), ClientPlanError>(
            (arguments, rest, all_admitted(argument_values(arguments), index, levels, tally, grammar)->Ok_0),
        ),
    decreases levels, 2 + arguments.len() - index,
{
    let done = arguments.take(index as int);
    if index < arguments.len() {
        let (parameter, value) = arguments[index as int];
        let later = arguments_then(arguments, index + 1, rest);
        lemma_read_identity(parameter.0, node_then(value, later));
        assert(previous_parameter(done, done.len() as int) == previous_parameter(arguments, index as int));
        assert(argument_refusal(rule, previous_parameter(arguments, index as int), arguments[index as int].0)
            is None);
        assert(argument_values(arguments)[index as int] == value);
        law_node_round_trip(value, levels, tally, grammar, later);
        let behind = admitted(value, levels, tally, grammar)->Ok_0;
        lemma_arguments_round_trip(arguments, index + 1, rule, levels, behind, grammar, rest);
        assert(done.push((parameter, value)) =~= arguments.take((index + 1) as int));
    } else {
        assert(done =~= arguments);
    }
}

/// An expression that was read is what stood at the front of the input, and its
/// node set and limits admit it: every tree has exactly one encoding.
pub proof fn law_node_canonical(input: Seq<u8>, levels: nat, tally: Tally, grammar: Grammar)
    ensures
        parsed_node(input, levels, tally, grammar) matches Ok((expression, rest, behind)) ==> {
            &&& input == node_then(expression, rest)
            &&& admitted(expression, levels, tally, grammar) == Ok::<Tally, ClientPlanError>(behind)
        },
    decreases levels, 1nat, 0nat,
{
    if parsed_node(input, levels, tally, grammar) is Ok {
        lemma_u8_read(input);
        let (tag, payload) = read_u8(input)->Some_0;
        let inner = (levels - 1) as nat;
        let counted = tally.with_node();
        assert(parsed_payload(tag, payload, inner, counted, grammar) is Ok);
        if tag == NODE_AWAIT || tag == NODE_EVALUATE || tag == NODE_UNARY {
            lemma_single_operand_canonical(tag, payload, levels, tally, grammar);
        } else if tag == NODE_CONCAT || tag == NODE_BINARY {
            lemma_two_operands_canonical(tag, payload, levels, tally, grammar);
        } else if tag == NODE_INSPECT {
            lemma_inspect_canonical(payload, levels, tally, grammar);
        } else if tag == NODE_RESOURCE {
            lemma_resource_canonical(payload, levels, tally, grammar);
        } else if tag == NODE_ACTION {
            lemma_action_canonical(payload, inner, counted, grammar);
        } else if tag == NODE_CALL {
            lemma_call_canonical(payload, levels, tally, grammar);
        } else {
            lemma_leaf_canonical(tag, payload, levels, tally, grammar);
        }
    }
}

/// Tells that reading a payload gave an expression that stood there and that is
/// admitted.
spec fn payload_is_canonical(tag: u8, payload: Seq<u8>, levels: nat, tally: Tally, grammar: Grammar) -> bool {
    parsed_payload(tag, payload, (levels - 1) as nat, tally.with_node(), grammar) matches Ok(
        (expression, rest, behind),
    ) ==> {
        &&& seq![tag] + payload == node_then(expression, rest)
        &&& admitted(expression, levels, tally, grammar) == Ok::<Tally, ClientPlanError>(behind)
    }
}

/// What a node without operands was read from.
proof fn lemma_leaf_canonical(tag: u8, payload: Seq<u8>, levels: nat, tally: Tally, grammar: Grammar)
    requires
        levels > 0,
        tally.with_node().nodes <= MAX_EXPRESSION_NODES,
        tag != NODE_AWAIT,
        tag != NODE_EVALUATE,
        tag != NODE_UNARY,
        tag != NODE_CONCAT,
        tag != NODE_BINARY,
        tag != NODE_INSPECT,
        tag != NODE_RESOURCE,
        tag != NODE_ACTION,
        tag != NODE_CALL,
    ensures
        payload_is_canonical(tag, payload, levels, tally, grammar),
{
    let inner = (levels - 1) as nat;
    let counted = tally.with_node();
    if parsed_payload(tag, payload, inner, counted, grammar) is Ok {
        let expression = parsed_payload(tag, payload, inner, counted, grammar)->Ok_0.0;
        assert(all_admitted(operands(expression), 0, inner, counted, grammar) == Ok::<Tally, ClientPlanError>(
            counted,
        ));
        if tag == NODE_STRING {
            lemma_text_canonical(payload, NODE_STRING);
        } else if tag == NODE_INTEGER {
            lemma_i64_read(payload);
        } else if tag == NODE_BOOLEAN {
            lemma_u8_read(payload);
        } else if tag == NODE_PARAMETER_READ || tag == NODE_LOCAL_READ {
            lemma_identity_read(payload);
        } else if tag == NODE_FIELD_PATH {
            lemma_identity_read(payload);
            let after_root = read_identity(payload)->Some_0.1;
            lemma_u32_read(after_root);
            let (length, after_length) = read_u32(after_root)->Some_0;
            lemma_fields_canonical(after_length, Seq::empty(), length as nat);
        } else if tag == NODE_EXTERNAL_CONTRACT {
            lemma_text_canonical(payload, NODE_EXTERNAL_CONTRACT);
        }
    }
}

/// What a node with one operand was read from.
proof fn lemma_single_operand_canonical(tag: u8, payload: Seq<u8>, levels: nat, tally: Tally, grammar: Grammar)
    requires
        levels > 0,
        tally.with_node().nodes <= MAX_EXPRESSION_NODES,
        tag == NODE_AWAIT || tag == NODE_EVALUATE || tag == NODE_UNARY,
    ensures
        payload_is_canonical(tag, payload, levels, tally, grammar),
    decreases levels, 0nat, 0nat,
{
    let inner = (levels - 1) as nat;
    let counted = tally.with_node();
    if parsed_payload(tag, payload, inner, counted, grammar) is Ok {
        let encoded = if tag == NODE_UNARY {
            lemma_u8_read(payload);
            read_u8(payload)->Some_0.1
        } else {
            payload
        };
        law_node_canonical(encoded, inner, counted, grammar);
        let operand = parsed_node(encoded, inner, counted, grammar)->Ok_0.0;
        lemma_one_admitted(operand, inner, counted, grammar);
    }
}

/// What a node with two operands was read from.
proof fn lemma_two_operands_canonical(tag: u8, payload: Seq<u8>, levels: nat, tally: Tally, grammar: Grammar)
    requires
        levels > 0,
        tally.with_node().nodes <= MAX_EXPRESSION_NODES,
        tag == NODE_CONCAT || tag == NODE_BINARY,
    ensures
        payload_is_canonical(tag, payload, levels, tally, grammar),
    decreases levels, 0nat, 0nat,
{
    let inner = (levels - 1) as nat;
    let counted = tally.with_node();
    if parsed_payload(tag, payload, inner, counted, grammar) is Ok {
        let encoded = if tag == NODE_BINARY {
            lemma_u8_read(payload);
            read_u8(payload)->Some_0.1
        } else {
            payload
        };
        law_node_canonical(encoded, inner, counted, grammar);
        let (left, second, between) = parsed_node(encoded, inner, counted, grammar)->Ok_0;
        law_node_canonical(second, inner, between, grammar);
        let right = parsed_node(second, inner, between, grammar)->Ok_0.0;
        lemma_two_admitted(left, right, inner, counted, grammar);
    }
}

/// What an Inspector node was read from.
proof fn lemma_inspect_canonical(payload: Seq<u8>, levels: nat, tally: Tally, grammar: Grammar)
    requires
        levels > 0,
        tally.with_node().nodes <= MAX_EXPRESSION_NODES,
    ensures
        payload_is_canonical(NODE_INSPECT, payload, levels, tally, grammar),
    decreases levels, 0nat, 0nat,
{
    let inner = (levels - 1) as nat;
    let counted = tally.with_node();
    if parsed_payload(NODE_INSPECT, payload, inner, counted, grammar) is Ok {
        assert(parsed_inspect(payload, inner, counted, grammar) is Ok);
        lemma_u8_read(payload);
        let (tag, after_tag) = read_u8(payload)->Some_0;
        if tag == INSPECT_OPERATION_SNAPSHOT {
            law_node_canonical(after_tag, inner, counted, grammar);
            let (target, after_target, _) = parsed_node(after_tag, inner, counted, grammar)->Ok_0;
            lemma_u8_read(after_target);
            lemma_one_admitted(target, inner, counted, grammar);
        } else {
            lemma_u8_read(after_tag);
            let encoded = read_u8(after_tag)->Some_0.1;
            law_node_canonical(encoded, inner, counted, grammar);
            let snapshot = parsed_node(encoded, inner, counted, grammar)->Ok_0.0;
            lemma_one_admitted(snapshot, inner, counted, grammar);
        }
    }
}

/// What a call was read from.
proof fn lemma_call_canonical(payload: Seq<u8>, levels: nat, tally: Tally, grammar: Grammar)
    requires
        levels > 0,
        tally.with_node().nodes <= MAX_EXPRESSION_NODES,
    ensures
        payload_is_canonical(NODE_CALL, payload, levels, tally, grammar),
    decreases levels, 0nat, 0nat,
{
    let inner = (levels - 1) as nat;
    let counted = tally.with_node();
    if parsed_payload(NODE_CALL, payload, inner, counted, grammar) is Ok {
        lemma_identity_read(payload);
        let after_function = read_identity(payload)->Some_0.1;
        lemma_u32_read(after_function);
        let (length, list) = read_u32(after_function)->Some_0;
        lemma_arguments_canonical(
            list,
            Seq::empty(),
            length as nat,
            ArgumentRule::Call,
            inner,
            counted,
            grammar,
        );
    }
}

/// What a resource operation was read from.
proof fn lemma_resource_canonical(payload: Seq<u8>, levels: nat, tally: Tally, grammar: Grammar)
    requires
        levels > 0,
        tally.with_node().nodes <= MAX_EXPRESSION_NODES,
    ensures
        payload_is_canonical(NODE_RESOURCE, payload, levels, tally, grammar),
    decreases levels, 0nat, 0nat,
{
    let inner = (levels - 1) as nat;
    let counted = tally.with_node();
    if parsed_payload(NODE_RESOURCE, payload, inner, counted, grammar) is Ok {
        assert(parsed_resource(payload, inner, counted, grammar) is Ok);
        lemma_u8_read(payload);
        let after_kind = read_u8(payload)->Some_0.1;
        lemma_pins_canonical(after_kind, ClientPlanError::InvalidResourceIdentity);
        let after_pins = parsed_pins(after_kind, ClientPlanError::InvalidResourceIdentity)->Ok_0.1;
        lemma_u32_read(after_pins);
        let (count, list) = read_u32(after_pins)->Some_0;
        lemma_arguments_canonical(
            list,
            Seq::empty(),
            count as nat,
            ArgumentRule::Resource,
            inner,
            counted.with_resource(),
            grammar.of_arguments(),
        );
        let (arguments, last, _) = parsed_arguments(
            list,
            Seq::empty(),
            count as nat,
            ArgumentRule::Resource,
            inner,
            counted.with_resource(),
            grammar.of_arguments(),
        )->Ok_0;
        lemma_resource_arguments_keep(arguments, 0);
        lemma_identity_read(last);
    }
}

/// What an action operation was read from.
pub proof fn lemma_action_canonical(input: Seq<u8>, levels: nat, tally: Tally, grammar: Grammar)
    ensures
        parsed_action(input, levels, tally, grammar) matches Ok((operation, rest, behind)) ==> {
            &&& input == action_then(operation, rest)
            &&& action_refusal(operation) is None
            &&& all_admitted(argument_values(operation.arguments), 0, levels, tally, grammar) == Ok::<
                Tally,
                ClientPlanError,
            >(behind)
        },
    decreases levels, 3nat, 0nat,
{
    if parsed_action(input, levels, tally, grammar) is Ok {
        lemma_u8_read(input);
        let after_domain = read_u8(input)->Some_0.1;
        lemma_pins_canonical(after_domain, ClientPlanError::InvalidActionIdentity);
        let after_pins = parsed_pins(after_domain, ClientPlanError::InvalidActionIdentity)->Ok_0.1;
        lemma_identity_read(after_pins);
        let after_type = read_identity(after_pins)->Some_0.1;
        lemma_u32_read(after_type);
        let (count, list) = read_u32(after_type)->Some_0;
        lemma_arguments_canonical(list, Seq::empty(), count as nat, ArgumentRule::Action, levels, tally, grammar);
        let arguments = parsed_arguments(
            list,
            Seq::empty(),
            count as nat,
            ArgumentRule::Action,
            levels,
            tally,
            grammar,
        )->Ok_0.0;
        lemma_action_arguments_keep(arguments);
    }
}

/// What an argument list was read from.
pub proof fn lemma_arguments_canonical(
    input: Seq<u8>,
    done: Seq<(ParameterId, Expression)>,
    total: nat,
    rule: ArgumentRule,
    levels: nat,
    tally: Tally,
    grammar: Grammar,
)
    requires
        done.len() <= total,
        arguments_keep(rule, done),
    ensures
        parsed_arguments(input, done, total, rule, levels, tally, grammar) matches Ok((arguments, rest, behind)) ==> {
            &&& arguments.len() == total
            &&& arguments.take(done.len() as int) == done
            &&& arguments_keep(rule, arguments)
            &&& input == arguments_then(arguments, done.len(), rest)
            &&& all_admitted(argument_values(arguments), done.len(), levels, tally, grammar) == Ok::<
                Tally,
                ClientPlanError,
            >(behind)
        },
    decreases levels, 2nat, total - done.len(),
{
    if done.len() < total {
        if parsed_arguments(input, done, total, rule, levels, tally, grammar) is Ok {
            lemma_identity_read(input);
            let (identity, encoded) = read_identity(input)->Some_0;
            let parameter = ParameterId(identity);
            law_node_canonical(encoded, levels, tally, grammar);
            let (value, later, behind) = parsed_node(encoded, levels, tally, grammar)->Ok_0;
            let next = done.push((parameter, value));
            assert forall|index: int| 0 <= index < next.len() implies argument_refusal(
                rule,
                previous_parameter(next, index),
                (#[trigger] next[index]).0,
            ) is None by {
                if index < done.len() {
                    assert(next[index] == done[index]);
                    assert(previous_parameter(next, index) == previous_parameter(done, index));
                    assert(argument_refusal(rule, previous_parameter(done, index), done[index].0) is None);
                } else {
                    assert(previous_parameter(next, index) == previous_parameter(done, done.len() as int));
                }
            }
            lemma_arguments_canonical(later, next, total, rule, levels, behind, grammar);
            let arguments = parsed_arguments(later, next, total, rule, levels, behind, grammar)->Ok_0.0;
            let position = done.len() as int;
            assert(arguments[position] == arguments.take(next.len() as int)[position]);
            assert(arguments.take(position) =~= arguments.take(next.len() as int).take(position));
            assert(next.take(position) =~= done);
            assert(argument_values(arguments)[position] == value);
        }
    } else {
        assert(done.take(done.len() as int) =~= done);
    }
}

} // verus!
