//! Writing expression trees.

use vstd::prelude::*;
use vstd::utf8::encode_utf8;

use crate::artifact_codec::{u32_bytes, Writer};
use crate::client_plan::expression::{
    arguments_of, ActionOperation, ActionOperationNode, ClientExpressionNode, Expression, InspectOperation,
    InspectOperationNode,
};
use crate::client_plan::node_codec::{action_then, arguments_then, fields_then, node_then, text_then};
use crate::client_plan::{INSPECT_OPERATION_PROJECTION, INSPECT_OPERATION_SNAPSHOT};
use crate::client_plan::{
    NODE_ACTION, NODE_AWAIT, NODE_BINARY, NODE_BOOLEAN, NODE_CALL, NODE_CONCAT, NODE_EVALUATE, NODE_EXTERNAL_CONTRACT,
    NODE_FIELD_PATH, NODE_INPUT, NODE_INSPECT, NODE_INTEGER, NODE_LOCAL_READ, NODE_PARAMETER_READ, NODE_RESOURCE,
    NODE_SOURCE_INTROSPECTION, NODE_STRING, NODE_UNARY,
};
use crate::identity::{identity_bytes, FieldId, ParameterId};

verus! {

/// The encoding of a tree.
pub open spec fn node_bytes(expression: Expression) -> Seq<u8> {
    node_then(expression, Seq::empty())
}

/// The encoding of an argument list without its count.
pub open spec fn arguments_bytes(arguments: Seq<(ParameterId, Expression)>, index: nat) -> Seq<u8> {
    arguments_then(arguments, index, Seq::empty())
}

/// A field list in front of other bytes is the field list followed by them.
proof fn lemma_fields_then(fields: Seq<FieldId>, index: nat, rest: Seq<u8>)
    ensures
        fields_then(fields, index, rest) == fields_then(fields, index, Seq::empty()) + rest,
    decreases fields.len() - index,
{
    if index < fields.len() {
        lemma_fields_then(fields, index + 1, rest);
    }
    assert(fields_then(fields, index, rest) =~= fields_then(fields, index, Seq::empty()) + rest);
}

/// A tree in front of other bytes is the tree followed by them.
pub proof fn lemma_node_then(expression: Expression, rest: Seq<u8>)
    ensures
        node_then(expression, rest) == node_bytes(expression) + rest,
    decreases expression, 0nat,
{
    let none = Seq::<u8>::empty();
    match expression {
        Expression::Await { expression: operand } => {
            lemma_node_then(*operand, rest);
        },
        Expression::Resource { operation } => {
            let result_type = identity_bytes(operation.result_type.0);
            lemma_arguments_then(operation.arguments, 0, result_type + rest);
            lemma_arguments_then(operation.arguments, 0, result_type + none);
        },
        Expression::Inspect { operation } => match operation {
            InspectOperation::Snapshot { target, .. } => {
                lemma_node_then(*target, seq![0u8] + rest);
                lemma_node_then(*target, seq![0u8] + none);
            },
            InspectOperation::Projection { projection, snapshot } => {
                lemma_node_then(*snapshot, rest);
            },
        },
        Expression::Action { operation } => {
            lemma_action_then(operation, rest);
        },
        Expression::Call { function, arguments } => {
            lemma_arguments_then(arguments, 0, rest);
        },
        Expression::FieldPath { root, fields } => {
            lemma_fields_then(fields, 0, rest);
        },
        Expression::Evaluate { expression: operand } => {
            lemma_node_then(*operand, rest);
        },
        Expression::Concat { left, right } => {
            lemma_node_then(*right, rest);
            lemma_node_then(*left, node_then(*right, rest));
            lemma_node_then(*left, node_bytes(*right));
        },
        Expression::Unary { operator, expression: operand } => {
            lemma_node_then(*operand, rest);
        },
        Expression::Binary { operator, left, right } => {
            lemma_node_then(*right, rest);
            lemma_node_then(*left, node_then(*right, rest));
            lemma_node_then(*left, node_bytes(*right));
        },
        _ => {},
    }
    assert(node_then(expression, rest) =~= node_bytes(expression) + rest);
}

/// An action operation in front of other bytes is the operation followed by
/// them.
pub proof fn lemma_action_then(operation: ActionOperation, rest: Seq<u8>)
    ensures
        action_then(operation, rest) == action_then(operation, Seq::empty()) + rest,
    decreases operation, 0nat,
{
    lemma_arguments_then(operation.arguments, 0, rest);
    assert(action_then(operation, rest) =~= action_then(operation, Seq::empty()) + rest);
}

/// An argument list in front of other bytes is the list followed by them.
pub proof fn lemma_arguments_then(arguments: Seq<(ParameterId, Expression)>, index: nat, rest: Seq<u8>)
    ensures
        arguments_then(arguments, index, rest) == arguments_bytes(arguments, index) + rest,
    decreases arguments, arguments.len() - index,
{
    if index < arguments.len() {
        let value = arguments[index as int].1;
        let later = arguments_then(arguments, index + 1, rest);
        lemma_arguments_then(arguments, index + 1, rest);
        lemma_node_then(value, later);
        lemma_node_then(value, arguments_bytes(arguments, index + 1));
    }
    assert(arguments_then(arguments, index, rest) =~= arguments_bytes(arguments, index) + rest);
}

/// Writes a length-prefixed text.
fn put_text(writer: &mut Writer, text: &str)
    ensures
        final(writer)@ == old(writer)@ + text_then(text@, Seq::empty()),
{
    let bytes = text.as_bytes();
    #[verifier::truncate]
    let length: u32 = bytes.len() as u32;
    writer.u32(length);
    writer.bytes(bytes);
    assert(writer@ =~= old(writer)@ + text_then(text@, Seq::empty()));
}

/// Writes an argument list behind its count.
pub fn put_arguments(writer: &mut Writer, arguments: &Vec<(ParameterId, ClientExpressionNode)>)
    ensures
        final(writer)@ == old(writer)@ + (u32_bytes(arguments_of(arguments@).len() as u32) + arguments_bytes(
            arguments_of(arguments@),
            0,
        )),
    decreases arguments,
{
    let ghost list = arguments_of(arguments@);
    #[verifier::truncate]
    let count: u32 = arguments.len() as u32;
    writer.u32(count);
    let ghost start = writer@;
    let mut index: usize = 0;
    while index < arguments.len()
        invariant
            index <= arguments.len(),
            list == arguments_of(arguments@),
            writer@ + arguments_bytes(list, index as nat) == start + arguments_bytes(list, 0),
        decreases arguments.len() - index,
    {
        let ghost before = writer@;
        assert(list[index as int] == (arguments[index as int].0, arguments[index as int].1@));
        writer.parameter_id(arguments[index].0);
        put_node(writer, &arguments[index].1);
        proof {
            lemma_node_then(list[index as int].1, arguments_bytes(list, (index + 1) as nat));
            assert(writer@ + arguments_bytes(list, (index + 1) as nat) =~= before + arguments_bytes(
                list,
                index as nat,
            ));
        }
        index = index + 1;
    }
    assert(writer@ =~= writer@ + arguments_bytes(list, index as nat));
    assert(writer@ =~= old(writer)@ + (u32_bytes(list.len() as u32) + arguments_bytes(list, 0)));
}

/// Writes an action operation without its node tag.
pub fn put_action(writer: &mut Writer, operation: &ActionOperationNode)
    ensures
        final(writer)@ == old(writer)@ + action_then(operation@, Seq::empty()),
    decreases operation,
{
    writer.u8(operation.domain.tag());
    writer.function_id(operation.target);
    writer.identity(operation.target_revision.source.0);
    writer.identity(operation.target_revision.catalogue.0);
    writer.identity(operation.call_site.0);
    writer.type_id(operation.result_type);
    put_arguments(writer, &operation.arguments);
    assert(writer@ =~= old(writer)@ + action_then(operation@, Seq::empty()));
}

/// Writes a tree.
pub fn put_node(writer: &mut Writer, node: &ClientExpressionNode)
    ensures
        final(writer)@ == old(writer)@ + node_bytes(node@),
    decreases node,
{
    let ghost none = Seq::<u8>::empty();
    match node {
        ClientExpressionNode::Await { expression } => {
            writer.u8(NODE_AWAIT);
            put_node(writer, expression);
        },
        ClientExpressionNode::Resource { operation } => {
            writer.u8(NODE_RESOURCE);
            writer.u8(operation.kind.tag());
            writer.function_id(operation.target);
            writer.identity(operation.target_revision.source.0);
            writer.identity(operation.target_revision.catalogue.0);
            writer.identity(operation.call_site.0);
            put_arguments(writer, &operation.arguments);
            writer.type_id(operation.result_type);
            proof {
                lemma_arguments_then(operation@.arguments, 0, identity_bytes(operation.result_type.0) + none);
            }
        },
        ClientExpressionNode::Inspect { operation } => {
            writer.u8(NODE_INSPECT);
            match operation {
                InspectOperationNode::Snapshot { target, .. } => {
                    writer.u8(INSPECT_OPERATION_SNAPSHOT);
                    put_node(writer, target);
                    writer.u8(0);
                    proof {
                        lemma_node_then(target@, seq![0u8] + none);
                    }
                },
                InspectOperationNode::Projection { projection, snapshot } => {
                    writer.u8(INSPECT_OPERATION_PROJECTION);
                    writer.u8(projection.tag());
                    put_node(writer, snapshot);
                },
            }
        },
        ClientExpressionNode::Action { operation } => {
            writer.u8(NODE_ACTION);
            put_action(writer, operation);
        },
        ClientExpressionNode::Call { function, arguments } => {
            writer.u8(NODE_CALL);
            writer.function_id(*function);
            put_arguments(writer, arguments);
        },
        ClientExpressionNode::String { value } => {
            writer.u8(NODE_STRING);
            put_text(writer, value.as_str());
        },
        ClientExpressionNode::Integer { value } => {
            writer.u8(NODE_INTEGER);
            writer.i64(*value);
        },
        ClientExpressionNode::Boolean { value } => {
            writer.u8(NODE_BOOLEAN);
            writer.boolean(*value);
        },
        ClientExpressionNode::SourceIntrospection => writer.u8(NODE_SOURCE_INTROSPECTION),
        ClientExpressionNode::Input => writer.u8(NODE_INPUT),
        ClientExpressionNode::Evaluate { expression } => {
            writer.u8(NODE_EVALUATE);
            put_node(writer, expression);
        },
        ClientExpressionNode::ParameterRead { parameter } => {
            writer.u8(NODE_PARAMETER_READ);
            writer.parameter_id(*parameter);
        },
        ClientExpressionNode::LocalRead { local } => {
            writer.u8(NODE_LOCAL_READ);
            writer.identity(local.0);
        },
        ClientExpressionNode::FieldPath { root, fields } => {
            writer.u8(NODE_FIELD_PATH);
            writer.parameter_id(*root);
            put_fields(writer, fields);
        },
        ClientExpressionNode::Concat { left, right } => {
            writer.u8(NODE_CONCAT);
            put_node(writer, left);
            put_node(writer, right);
            proof {
                lemma_node_then(left@, node_bytes(right@));
            }
        },
        ClientExpressionNode::ExternalContract { identity } => {
            writer.u8(NODE_EXTERNAL_CONTRACT);
            put_text(writer, identity.as_str());
        },
        ClientExpressionNode::Unary { operator, expression } => {
            writer.u8(NODE_UNARY);
            writer.u8(operator.tag());
            put_node(writer, expression);
        },
        ClientExpressionNode::Binary { operator, left, right } => {
            writer.u8(NODE_BINARY);
            writer.u8(operator.tag());
            put_node(writer, left);
            put_node(writer, right);
            proof {
                lemma_node_then(left@, node_bytes(right@));
            }
        },
    }
    assert(writer@ =~= old(writer)@ + node_bytes(node@));
}

/// Writes a field list behind its count.
fn put_fields(writer: &mut Writer, fields: &Vec<FieldId>)
    ensures
        final(writer)@ == old(writer)@ + (u32_bytes(fields@.len() as u32) + fields_then(fields@, 0, Seq::empty())),
{
    #[verifier::truncate]
    let count: u32 = fields.len() as u32;
    writer.u32(count);
    let ghost none = Seq::<u8>::empty();
    let ghost start = writer@;
    let mut index: usize = 0;
    while index < fields.len()
        invariant
            index <= fields.len(),
            none == Seq::<u8>::empty(),
            writer@ + fields_then(fields@, index as nat, none) == start + fields_then(fields@, 0, none),
        decreases fields.len() - index,
    {
        let ghost before = writer@;
        writer.field_id(fields[index]);
        assert(writer@ + fields_then(fields@, (index + 1) as nat, none) =~= before + fields_then(
            fields@,
            index as nat,
            none,
        ));
        index = index + 1;
    }
    assert(writer@ =~= writer@ + fields_then(fields@, index as nat, none));
    assert(writer@ =~= old(writer)@ + (u32_bytes(fields@.len() as u32) + fields_then(fields@, 0, none)));
}

} // verus!
