//! Where the parts of an artefact stand.
//!
//! The laws give the bytes of nodes, statements and declarations by their places,
//! counted from the first byte of each. Numbers are unsigned, most significant
//! byte first.

use vstd::prelude::*;
use vstd::utf8::encode_utf8;

use crate::artifact_codec::{i64_bytes, u32_bytes};
use crate::big_endian::{lemma_be_bytes_len, lemma_be_value_of_bytes, lemma_radix_powers};
use crate::client_plan::control_flow::{FlowBranch, FlowStatement};
use crate::client_plan::control_flow_codec::{block_then, branches_then, flow_statement_then, flow_statements_then};
use crate::client_plan::expression::{ActionOperation, Expression, InspectOperation, ResourceOperation};
use crate::client_plan::local::{locals_then, ClientLocal, ClientLocalKind};
use crate::client_plan::node_codec::{action_then, arguments_then, fields_then, node_then};
use crate::client_plan::operator::{ActionTargetDomain, ResourceKind};
use crate::client_plan::procedural::{statement_then, Statement};
use crate::client_plan::state::{slot_then, InitialState, Slot, StateScope};
use crate::codec_laws::{lemma_identity_number, lemma_short_number, number_at};
use crate::identity::{identity_bytes, FieldId, FunctionId, ParameterId};

verus! {

/// Four bytes of a number stand most significant first.
pub proof fn law_most_significant_first(value: u32)
    ensures
        u32_bytes(value) == seq![
            (value / 0x100_0000) as u8,
            (value / 0x1_0000 % 0x100) as u8,
            (value / 0x100 % 0x100) as u8,
            (value % 0x100) as u8,
        ],
{
    reveal_with_fuel(crate::big_endian::be_bytes, 5);
    assert(u32_bytes(value) =~= seq![
        (value / 0x100_0000) as u8,
        (value / 0x1_0000 % 0x100) as u8,
        (value / 0x100 % 0x100) as u8,
        (value % 0x100) as u8,
    ]);
}

/// A node with one or two operands holds them, first to last, behind its tag and
/// what it says of itself.
pub proof fn law_operands_in_order(expression: Expression, rest: Seq<u8>)
    ensures
        match expression {
            Expression::Await { expression: operand } => node_then(expression, rest).skip(1) == node_then(
                *operand,
                rest,
            ),
            Expression::Evaluate { expression: operand } => node_then(expression, rest).skip(1) == node_then(
                *operand,
                rest,
            ),
            Expression::Unary { operator, expression: operand } => {
                &&& node_then(expression, rest)[1] == operator.wire()
                &&& node_then(expression, rest).skip(2) == node_then(*operand, rest)
            },
            Expression::Concat { left, right } => node_then(expression, rest).skip(1) == node_then(
                *left,
                node_then(*right, rest),
            ),
            Expression::Binary { operator, left, right } => {
                &&& node_then(expression, rest)[1] == operator.wire()
                &&& node_then(expression, rest).skip(2) == node_then(*left, node_then(*right, rest))
            },
            Expression::Inspect { operation: InspectOperation::Snapshot { target, .. } } => {
                &&& node_then(expression, rest)[1] == 1
                &&& node_then(expression, rest).skip(2) == node_then(*target, seq![0u8] + rest)
            },
            Expression::Inspect { operation: InspectOperation::Projection { projection, snapshot } } => {
                &&& node_then(expression, rest)[1] == 2
                &&& node_then(expression, rest)[2] == projection.wire()
                &&& node_then(expression, rest).skip(3) == node_then(*snapshot, rest)
            },
            _ => true,
        },
{
    let whole = node_then(expression, rest);
    match expression {
        Expression::Await { expression: operand } => {
            assert(whole.skip(1) =~= node_then(*operand, rest));
        },
        Expression::Evaluate { expression: operand } => {
            assert(whole.skip(1) =~= node_then(*operand, rest));
        },
        Expression::Unary { expression: operand, .. } => {
            assert(whole.skip(2) =~= node_then(*operand, rest));
        },
        Expression::Concat { left, right } => {
            assert(whole.skip(1) =~= node_then(*left, node_then(*right, rest)));
        },
        Expression::Binary { left, right, .. } => {
            assert(whole.skip(2) =~= node_then(*left, node_then(*right, rest)));
        },
        Expression::Inspect { operation: InspectOperation::Snapshot { target, .. } } => {
            assert(whole.skip(2) =~= node_then(*target, seq![0u8] + rest));
        },
        Expression::Inspect { operation: InspectOperation::Projection { snapshot, .. } } => {
            assert(whole.skip(3) =~= node_then(*snapshot, rest));
        },
        _ => {},
    }
}

/// A literal, a read of an identity and a contract hold their value behind the
/// tag: an integer as the 64 bits of its two's complement, text behind its length
/// in bytes.
pub proof fn law_leaf_layout(expression: Expression, rest: Seq<u8>)
    ensures
        match expression {
            Expression::Integer { value } => {
                &&& number_at(node_then(expression, rest), 1, 9) == if value < 0 {
                    0x1_0000_0000_0000_0000 + value
                } else {
                    value as int
                }
                &&& node_then(expression, rest).skip(9) == rest
            },
            Expression::Boolean { value } => {
                &&& node_then(expression, rest)[1] == (if value {
                    1u8
                } else {
                    0u8
                })
                &&& node_then(expression, rest).skip(2) == rest
            },
            Expression::ParameterRead { parameter } => {
                &&& number_at(node_then(expression, rest), 1, 17) == parameter.0
                &&& node_then(expression, rest).skip(17) == rest
            },
            Expression::LocalRead { local } => {
                &&& number_at(node_then(expression, rest), 1, 17) == local.0
                &&& node_then(expression, rest).skip(17) == rest
            },
            Expression::String { value } => encode_utf8(value).len() <= 0xffff_ffff ==> {
                &&& number_at(node_then(expression, rest), 1, 5) == encode_utf8(value).len()
                &&& node_then(expression, rest).skip(5) == encode_utf8(value) + rest
            },
            Expression::ExternalContract { identity } => encode_utf8(identity).len() <= 0xffff_ffff ==> {
                &&& number_at(node_then(expression, rest), 1, 5) == encode_utf8(identity).len()
                &&& node_then(expression, rest).skip(5) == encode_utf8(identity) + rest
            },
            Expression::SourceIntrospection => node_then(expression, rest).skip(1) == rest,
            Expression::Input => node_then(expression, rest).skip(1) == rest,
            _ => true,
        },
{
    let whole = node_then(expression, rest);
    match expression {
        Expression::Integer { value } => {
            lemma_long_number(value);
            assert(whole.subrange(1, 9) =~= i64_bytes(value));
            assert(whole.skip(9) =~= rest);
        },
        Expression::Boolean { .. } => {
            assert(whole.skip(2) =~= rest);
        },
        Expression::ParameterRead { parameter } => {
            lemma_identity_number(parameter.0);
            assert(whole.subrange(1, 17) =~= identity_bytes(parameter.0));
            assert(whole.skip(17) =~= rest);
        },
        Expression::LocalRead { local } => {
            lemma_identity_number(local.0);
            assert(whole.subrange(1, 17) =~= identity_bytes(local.0));
            assert(whole.skip(17) =~= rest);
        },
        Expression::String { value } => {
            lemma_short_number(encode_utf8(value).len() as u32);
            assert(whole.subrange(1, 5) =~= u32_bytes(encode_utf8(value).len() as u32));
            assert(whole.skip(5) =~= encode_utf8(value) + rest);
        },
        Expression::ExternalContract { identity } => {
            lemma_short_number(encode_utf8(identity).len() as u32);
            assert(whole.subrange(1, 5) =~= u32_bytes(encode_utf8(identity).len() as u32));
            assert(whole.skip(5) =~= encode_utf8(identity) + rest);
        },
        Expression::SourceIntrospection => {
            assert(whole.skip(1) =~= rest);
        },
        Expression::Input => {
            assert(whole.skip(1) =~= rest);
        },
        _ => {},
    }
}

/// Eight bytes of an integer spell its two's complement.
proof fn lemma_long_number(value: i64)
    ensures
        i64_bytes(value).len() == 8,
        crate::big_endian::be_value(i64_bytes(value)) == if value < 0 {
            0x1_0000_0000_0000_0000 + value
        } else {
            value as int
        },
{
    broadcast use lemma_be_bytes_len;

    lemma_radix_powers();
    lemma_be_value_of_bytes(crate::artifact_codec::i64_bits(value), 8);
}

/// A call holds its function, the number of its arguments, and the arguments.
pub proof fn law_call_layout(function: FunctionId, arguments: Seq<(ParameterId, Expression)>, rest: Seq<u8>)
    requires
        arguments.len() <= 0xffff_ffff,
    ensures
        number_at(node_then(Expression::Call { function, arguments }, rest), 1, 17) == function.0,
        number_at(node_then(Expression::Call { function, arguments }, rest), 17, 21) == arguments.len(),
        node_then(Expression::Call { function, arguments }, rest).skip(21) == arguments_then(arguments, 0, rest),
{
    let whole = node_then(Expression::Call { function, arguments }, rest);
    lemma_identity_number(function.0);
    lemma_short_number(arguments.len() as u32);
    assert(whole.subrange(1, 17) =~= identity_bytes(function.0));
    assert(whole.subrange(17, 21) =~= u32_bytes(arguments.len() as u32));
    assert(whole.skip(21) =~= arguments_then(arguments, 0, rest));
}

/// Arguments stand in order, each a parameter and its value.
pub proof fn law_arguments_layout(arguments: Seq<(ParameterId, Expression)>, place: nat, rest: Seq<u8>)
    ensures
        place < arguments.len() ==> {
            &&& number_at(arguments_then(arguments, place, rest), 0, 16) == arguments[place as int].0.0
            &&& arguments_then(arguments, place, rest).skip(16) == node_then(
                arguments[place as int].1,
                arguments_then(arguments, place + 1, rest),
            )
        },
        place >= arguments.len() ==> arguments_then(arguments, place, rest) == rest,
{
    if place < arguments.len() {
        let whole = arguments_then(arguments, place, rest);
        let (parameter, value) = arguments[place as int];
        lemma_identity_number(parameter.0);
        assert(whole.subrange(0, 16) =~= identity_bytes(parameter.0));
        assert(whole.skip(16) =~= node_then(value, arguments_then(arguments, place + 1, rest)));
    }
}

/// A field path holds its root, the number of its fields, and the fields in
/// order.
pub proof fn law_field_path_layout(root: ParameterId, fields: Seq<FieldId>, place: int, rest: Seq<u8>)
    requires
        0 <= place < fields.len() <= 0xffff_ffff,
    ensures
        number_at(node_then(Expression::FieldPath { root, fields }, rest), 1, 17) == root.0,
        number_at(node_then(Expression::FieldPath { root, fields }, rest), 17, 21) == fields.len(),
        number_at(
            node_then(Expression::FieldPath { root, fields }, rest),
            21 + 16 * place,
            21 + 16 * (place + 1),
        ) == fields[place].0,
{
    let whole = node_then(Expression::FieldPath { root, fields }, rest);
    lemma_identity_number(root.0);
    lemma_short_number(fields.len() as u32);
    assert(whole.subrange(1, 17) =~= identity_bytes(root.0));
    assert(whole.subrange(17, 21) =~= u32_bytes(fields.len() as u32));
    lemma_field_at(fields, 0, place, rest);
    let list = fields_then(fields, 0, rest);
    assert(whole.subrange(21 + 16 * place, 21 + 16 * (place + 1)) =~= list.subrange(16 * place, 16 * (place + 1)));
}

/// The fields from `index` on stand in order.
proof fn lemma_field_at(fields: Seq<FieldId>, index: nat, place: int, rest: Seq<u8>)
    requires
        index <= place < fields.len(),
    ensures
        fields_then(fields, index, rest).len() >= 16 * (place - index + 1),
        number_at(fields_then(fields, index, rest), 16 * (place - index), 16 * (place - index + 1))
            == fields[place].0,
    decreases place - index,
{
    let whole = fields_then(fields, index, rest);
    let later = fields_then(fields, index + 1, rest);
    lemma_identity_number(fields[index as int].0);
    assert(whole == identity_bytes(fields[index as int].0) + later);
    if place == index {
        assert(whole.subrange(0, 16) =~= identity_bytes(fields[place].0));
    } else {
        lemma_field_at(fields, index + 1, place, rest);
        let first = 16 * (place - index);
        assert(whole.subrange(first, first + 16) =~= later.subrange(first - 16, first));
    }
}

/// A resource operation holds its kind, its target and the revisions, its call
/// site, its arguments and its result type.
pub proof fn law_resource_layout(operation: ResourceOperation, rest: Seq<u8>)
    requires
        operation.arguments.len() <= 0xffff_ffff,
    ensures
        node_then(Expression::Resource { operation }, rest)[1] == (match operation.kind {
            ResourceKind::Scalar => 1u8,
            ResourceKind::Stream => 2u8,
        }),
        number_at(node_then(Expression::Resource { operation }, rest), 2, 18) == operation.target.0,
        number_at(node_then(Expression::Resource { operation }, rest), 18, 34) == operation.target_revision.source.0,
        number_at(node_then(Expression::Resource { operation }, rest), 34, 50)
            == operation.target_revision.catalogue.0,
        number_at(node_then(Expression::Resource { operation }, rest), 50, 66) == operation.call_site.0,
        number_at(node_then(Expression::Resource { operation }, rest), 66, 70) == operation.arguments.len(),
        node_then(Expression::Resource { operation }, rest).skip(70) == arguments_then(
            operation.arguments,
            0,
            identity_bytes(operation.result_type.0) + rest,
        ),
{
    let whole = node_then(Expression::Resource { operation }, rest);
    lemma_identity_number(operation.target.0);
    lemma_identity_number(operation.target_revision.source.0);
    lemma_identity_number(operation.target_revision.catalogue.0);
    lemma_identity_number(operation.call_site.0);
    lemma_short_number(operation.arguments.len() as u32);
    assert(whole.subrange(2, 18) =~= identity_bytes(operation.target.0));
    assert(whole.subrange(18, 34) =~= identity_bytes(operation.target_revision.source.0));
    assert(whole.subrange(34, 50) =~= identity_bytes(operation.target_revision.catalogue.0));
    assert(whole.subrange(50, 66) =~= identity_bytes(operation.call_site.0));
    assert(whole.subrange(66, 70) =~= u32_bytes(operation.arguments.len() as u32));
    assert(whole.skip(70) =~= arguments_then(
        operation.arguments,
        0,
        identity_bytes(operation.result_type.0) + rest,
    ));
}

/// An action operation holds its domain, its target and the revisions, its call
/// site, its result type and its arguments.
pub proof fn law_action_layout(operation: ActionOperation, rest: Seq<u8>)
    requires
        operation.arguments.len() <= 0xffff_ffff,
    ensures
        node_then(Expression::Action { operation }, rest)[1] == (match operation.domain {
            ActionTargetDomain::Client => 1u8,
            ActionTargetDomain::Server => 2u8,
        }),
        number_at(node_then(Expression::Action { operation }, rest), 2, 18) == operation.target.0,
        number_at(node_then(Expression::Action { operation }, rest), 18, 34) == operation.target_revision.source.0,
        number_at(node_then(Expression::Action { operation }, rest), 34, 50) == operation.target_revision.catalogue.0,
        number_at(node_then(Expression::Action { operation }, rest), 50, 66) == operation.call_site.0,
        number_at(node_then(Expression::Action { operation }, rest), 66, 82) == operation.result_type.0,
        number_at(node_then(Expression::Action { operation }, rest), 82, 86) == operation.arguments.len(),
        node_then(Expression::Action { operation }, rest).skip(86) == arguments_then(operation.arguments, 0, rest),
{
    let whole = node_then(Expression::Action { operation }, rest);
    assert(whole == seq![12u8] + action_then(operation, rest));
    lemma_identity_number(operation.target.0);
    lemma_identity_number(operation.target_revision.source.0);
    lemma_identity_number(operation.target_revision.catalogue.0);
    lemma_identity_number(operation.call_site.0);
    lemma_identity_number(operation.result_type.0);
    lemma_short_number(operation.arguments.len() as u32);
    assert(whole.subrange(2, 18) =~= identity_bytes(operation.target.0));
    assert(whole.subrange(18, 34) =~= identity_bytes(operation.target_revision.source.0));
    assert(whole.subrange(34, 50) =~= identity_bytes(operation.target_revision.catalogue.0));
    assert(whole.subrange(50, 66) =~= identity_bytes(operation.call_site.0));
    assert(whole.subrange(66, 82) =~= identity_bytes(operation.result_type.0));
    assert(whole.subrange(82, 86) =~= u32_bytes(operation.arguments.len() as u32));
    assert(whole.skip(86) =~= arguments_then(operation.arguments, 0, rest));
}

/// A statement of a procedural plan holds its sort, its target and its tree.
pub proof fn law_statement_layout(statement: Statement, rest: Seq<u8>)
    ensures
        statement_then(statement, rest)[0] == (if statement is Let {
            1u8
        } else {
            2u8
        }),
        number_at(statement_then(statement, rest), 1, 17) == statement.local().0,
        statement_then(statement, rest).skip(17) == node_then(statement.expression(), rest),
{
    let whole = statement_then(statement, rest);
    lemma_identity_number(statement.local().0);
    assert(whole.subrange(1, 17) =~= identity_bytes(statement.local().0));
    assert(whole.skip(17) =~= node_then(statement.expression(), rest));
}

/// Declarations stand in order, each a local, its type and its kind.
pub proof fn law_declaration_layout(locals: Seq<ClientLocal>, place: nat, rest: Seq<u8>)
    requires
        place < locals.len(),
    ensures
        number_at(locals_then(locals, place, rest), 0, 16) == locals[place as int].local.0,
        number_at(locals_then(locals, place, rest), 16, 32) == locals[place as int].type_id.0,
        locals_then(locals, place, rest)[32] == (match locals[place as int].kind {
            ClientLocalKind::Value => 0u8,
            ClientLocalKind::Resource(ResourceKind::Scalar) => 1u8,
            ClientLocalKind::Resource(ResourceKind::Stream) => 2u8,
        }),
        locals_then(locals, place, rest).skip(33) == locals_then(locals, place + 1, rest),
{
    let whole = locals_then(locals, place, rest);
    let local = locals[place as int];
    lemma_identity_number(local.local.0);
    lemma_identity_number(local.type_id.0);
    assert(whole.subrange(0, 16) =~= identity_bytes(local.local.0));
    assert(whole.subrange(16, 32) =~= identity_bytes(local.type_id.0));
    assert(whole.skip(33) =~= locals_then(locals, place + 1, rest));
}

/// A state slot holds its identity, its type, its scope and its default.
pub proof fn law_slot_layout(slot: Slot, rest: Seq<u8>)
    ensures
        number_at(slot_then(slot, rest), 0, 16) == slot.id.0,
        number_at(slot_then(slot, rest), 16, 32) == slot.type_id.0,
        slot_then(slot, rest)[32] == (match slot.scope {
            StateScope::Local => 1u8,
            StateScope::Session => 2u8,
            StateScope::User => 3u8,
        }),
        slot_then(slot, rest)[33] == (match slot.default {
            InitialState::Unset => 0u8,
            InitialState::Null => 1u8,
            InitialState::Expression(_) => 2u8,
        }),
        slot_then(slot, rest).skip(34) == (match slot.default {
            InitialState::Expression(expression) => node_then(expression, rest),
            _ => rest,
        }),
{
    let whole = slot_then(slot, rest);
    lemma_identity_number(slot.id.0);
    lemma_identity_number(slot.type_id.0);
    assert(whole.subrange(0, 16) =~= identity_bytes(slot.id.0));
    assert(whole.subrange(16, 32) =~= identity_bytes(slot.type_id.0));
    assert(whole.skip(34) =~= (match slot.default {
        InitialState::Expression(expression) => node_then(expression, rest),
        _ => rest,
    }));
}

/// A statement of a programmable plan holds its sort, and behind it a target and
/// a tree, a marked return value, its branches and a marked body for the other
/// case, or a condition and a body.
pub proof fn law_flow_statement_layout(statement: FlowStatement, rest: Seq<u8>)
    ensures
        flow_statement_then(statement, rest)[0] == (match statement {
            FlowStatement::Let { .. } => 1u8,
            FlowStatement::Assignment { .. } => 2u8,
            FlowStatement::Return { .. } => 3u8,
            FlowStatement::If { .. } => 4u8,
            FlowStatement::While { .. } => 5u8,
        }),
        match statement {
            FlowStatement::Let { local, expression } => {
                &&& number_at(flow_statement_then(statement, rest), 1, 17) == local.0
                &&& flow_statement_then(statement, rest).skip(17) == node_then(expression, rest)
            },
            FlowStatement::Assignment { local, expression } => {
                &&& number_at(flow_statement_then(statement, rest), 1, 17) == local.0
                &&& flow_statement_then(statement, rest).skip(17) == node_then(expression, rest)
            },
            FlowStatement::Return { expression: None } => {
                &&& flow_statement_then(statement, rest)[1] == 0
                &&& flow_statement_then(statement, rest).skip(2) == rest
            },
            FlowStatement::Return { expression: Some(expression) } => {
                &&& flow_statement_then(statement, rest)[1] == 1
                &&& flow_statement_then(statement, rest).skip(2) == node_then(expression, rest)
            },
            FlowStatement::If { branches, otherwise } => branches.len() <= 0xffff_ffff ==> {
                &&& number_at(flow_statement_then(statement, rest), 1, 5) == branches.len()
                &&& flow_statement_then(statement, rest).skip(5) == branches_then(
                    branches,
                    0,
                    match otherwise {
                        None => seq![0u8] + rest,
                        Some(body) => seq![1u8] + block_then(body, rest),
                    },
                )
            },
            FlowStatement::While { condition, body } => flow_statement_then(statement, rest).skip(1) == node_then(
                condition,
                block_then(body, rest),
            ),
        },
{
    let whole = flow_statement_then(statement, rest);
    match statement {
        FlowStatement::Let { local, expression } => {
            lemma_identity_number(local.0);
            assert(whole.subrange(1, 17) =~= identity_bytes(local.0));
            assert(whole.skip(17) =~= node_then(expression, rest));
        },
        FlowStatement::Assignment { local, expression } => {
            lemma_identity_number(local.0);
            assert(whole.subrange(1, 17) =~= identity_bytes(local.0));
            assert(whole.skip(17) =~= node_then(expression, rest));
        },
        FlowStatement::Return { expression: None } => {
            assert(whole.skip(2) =~= rest);
        },
        FlowStatement::Return { expression: Some(expression) } => {
            assert(whole.skip(2) =~= node_then(expression, rest));
        },
        FlowStatement::If { branches, otherwise } => {
            let tail = match otherwise {
                None => seq![0u8] + rest,
                Some(body) => seq![1u8] + block_then(body, rest),
            };
            lemma_short_number(branches.len() as u32);
            assert(whole.subrange(1, 5) =~= u32_bytes(branches.len() as u32));
            assert(whole.skip(5) =~= branches_then(branches, 0, tail));
        },
        FlowStatement::While { condition, body } => {
            assert(whole.skip(1) =~= node_then(condition, block_then(body, rest)));
        },
    }
}

/// A block holds the number of its statements and the statements in order.
pub proof fn law_block_layout(statements: Seq<FlowStatement>, place: nat, rest: Seq<u8>)
    requires
        statements.len() <= 0xffff_ffff,
    ensures
        number_at(block_then(statements, rest), 0, 4) == statements.len(),
        block_then(statements, rest).skip(4) == flow_statements_then(statements, 0, rest),
        flow_statements_then(statements, place, rest) == if place < statements.len() {
            flow_statement_then(statements[place as int], flow_statements_then(statements, place + 1, rest))
        } else {
            rest
        },
{
    let whole = block_then(statements, rest);
    lemma_short_number(statements.len() as u32);
    assert(whole.subrange(0, 4) =~= u32_bytes(statements.len() as u32));
    assert(whole.skip(4) =~= flow_statements_then(statements, 0, rest));
}

/// Branches stand in order, each a condition and its body.
pub proof fn law_branch_layout(branches: Seq<FlowBranch>, place: nat, rest: Seq<u8>)
    ensures
        branches_then(branches, place, rest) == if place < branches.len() {
            node_then(
                branches[place as int].condition,
                block_then(branches[place as int].body, branches_then(branches, place + 1, rest)),
            )
        } else {
            rest
        },
{
}

} // verus!
