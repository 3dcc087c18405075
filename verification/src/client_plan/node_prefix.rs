//! How reading goes on where an input goes on.
//!
//! Whatever is read from an input, a value or a failure, is also read from every
//! longer input, unless the reading failed because the input ended too early.

use vstd::prelude::*;

use crate::artifact_codec::{group_reads_extend, read_identity, read_u32, read_u8};
use crate::client_plan::error::ClientPlanError;
use crate::client_plan::expression::Expression;
use crate::client_plan::grammar::{Grammar, Tally};
use crate::client_plan::header::{after_header, after_operation, declared_version};
use crate::client_plan::local::{parsed_local, parsed_locals, LocalRule};
use crate::client_plan::node_codec::{
    parsed_action, parsed_action_head, parsed_arguments, parsed_field_path, parsed_fields, parsed_inspect,
    parsed_node, parsed_payload, parsed_pinned, parsed_pins, parsed_resource, parsed_text, Parsed,
};
use crate::client_plan::operation::ArgumentRule;
use crate::client_plan::{
    ClientLocal, INSPECT_OPERATION_SNAPSHOT, NODE_ACTION, NODE_AWAIT, NODE_BINARY, NODE_CALL, NODE_CONCAT,
    NODE_EVALUATE, NODE_EXTERNAL_CONTRACT, NODE_FIELD_PATH, NODE_INSPECT, NODE_RESOURCE, NODE_STRING, NODE_UNARY,
};
use crate::identity::{FieldId, ParameterId};

verus! {

broadcast use group_reads_extend;

/// Tells whether `longer`, read from an input that goes on with `more`, agrees
/// with what was read from the input.
pub open spec fn extends<T>(parsed: Parsed<T>, longer: Parsed<T>, more: Seq<u8>) -> bool {
    match parsed {
        Err(ClientPlanError::Truncated) => true,
        Err(error) => longer == Err::<(T, Seq<u8>), ClientPlanError>(error),
        Ok((value, rest)) => longer == Ok::<(T, Seq<u8>), ClientPlanError>((value, rest + more)),
    }
}

/// Tells the same of a reading that keeps a tally.
pub open spec fn tree_extends<T, S>(
    parsed: Result<(T, Seq<u8>, S), ClientPlanError>,
    longer: Result<(T, Seq<u8>, S), ClientPlanError>,
    more: Seq<u8>,
) -> bool {
    match parsed {
        Err(ClientPlanError::Truncated) => true,
        Err(error) => longer == Err::<(T, Seq<u8>, S), ClientPlanError>(error),
        Ok((value, rest, tally)) => longer == Ok::<(T, Seq<u8>, S), ClientPlanError>((value, rest + more, tally)),
    }
}

/// Tells the same of a reading that gives nothing but what follows.
pub open spec fn rest_extends(
    parsed: Result<Seq<u8>, ClientPlanError>,
    longer: Result<Seq<u8>, ClientPlanError>,
    more: Seq<u8>,
) -> bool {
    match parsed {
        Err(ClientPlanError::Truncated) => true,
        Err(error) => longer == Err::<Seq<u8>, ClientPlanError>(error),
        Ok(rest) => longer == Ok::<Seq<u8>, ClientPlanError>(rest + more),
    }
}

/// A declared version.
pub proof fn lemma_version_extends(input: Seq<u8>, more: Seq<u8>)
    ensures
        extends(declared_version(input), declared_version(input + more), more),
{
}

/// An operation tag.
pub proof fn lemma_operation_extends(input: Seq<u8>, operation: u8, more: Seq<u8>)
    ensures
        rest_extends(after_operation(input, operation), after_operation(input + more, operation), more),
{
}

/// A header.
pub proof fn lemma_header_extends(input: Seq<u8>, version: u32, operation: u8, more: Seq<u8>)
    ensures
        rest_extends(after_header(input, version, operation), after_header(input + more, version, operation), more),
{
    lemma_version_extends(input, more);
    if let Ok((_, rest)) = declared_version(input) {
        lemma_operation_extends(rest, operation, more);
    }
}

/// A text.
pub proof fn lemma_text_extends(input: Seq<u8>, tag: u8, more: Seq<u8>)
    ensures
        extends(parsed_text(input, tag), parsed_text(input + more, tag), more),
{
}

/// Fields.
pub proof fn lemma_fields_extend(input: Seq<u8>, done: Seq<FieldId>, total: nat, more: Seq<u8>)
    ensures
        extends(parsed_fields(input, done, total), parsed_fields(input + more, done, total), more),
    decreases total - done.len(),
{
    if done.len() < total {
        if let Some((field, rest)) = read_identity(input) {
            lemma_fields_extend(rest, done.push(FieldId(field)), total, more);
        }
    }
}

/// A field path.
pub proof fn lemma_field_path_extends(input: Seq<u8>, more: Seq<u8>)
    ensures
        extends(parsed_field_path(input), parsed_field_path(input + more), more),
{
    if let Some((_, rest)) = read_identity(input) {
        if let Some((length, rest)) = read_u32(rest) {
            lemma_fields_extend(rest, Seq::empty(), length as nat, more);
        }
    }
}

/// A pinned identity.
pub proof fn lemma_pinned_extends(input: Seq<u8>, zero: ClientPlanError, more: Seq<u8>)
    ensures
        extends(parsed_pinned(input, zero), parsed_pinned(input + more, zero), more),
{
}

/// The pinned identities of an operation.
pub proof fn lemma_pins_extend(input: Seq<u8>, zero: ClientPlanError, more: Seq<u8>)
    ensures
        extends(parsed_pins(input, zero), parsed_pins(input + more, zero), more),
{
    lemma_pinned_extends(input, zero, more);
    if let Ok((_, rest)) = parsed_pinned(input, zero) {
        lemma_pinned_extends(rest, zero, more);
        if let Ok((_, rest)) = parsed_pinned(rest, zero) {
            lemma_pinned_extends(rest, zero, more);
            if let Ok((_, rest)) = parsed_pinned(rest, zero) {
                lemma_pinned_extends(rest, zero, more);
            }
        }
    }
}

/// A tree.
pub proof fn lemma_node_extends(input: Seq<u8>, levels: nat, tally: Tally, grammar: Grammar, more: Seq<u8>)
    ensures
        tree_extends(
            parsed_node(input, levels, tally, grammar),
            parsed_node(input + more, levels, tally, grammar),
            more,
        ),
    decreases levels, 0nat, 0nat,
{
    if levels > 0 {
        if let Some((tag, rest)) = read_u8(input) {
            lemma_payload_extends(tag, rest, (levels - 1) as nat, tally.with_node(), grammar, more);
        }
    }
}

/// Two trees in a row.
proof fn lemma_node_pair_extends(input: Seq<u8>, levels: nat, tally: Tally, grammar: Grammar, more: Seq<u8>)
    ensures
        tree_extends(
            parsed_node(input, levels, tally, grammar),
            parsed_node(input + more, levels, tally, grammar),
            more,
        ),
        parsed_node(input, levels, tally, grammar) matches Ok((_, rest, behind)) ==> tree_extends(
            parsed_node(rest, levels, behind, grammar),
            parsed_node(rest + more, levels, behind, grammar),
            more,
        ),
    decreases levels, 2nat, 0nat,
{
    lemma_node_extends(input, levels, tally, grammar, more);
    if let Ok((_, rest, behind)) = parsed_node(input, levels, tally, grammar) {
        lemma_node_extends(rest, levels, behind, grammar, more);
    }
}

/// The payload of a node.
#[verifier::rlimit(40)]
proof fn lemma_payload_extends(
    tag: u8,
    input: Seq<u8>,
    levels: nat,
    tally: Tally,
    grammar: Grammar,
    more: Seq<u8>,
)
    ensures
        tree_extends(
            parsed_payload(tag, input, levels, tally, grammar),
            parsed_payload(tag, input + more, levels, tally, grammar),
            more,
        ),
    decreases levels, 3nat, 0nat,
{
    if tag == NODE_AWAIT || tag == NODE_EVALUATE {
        lemma_node_extends(input, levels, tally, grammar, more);
    } else if tag == NODE_RESOURCE {
        lemma_resource_extends(input, levels, tally, grammar, more);
    } else if tag == NODE_ACTION {
        lemma_action_extends(input, levels, tally, grammar, more);
    } else if tag == NODE_INSPECT {
        lemma_inspect_extends(input, levels, tally, grammar, more);
    } else if tag == NODE_CALL {
        if let Some((_, rest)) = read_identity(input) {
            if let Some((length, rest)) = read_u32(rest) {
                lemma_arguments_extend(
                    rest,
                    Seq::empty(),
                    length as nat,
                    ArgumentRule::Call,
                    levels,
                    tally,
                    grammar,
                    more,
                );
            }
        }
    } else if tag == NODE_STRING {
        lemma_text_extends(input, NODE_STRING, more);
    } else if tag == NODE_EXTERNAL_CONTRACT {
        lemma_text_extends(input, NODE_EXTERNAL_CONTRACT, more);
    } else if tag == NODE_FIELD_PATH {
        lemma_field_path_extends(input, more);
    } else if tag == NODE_CONCAT {
        lemma_node_pair_extends(input, levels, tally, grammar, more);
    } else if tag == NODE_UNARY || tag == NODE_BINARY {
        if let Some((_, rest)) = read_u8(input) {
            lemma_node_pair_extends(rest, levels, tally, grammar, more);
        }
    }
}

/// A resource operation.
proof fn lemma_resource_extends(input: Seq<u8>, levels: nat, tally: Tally, grammar: Grammar, more: Seq<u8>)
    ensures
        tree_extends(
            parsed_resource(input, levels, tally, grammar),
            parsed_resource(input + more, levels, tally, grammar),
            more,
        ),
    decreases levels, 2nat, 0nat,
{
    let zero = ClientPlanError::InvalidResourceIdentity;
    if let Some((_, rest)) = read_u8(input) {
        lemma_pins_extend(rest, zero, more);
        if let Ok((_, rest)) = parsed_pins(rest, zero) {
            if let Some((count, rest)) = read_u32(rest) {
                let counted = tally.with_resource();
                let inner = grammar.of_arguments();
                lemma_arguments_extend(
                    rest,
                    Seq::empty(),
                    count as nat,
                    ArgumentRule::Resource,
                    levels,
                    counted,
                    inner,
                    more,
                );
                if let Ok((_, rest, _)) = parsed_arguments(
                    rest,
                    Seq::empty(),
                    count as nat,
                    ArgumentRule::Resource,
                    levels,
                    counted,
                    inner,
                ) {
                    lemma_pinned_extends(rest, zero, more);
                }
            }
        }
    }
}

/// The front of an action operation.
pub proof fn lemma_action_head_extends(input: Seq<u8>, more: Seq<u8>)
    ensures
        extends(parsed_action_head(input), parsed_action_head(input + more), more),
{
    let zero = ClientPlanError::InvalidActionIdentity;
    if let Some((_, rest)) = read_u8(input) {
        lemma_pins_extend(rest, zero, more);
        if let Ok((_, rest)) = parsed_pins(rest, zero) {
            lemma_pinned_extends(rest, zero, more);
        }
    }
}

/// An action operation.
proof fn lemma_action_extends(input: Seq<u8>, levels: nat, tally: Tally, grammar: Grammar, more: Seq<u8>)
    ensures
        tree_extends(
            parsed_action(input, levels, tally, grammar),
            parsed_action(input + more, levels, tally, grammar),
            more,
        ),
    decreases levels, 2nat, 0nat,
{
    lemma_action_head_extends(input, more);
    if let Ok(((_, _, _, count), rest)) = parsed_action_head(input) {
        lemma_arguments_extend(rest, Seq::empty(), count, ArgumentRule::Action, levels, tally, grammar, more);
    }
}

/// An Inspector operation.
proof fn lemma_inspect_extends(input: Seq<u8>, levels: nat, tally: Tally, grammar: Grammar, more: Seq<u8>)
    ensures
        tree_extends(
            parsed_inspect(input, levels, tally, grammar),
            parsed_inspect(input + more, levels, tally, grammar),
            more,
        ),
    decreases levels, 2nat, 0nat,
{
    if let Some((tag, rest)) = read_u8(input) {
        if tag == INSPECT_OPERATION_SNAPSHOT {
            lemma_node_extends(rest, levels, tally, grammar, more);
        } else if let Some((_, rest)) = read_u8(rest) {
            lemma_node_extends(rest, levels, tally, grammar, more);
        }
    }
}

/// Arguments.
proof fn lemma_arguments_extend(
    input: Seq<u8>,
    done: Seq<(ParameterId, Expression)>,
    total: nat,
    rule: ArgumentRule,
    levels: nat,
    tally: Tally,
    grammar: Grammar,
    more: Seq<u8>,
)
    ensures
        tree_extends(
            parsed_arguments(input, done, total, rule, levels, tally, grammar),
            parsed_arguments(input + more, done, total, rule, levels, tally, grammar),
            more,
        ),
    decreases levels, 1nat, total - done.len(),
{
    if done.len() < total {
        if let Some((parameter, rest)) = read_identity(input) {
            lemma_node_extends(rest, levels, tally, grammar, more);
            if let Ok((value, rest, behind)) = parsed_node(rest, levels, tally, grammar) {
                lemma_arguments_extend(
                    rest,
                    done.push((ParameterId(parameter), value)),
                    total,
                    rule,
                    levels,
                    behind,
                    grammar,
                    more,
                );
            }
        }
    }
}

/// Local declarations.
pub proof fn lemma_locals_extend(
    input: Seq<u8>,
    done: Seq<ClientLocal>,
    total: nat,
    rule: LocalRule,
    more: Seq<u8>,
)
    ensures
        extends(parsed_locals(input, done, total, rule), parsed_locals(input + more, done, total, rule), more),
    decreases total - done.len(),
{
    if done.len() < total {
        assert(extends(parsed_local(input, done, rule), parsed_local(input + more, done, rule), more));
        if let Ok((local, rest)) = parsed_local(input, done, rule) {
            lemma_locals_extend(rest, done.push(local), total, rule, more);
        }
    }
}

} // verus!
